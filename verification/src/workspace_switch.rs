//! Switching from one workspace to another.

use vstd::prelude::*;

use crate::geometry::{max_int, Rect};

verus! {

/// How a switch is animated.
#[derive(Clone, Copy, Debug, PartialEq, Eq, Structural)]
pub enum WorkspaceSwitchStyle {
    Slide,
    SlideZoom,
    Fade,
    Zoom,
}

impl WorkspaceSwitchStyle {
    /// Whether windows stay in place.
    pub open spec fn spec_is_no_slide(self) -> bool {
        self is Fade || self is Zoom
    }

    pub fn is_no_slide(&self) -> (result: bool)
        ensures
            result == self.spec_is_no_slide(),
    {
        match *self {
            WorkspaceSwitchStyle::Fade => true,
            WorkspaceSwitchStyle::Zoom => true,
            _ => false,
        }
    }
}

/// Where a monitor is, and its native handle.
#[derive(Clone, Copy, Debug, PartialEq, Eq, Structural)]
pub struct MonitorBounds {
    pub x: i32,
    pub y: i32,
    pub width: i32,
    pub height: i32,
    pub handle: isize,
}

/// A window that is redrawn while a switch is pending.
#[derive(Clone, Copy, Debug, PartialEq, Eq, Structural)]
pub struct SwitchCandidate {
    pub id: u128,
    pub is_incoming: bool,
    pub is_outgoing: bool,
    pub monitor: Option<MonitorBounds>,
}

/// A window that takes part in a switch.
#[derive(Clone, Copy, Debug, PartialEq, Eq, Structural)]
pub struct SwitchParticipant {
    pub id: u128,
    pub is_incoming: bool,
    /// The part of the desktop that the switch plays on.
    pub viewport: MonitorBounds,
}

/// The windows that take part in a switch, and where it plays.
#[derive(Debug)]
pub struct SwitchPlan {
    pub participants: Vec<SwitchParticipant>,
    pub viewport: MonitorBounds,
    /// Whether the animation starts.
    pub starts: bool,
}

/// No monitor yet.
pub open spec fn no_viewport() -> MonitorBounds {
    MonitorBounds { x: 0, y: 0, width: 0, height: 0, handle: 0 }
}

pub open spec fn participates(c: SwitchCandidate) -> bool {
    c.is_incoming || c.is_outgoing
}

/// Where a switch among `cs` plays: the first monitor with a width that one of
/// its windows is on.
pub open spec fn switch_viewport(cs: Seq<SwitchCandidate>) -> MonitorBounds
    decreases cs.len(),
{
    if cs.len() == 0 {
        no_viewport()
    } else {
        let before = switch_viewport(cs.drop_last());
        let c = cs.last();
        if participates(c) && before.width == 0 && c.monitor is Some {
            c.monitor->0
        } else {
            before
        }
    }
}

/// The windows among `cs` that take part, in order. A window that comes and
/// goes at once counts as coming.
pub open spec fn switch_participants(cs: Seq<SwitchCandidate>) -> Seq<SwitchParticipant>
    decreases cs.len(),
{
    if cs.len() == 0 {
        Seq::empty()
    } else {
        let before = switch_participants(cs.drop_last());
        let c = cs.last();
        if participates(c) {
            before.push(
                SwitchParticipant {
                    id: c.id,
                    is_incoming: c.is_incoming,
                    viewport: switch_viewport(cs),
                },
            )
        } else {
            before
        }
    }
}

/// Decides which windows take part in a switch and whether it is animated. A
/// slide needs a direction to go in.
pub fn plan_workspace_switch(
    candidates: &Vec<SwitchCandidate>,
    direction: i32,
    style: WorkspaceSwitchStyle,
) -> (plan: SwitchPlan)
    ensures
        plan.participants@ == switch_participants(candidates@),
        plan.viewport == switch_viewport(candidates@),
        plan.starts == (switch_participants(candidates@).len() > 0 && (direction != 0
            || style.spec_is_no_slide())),
{
    let mut participants: Vec<SwitchParticipant> = Vec::new();
    let mut viewport = MonitorBounds { x: 0, y: 0, width: 0, height: 0, handle: 0 };
    let mut i: usize = 0;
    while i < candidates.len()
        invariant
            i <= candidates@.len(),
            participants@ == switch_participants(candidates@.subrange(0, i as int)),
            viewport == switch_viewport(candidates@.subrange(0, i as int)),
        decreases candidates@.len() - i,
    {
        let c = candidates[i];
        proof {
            let next = candidates@.subrange(0, i + 1);
            assert(next.drop_last() =~= candidates@.subrange(0, i as int));
        }
        if c.is_incoming || c.is_outgoing {
            if viewport.width == 0 {
                if let Some(monitor) = c.monitor {
                    viewport = monitor;
                }
            }
            participants.push(
                SwitchParticipant { id: c.id, is_incoming: c.is_incoming, viewport },
            );
        }
        i = i + 1;
    }
    proof {
        assert(candidates@.subrange(0, i as int) =~= candidates@);
    }
    let starts: bool = participants.len() > 0 && (direction != 0 || style.is_no_slide());
    SwitchPlan { participants, viewport, starts }
}

/// How the stand-in of a window first appears.
#[derive(Clone, Copy, Debug, PartialEq, Eq, Structural)]
pub enum SurrogateShow {
    /// As the window that it covers.
    Initial,
    /// At its starting opacity.
    Incoming,
    /// Not before it slides in.
    Later,
}

/// Decides how the stand-in of a window first appears.
pub fn surrogate_show(is_incoming: bool, style: WorkspaceSwitchStyle) -> (result: SurrogateShow)
    ensures
        result == (if !is_incoming {
            SurrogateShow::Initial
        } else if style != WorkspaceSwitchStyle::Slide {
            SurrogateShow::Incoming
        } else {
            SurrogateShow::Later
        }),
{
    if !is_incoming {
        SurrogateShow::Initial
    } else if style != WorkspaceSwitchStyle::Slide {
        SurrogateShow::Incoming
    } else {
        SurrogateShow::Later
    }
}

/// The place that the stand-in of a window is made for: where the window comes
/// to, if that can be told; or where it leaves from, which is where it was last
/// sent, or else where it is.
pub open spec fn stand_in_place(
    is_incoming: bool,
    target: Option<Rect>,
    last_target: Option<Rect>,
    frame: Option<Rect>,
) -> Option<Rect> {
    if is_incoming {
        target
    } else if last_target is Some {
        last_target
    } else if frame is Some {
        frame
    } else {
        Some(Rect { left: 0, top: 0, right: 0, bottom: 0 })
    }
}

/// Decides for which place the stand-in of a window is made. A window that
/// comes in takes part without one where its place cannot be told.
pub fn surrogate_place(
    is_incoming: bool,
    target: Option<Rect>,
    last_target: Option<Rect>,
    frame: Option<Rect>,
) -> (result: Option<Rect>)
    ensures
        result == stand_in_place(is_incoming, target, last_target, frame),
{
    if is_incoming {
        return target;
    }
    if last_target.is_some() {
        return last_target;
    }
    if frame.is_some() {
        return frame;
    }
    Some(Rect { left: 0, top: 0, right: 0, bottom: 0 })
}

/// What comes before the windows of a redraw are looked at one by one.
#[derive(Clone, Copy, Debug, PartialEq, Eq, Structural)]
pub struct SwitchPrePass {
    /// Whether a wipe starts, which covers the monitor for a frame first.
    pub starts_iris: bool,
    /// Whether stand-ins are made for the windows that come and go.
    pub plans_switch: bool,
}

/// Decides what comes before the windows of a redraw: nothing where switches
/// are not animated.
pub fn switch_pre_pass(is_enabled: bool, is_suppressed: bool, has_iris_request: bool) -> (result:
    SwitchPrePass)
    ensures
        result.starts_iris == (is_enabled && !is_suppressed && has_iris_request),
        result.plans_switch == (is_enabled && !is_suppressed),
{
    let is_animated: bool = is_enabled && !is_suppressed;
    SwitchPrePass { starts_iris: is_animated && has_iris_request, plans_switch: is_animated }
}

/// A wipe from a point that is to uncover a whole monitor.
#[derive(Clone, Copy, Debug, PartialEq, Eq, Structural)]
pub struct IrisSwitchRequest {
    pub origin_x: i32,
    pub origin_y: i32,
    pub monitor_x: i32,
    pub monitor_y: i32,
    pub monitor_width: i32,
    pub monitor_height: i32,
}

impl IrisSwitchRequest {
    /// Whether the corners of the monitor, and how far they are from the
    /// origin along each axis, can be told.
    pub open spec fn in_range(self) -> bool {
        &&& i32::MIN <= self.monitor_x + self.monitor_width <= i32::MAX
        &&& i32::MIN <= self.monitor_y + self.monitor_height <= i32::MAX
        &&& i32::MIN <= self.monitor_x - self.origin_x <= i32::MAX
        &&& i32::MIN <= self.monitor_y - self.origin_y <= i32::MAX
        &&& i32::MIN <= self.monitor_x + self.monitor_width - self.origin_x <= i32::MAX
        &&& i32::MIN <= self.monitor_y + self.monitor_height - self.origin_y <= i32::MAX
    }

    /// The square of the distance from the origin to the farthest corner.
    pub open spec fn farthest_square(self) -> int {
        let near_x = self.monitor_x - self.origin_x;
        let far_x = near_x + self.monitor_width;
        let near_y = self.monitor_y - self.origin_y;
        let far_y = near_y + self.monitor_height;
        max_int(near_x * near_x, far_x * far_x) + max_int(near_y * near_y, far_y * far_y)
    }
}

/// Whether `r` is the smallest radius whose square reaches `n`.
pub open spec fn is_root_above(r: int, n: int) -> bool {
    &&& 0 <= r
    &&& r * r >= n
    &&& r > 0 ==> (r - 1) * (r - 1) < n
}

fn square(v: i32) -> (result: u64)
    ensures
        result == v * v,
        result <= 0x4000_0000_0000_0000,
{
    let wide: i64 = v as i64;
    let magnitude: i64 = if wide < 0 {
        -wide
    } else {
        wide
    };
    proof {
        assert(0 <= magnitude <= 0x8000_0000);
        assert(magnitude * magnitude <= 0x8000_0000 * 0x8000_0000) by (nonlinear_arith)
            requires
                0 <= magnitude <= 0x8000_0000,
        ;
        assert(magnitude * magnitude == wide * wide) by (nonlinear_arith)
            requires
                magnitude == wide || magnitude == -wide,
        ;
        assert(magnitude as u64 * magnitude as u64 == magnitude * magnitude);
    }
    let m: u64 = magnitude as u64;
    m * m
}

fn root_above(n: u64) -> (result: u64)
    requires
        n <= 0x8000_0000_0000_0000,
    ensures
        is_root_above(result as int, n as int),
{
    if n == 0 {
        return 0;
    }
    let mut lo: u64 = 0;
    let mut hi: u64 = 0x1_0000_0000;
    proof {
        assert(0x1_0000_0000int * 0x1_0000_0000int >= 0x8000_0000_0000_0000) by (nonlinear_arith);
    }
    while hi - lo > 1
        invariant
            lo < hi <= 0x1_0000_0000,
            lo * lo < n,
            hi * hi >= n,
        decreases hi - lo,
    {
        let mid: u64 = lo + (hi - lo) / 2;
        proof {
            assert(lo < mid < hi);
            assert(mid * mid <= 0xffff_ffff * 0xffff_ffff) by (nonlinear_arith)
                requires
                    0 <= mid <= 0xffff_ffff,
            ;
        }
        if mid * mid < n {
            lo = mid;
        } else {
            hi = mid;
        }
    }
    proof {
        assert(hi - 1 == lo);
    }
    hi
}

/// The smallest radius around the origin that reaches every corner of the
/// monitor, as far as it can be told.
pub fn iris_max_radius(req: &IrisSwitchRequest) -> (result: i32)
    requires
        req.in_range(),
    ensures
        is_root_above(result as int, req.farthest_square()) || (result == i32::MAX
            && req.farthest_square() > i32::MAX * i32::MAX),
{
    let near_x: i32 = req.monitor_x - req.origin_x;
    let near_y: i32 = req.monitor_y - req.origin_y;
    let far_x: i32 = (req.monitor_x + req.monitor_width) - req.origin_x;
    let far_y: i32 = (req.monitor_y + req.monitor_height) - req.origin_y;
    let nx: u64 = square(near_x);
    let fx: u64 = square(far_x);
    let ny: u64 = square(near_y);
    let fy: u64 = square(far_y);
    let sx: u64 = if nx >= fx {
        nx
    } else {
        fx
    };
    let sy: u64 = if ny >= fy {
        ny
    } else {
        fy
    };
    let r: u64 = root_above(sx + sy);
    if r > 0x7fff_ffff {
        proof {
            let n = (sx + sy) as int;
            assert((r - 1) * (r - 1) >= 0x7fff_ffff * 0x7fff_ffff) by (nonlinear_arith)
                requires
                    r - 1 >= 0x7fff_ffff,
            ;
        }
        return i32::MAX;
    }
    r as i32
}

/// The radius uncovers the whole monitor: no point of it is farther away.
pub proof fn iris_covers_the_monitor(req: IrisSwitchRequest, r: int, x: int, y: int)
    requires
        req.in_range(),
        is_root_above(r, req.farthest_square()),
        req.monitor_x <= x <= req.monitor_x + req.monitor_width,
        req.monitor_y <= y <= req.monitor_y + req.monitor_height,
    ensures
        (x - req.origin_x) * (x - req.origin_x) + (y - req.origin_y) * (y - req.origin_y) <= r * r,
{
    lemma_square_between(
        req.monitor_x - req.origin_x,
        x - req.origin_x,
        req.monitor_x - req.origin_x + req.monitor_width,
    );
    lemma_square_between(
        req.monitor_y - req.origin_y,
        y - req.origin_y,
        req.monitor_y - req.origin_y + req.monitor_height,
    );
}

proof fn lemma_square_between(a: int, v: int, b: int)
    by (nonlinear_arith)
    requires
        a <= v <= b,
    ensures
        v * v <= a * a || v * v <= b * b,
{
}

/// Only slides move windows.
pub proof fn only_slides_move(style: WorkspaceSwitchStyle)
    ensures
        style == WorkspaceSwitchStyle::Slide ==> !style.spec_is_no_slide(),
        style == WorkspaceSwitchStyle::SlideZoom ==> !style.spec_is_no_slide(),
        style == WorkspaceSwitchStyle::Fade ==> style.spec_is_no_slide(),
        style == WorkspaceSwitchStyle::Zoom ==> style.spec_is_no_slide(),
{
}

/// A switch plays on the monitor of the first window that takes part and is on
/// a monitor with a width.
pub proof fn switches_play_on_the_first_monitor(cs: Seq<SwitchCandidate>, k: int)
    requires
        0 <= k < cs.len(),
        cs[k].is_incoming || cs[k].is_outgoing,
        cs[k].monitor is Some && cs[k].monitor->0.width != 0,
        forall|j: int|
            0 <= j < k && ((#[trigger] cs[j]).is_incoming || cs[j].is_outgoing) && cs[j].monitor is Some
                ==> cs[j].monitor->0.width == 0,
    ensures
        switch_viewport(cs) == cs[k].monitor->0,
    decreases cs.len(),
{
    let rest = cs.drop_last();
    if k < rest.len() {
        assert(rest[k] == cs[k]);
        assert forall|j: int|
            0 <= j < k && ((#[trigger] rest[j]).is_incoming || rest[j].is_outgoing)
                && rest[j].monitor is Some implies rest[j].monitor->0.width == 0 by {
            assert(rest[j] == cs[j]);
        }
        switches_play_on_the_first_monitor(rest, k);
    } else {
        assert forall|j: int|
            0 <= j < rest.len() && ((#[trigger] rest[j]).is_incoming || rest[j].is_outgoing)
                && rest[j].monitor is Some implies rest[j].monitor->0.width == 0 by {
            assert(rest[j] == cs[j]);
        }
        lemma_no_width(rest);
    }
}

proof fn lemma_no_width(cs: Seq<SwitchCandidate>)
    requires
        forall|j: int|
            0 <= j < cs.len() && ((#[trigger] cs[j]).is_incoming || cs[j].is_outgoing)
                && cs[j].monitor is Some ==> cs[j].monitor->0.width == 0,
    ensures
        switch_viewport(cs).width == 0,
    decreases cs.len(),
{
    if cs.len() > 0 {
        let rest = cs.drop_last();
        assert forall|j: int|
            0 <= j < rest.len() && ((#[trigger] rest[j]).is_incoming || rest[j].is_outgoing)
                && rest[j].monitor is Some implies rest[j].monitor->0.width == 0 by {
            assert(rest[j] == cs[j]);
        }
        lemma_no_width(rest);
        assert(cs[cs.len() - 1] == cs.last());
    }
}

/// Windows take part in the order in which they are looked at, with the viewport
/// that is known by then. One that neither comes nor goes takes no part and does
/// not decide where the switch plays.
pub proof fn windows_take_part_in_turn(cs: Seq<SwitchCandidate>, c: SwitchCandidate)
    ensures
        switch_participants(Seq::empty()) == Seq::<SwitchParticipant>::empty(),
        !c.is_incoming && !c.is_outgoing ==> switch_participants(cs.push(c)) == switch_participants(cs)
            && switch_viewport(cs.push(c)) == switch_viewport(cs),
        c.is_incoming || c.is_outgoing ==> switch_participants(cs.push(c)) == switch_participants(
            cs,
        ).push(
            SwitchParticipant {
                id: c.id,
                is_incoming: c.is_incoming,
                viewport: switch_viewport(cs.push(c)),
            },
        ),
        c.monitor is None ==> switch_viewport(cs.push(c)) == switch_viewport(cs),
        switch_viewport(Seq::empty()) == (MonitorBounds {
            x: 0,
            y: 0,
            width: 0,
            height: 0,
            handle: 0,
        }),
{
    assert(cs.push(c).drop_last() =~= cs);
}

/// The stand-in of a window that comes is made for where it goes to, and that of
/// one that goes for where it was last sent, or else for where it is.
pub proof fn stand_ins_are_made_for_places(
    target: Option<Rect>,
    last_target: Option<Rect>,
    frame: Option<Rect>,
)
    ensures
        stand_in_place(true, target, last_target, frame) == target,
        last_target is Some ==> stand_in_place(false, target, last_target, frame) == last_target,
        last_target is None && frame is Some ==> stand_in_place(false, target, last_target, frame)
            == frame,
        last_target is None && frame is None ==> stand_in_place(false, target, last_target, frame)
            == Some(Rect { left: 0, top: 0, right: 0, bottom: 0 }),
{
}

/// The radius is no larger than needed: with one less, a corner of the monitor
/// would stay covered.
pub proof fn iris_is_no_larger_than_needed(req: IrisSwitchRequest, r: int)
    requires
        is_root_above(r, req.farthest_square()),
        r > 0,
    ensures
        exists|x: int, y: int|
            #![trigger corner_of(req, x, y)]
            corner_of(req, x, y) && (x - req.origin_x) * (x - req.origin_x) + (y - req.origin_y) * (y
                - req.origin_y) > (r - 1) * (r - 1),
{
    let near_x = req.monitor_x - req.origin_x;
    let far_x = near_x + req.monitor_width;
    let near_y = req.monitor_y - req.origin_y;
    let far_y = near_y + req.monitor_height;
    let x = req.origin_x + (if near_x * near_x >= far_x * far_x {
        near_x
    } else {
        far_x
    });
    let y = req.origin_y + (if near_y * near_y >= far_y * far_y {
        near_y
    } else {
        far_y
    });
    assert(corner_of(req, x, y));
}

/// Whether a point is a corner of the monitor.
pub open spec fn corner_of(req: IrisSwitchRequest, x: int, y: int) -> bool {
    &&& x == req.monitor_x || x == req.monitor_x + req.monitor_width
    &&& y == req.monitor_y || y == req.monitor_y + req.monitor_height
}

} // verus!
