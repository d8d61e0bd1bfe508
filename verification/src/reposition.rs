//! Putting a window where the layout wants it.

use vstd::prelude::*;

use crate::geometry::Rect;
use crate::window_state::WindowState;

verus! {

/// The bits of a native position call, under their native values.
pub const SWP_NOZORDER: u32 = 0x0004;

pub const SWP_NOACTIVATE: u32 = 0x0010;

pub const SWP_FRAMECHANGED: u32 = 0x0020;

pub const SWP_NOCOPYBITS: u32 = 0x0100;

pub const SWP_NOSENDCHANGING: u32 = 0x0400;

pub const SWP_ASYNCWINDOWPOS: u32 = 0x4000;

/// How a window is to be positioned.
#[derive(Clone, Copy, Debug, PartialEq, Eq, Structural)]
pub struct PosFlags {
    /// Leaves the z-order as it is.
    pub no_z_order: bool,
    /// Has the frame computed anew.
    pub frame_changed: bool,
    /// Drops what is drawn at the old place.
    pub no_copy_bits: bool,
    /// Does not wait for the window's own process.
    pub async_pos: bool,
}

impl PosFlags {
    /// The native value. Activation and change notices are always left out.
    pub open spec fn spec_bits(self) -> int {
        SWP_NOACTIVATE + SWP_NOSENDCHANGING + (if self.no_z_order {
            SWP_NOZORDER as int
        } else {
            0
        }) + (if self.frame_changed {
            SWP_FRAMECHANGED as int
        } else {
            0
        }) + (if self.no_copy_bits {
            SWP_NOCOPYBITS as int
        } else {
            0
        }) + (if self.async_pos {
            SWP_ASYNCWINDOWPOS as int
        } else {
            0
        })
    }

    pub fn bits(&self) -> (result: u32)
        ensures
            result == self.spec_bits(),
    {
        let mut bits: u32 = SWP_NOACTIVATE + SWP_NOSENDCHANGING;
        if self.no_z_order {
            bits = bits + SWP_NOZORDER;
        }
        if self.frame_changed {
            bits = bits + SWP_FRAMECHANGED;
        }
        if self.no_copy_bits {
            bits = bits + SWP_NOCOPYBITS;
        }
        if self.async_pos {
            bits = bits + SWP_ASYNCWINDOWPOS;
        }
        bits
    }
}

/// The place of a window among the others.
#[derive(Clone, Copy, Debug, PartialEq, Eq, Structural)]
pub enum WindowZOrder {
    Normal,
    /// Right behind the window with that handle.
    AfterWindow(isize),
    /// Above all windows that are not topmost themselves.
    TopMost,
}

/// How windows of workspaces that are not displayed are kept out of sight.
#[derive(Clone, Copy, Debug, PartialEq, Eq, Structural)]
pub enum HideMethod {
    Hide,
    Cloak,
    PlaceInCorner,
}

/// The corner of a monitor that hidden windows are put into.
#[derive(Clone, Copy, Debug, PartialEq, Eq, Structural)]
pub enum HideCorner {
    BottomLeft,
    BottomRight,
}

/// Whether repositioning has taken care of the window's cloak.
#[derive(Clone, Copy, Debug, PartialEq, Eq, Structural)]
pub enum CloakState {
    /// It has: nothing is left to be done.
    Applied,
    /// It has not: a visible window still has to be uncloaked.
    Untouched,
}

/// One thing to be done to the native window.
#[derive(Clone, Copy, Debug, PartialEq, Eq, Structural)]
pub enum RepositionStep {
    SetFrame(Rect),
    Resize { width: i32, height: i32 },
    Restore(Rect),
    Minimize,
    Maximize,
    SetWindowPos { z_order: WindowZOrder, rect: Rect, flags: PosFlags },
    /// Sets the alpha again, which a new frame can drop for a moment.
    ReassertTransparency,
    ClearDpiAdjustment,
    SetCloaked(bool),
    Show,
    Hide,
}

impl RepositionStep {
    /// Whether the steps behind this one are left out if it fails.
    pub fn is_required(&self) -> (result: bool)
        ensures
            result == (self !is ReassertTransparency),
    {
        match *self {
            RepositionStep::ReassertTransparency => false,
            _ => true,
        }
    }
}

/// What is known of a window that is about to be repositioned.
#[derive(Clone, Copy, Debug, PartialEq, Eq, Structural)]
pub struct RepositionInput {
    pub state: WindowState,
    /// Where it is to go.
    pub rect: Rect,
    pub z_order: WindowZOrder,
    pub is_visible: bool,
    /// Whether an overlay stands in for it at the moment.
    pub has_surrogate: bool,
    /// Whether the user is dragging it.
    pub is_dragged: bool,
    pub is_minimized: bool,
    pub is_maximized: bool,
    pub has_maximize_box: bool,
    /// Whether it is yet to be adjusted to the scale of its monitor.
    pub has_pending_dpi_adjustment: bool,
    pub hide_method: HideMethod,
    pub hide_corner: HideCorner,
    /// Where the window is now.
    pub frame: Rect,
    /// The part of its monitor that windows may use.
    pub working_area: Option<Rect>,
}

/// The window's monitor is not known.
#[derive(Clone, Copy, Debug, PartialEq, Eq, Structural)]
pub struct NoMonitor;

/// How much of a window that is put into a corner stays on screen.
pub const VISIBLE_SLIVER: i32 = 1;

impl RepositionInput {
    /// Whether the window is to be put into a corner.
    pub open spec fn goes_to_corner(self) -> bool {
        self.hide_method == HideMethod::PlaceInCorner && !self.is_visible
    }

    /// The left edge of a window that is put into a corner of `area`.
    pub open spec fn corner_x(self, area: Rect) -> int {
        match self.hide_corner {
            HideCorner::BottomLeft => area.left + VISIBLE_SLIVER - self.frame.spec_width(),
            HideCorner::BottomRight => area.right - VISIBLE_SLIVER,
        }
    }

    /// The top edge of a window that is put into a corner of `area`.
    pub open spec fn corner_y(self, area: Rect) -> int {
        area.bottom - VISIBLE_SLIVER
    }

    /// Whether every coordinate that has to be computed fits: the corner, for a
    /// window that goes there, and the size of one that is dragged.
    pub open spec fn in_range(self) -> bool {
        if self.goes_to_corner() {
            self.working_area matches Some(area) ==> {
                &&& self.frame.measurable()
                &&& i32::MIN <= self.corner_x(area) <= i32::MAX
                &&& i32::MIN <= self.corner_y(area) <= i32::MAX
                &&& i32::MIN <= self.corner_x(area) + self.frame.spec_width() <= i32::MAX
                &&& i32::MIN <= self.corner_y(area) + self.frame.spec_height() <= i32::MAX
                &&& self.hide_corner is BottomLeft ==> area.left + VISIBLE_SLIVER <= i32::MAX
            }
        } else {
            self.is_dragged ==> self.rect.measurable()
        }
    }

    /// Whether the window has to be brought back from being minimized or
    /// maximized before it can be moved.
    pub open spec fn should_restore(self) -> bool {
        match self.state {
            WindowState::Fullscreen(s) => !s.maximized && self.is_maximized,
            WindowState::Minimized => false,
            _ => self.is_minimized || self.is_maximized,
        }
    }

    /// Whether the window is to be maximized natively.
    pub open spec fn maximizes(self) -> bool {
        self.state matches WindowState::Fullscreen(s) && s.maximized && self.has_maximize_box
    }

    /// How the window is positioned. One with an overlay standing in for it is
    /// waited for, and what it has drawn is dropped.
    pub open spec fn flags(self) -> PosFlags {
        PosFlags {
            no_z_order: false,
            frame_changed: !self.maximizes(),
            no_copy_bits: self.has_surrogate,
            async_pos: !self.has_surrogate,
        }
    }

    pub open spec fn set_pos(self) -> RepositionStep {
        RepositionStep::SetWindowPos { z_order: self.z_order, rect: self.rect, flags: self.flags() }
    }

    /// The steps that bring the window back, if it has to be.
    pub open spec fn restore_steps(self) -> Seq<RepositionStep> {
        if self.should_restore() {
            seq![RepositionStep::Restore(self.rect)]
        } else {
            Seq::empty()
        }
    }

    /// The steps that minimize, maximize or move the window.
    pub open spec fn move_steps(self) -> Seq<RepositionStep> {
        if self.state is Minimized {
            if self.is_minimized {
                Seq::empty()
            } else {
                seq![RepositionStep::Minimize]
            }
        } else if self.maximizes() {
            if self.is_maximized {
                seq![self.set_pos()]
            } else {
                seq![RepositionStep::Maximize, self.set_pos()]
            }
        } else if self.has_pending_dpi_adjustment {
            seq![
                self.set_pos(),
                RepositionStep::ReassertTransparency,
                self.set_pos(),
                RepositionStep::ReassertTransparency,
                RepositionStep::ClearDpiAdjustment,
            ]
        } else {
            seq![self.set_pos(), RepositionStep::ReassertTransparency]
        }
    }

    /// The step that shows or hides the window.
    pub open spec fn visibility_step(self) -> RepositionStep {
        if self.hide_method == HideMethod::Cloak {
            RepositionStep::SetCloaked(!self.is_visible)
        } else if self.is_visible {
            RepositionStep::Show
        } else {
            RepositionStep::Hide
        }
    }

    /// All that has to be done, in order.
    pub open spec fn steps(self) -> Seq<RepositionStep> {
        if self.goes_to_corner() {
            seq![
                RepositionStep::SetFrame(
                    Rect::spec_from_xy(
                        self.corner_x(self.working_area->0),
                        self.corner_y(self.working_area->0),
                        self.frame.spec_width(),
                        self.frame.spec_height(),
                    ),
                ),
            ]
        } else if self.is_dragged {
            seq![
                RepositionStep::Resize {
                    width: self.rect.spec_width() as i32,
                    height: self.rect.spec_height() as i32,
                },
            ]
        } else {
            (self.restore_steps() + self.move_steps()).push(self.visibility_step())
        }
    }

    /// Whether those steps take care of the cloak.
    pub open spec fn cloak_state(self) -> CloakState {
        if !self.goes_to_corner() && !self.is_dragged && self.hide_method == HideMethod::Cloak {
            CloakState::Applied
        } else {
            CloakState::Untouched
        }
    }
}

/// Decides what has to be done to a window to put it where the layout wants
/// it. Fails only for a window that has to be put into the corner of a monitor
/// that is not known.
pub fn reposition_window(input: &RepositionInput) -> (result: Result<
    (Vec<RepositionStep>, CloakState),
    NoMonitor,
>)
    requires
        input.in_range(),
    ensures
        match result {
            Ok((steps, cloak)) => {
                &&& input.goes_to_corner() ==> input.working_area is Some
                &&& steps@ == input.steps()
                &&& cloak == input.cloak_state()
            },
            Err(_) => input.goes_to_corner() && input.working_area is None,
        },
{
    let mut steps: Vec<RepositionStep> = Vec::new();
    if input.hide_method == HideMethod::PlaceInCorner && !input.is_visible {
        let area = match input.working_area {
            Some(area) => area,
            None => {
                return Err(NoMonitor);
            },
        };
        let width: i32 = input.frame.width();
        let height: i32 = input.frame.height();
        let y: i32 = area.bottom - VISIBLE_SLIVER;
        let x: i32 = match input.hide_corner {
            HideCorner::BottomLeft => area.left + VISIBLE_SLIVER - width,
            HideCorner::BottomRight => area.right - VISIBLE_SLIVER,
        };
        steps.push(RepositionStep::SetFrame(Rect::from_xy(x, y, width, height)));
        proof {
            assert(steps@ =~= input.steps());
        }
        return Ok((steps, CloakState::Untouched));
    }
    if input.is_dragged {
        steps.push(
            RepositionStep::Resize { width: input.rect.width(), height: input.rect.height() },
        );
        proof {
            assert(steps@ =~= input.steps());
        }
        return Ok((steps, CloakState::Untouched));
    }
    let should_restore: bool = match input.state {
        WindowState::Fullscreen(s) => !s.maximized && input.is_maximized,
        WindowState::Minimized => false,
        _ => input.is_minimized || input.is_maximized,
    };
    if should_restore {
        steps.push(RepositionStep::Restore(input.rect));
    }
    proof {
        assert(steps@ =~= input.restore_steps());
    }
    let maximizes: bool = match input.state {
        WindowState::Fullscreen(s) => s.maximized && input.has_maximize_box,
        _ => false,
    };
    let flags = PosFlags {
        no_z_order: false,
        frame_changed: !maximizes,
        no_copy_bits: input.has_surrogate,
        async_pos: !input.has_surrogate,
    };
    let set_pos = RepositionStep::SetWindowPos {
        z_order: input.z_order,
        rect: input.rect,
        flags,
    };
    match input.state {
        WindowState::Minimized => {
            if !input.is_minimized {
                steps.push(RepositionStep::Minimize);
            }
        },
        _ => {
            if maximizes {
                if !input.is_maximized {
                    steps.push(RepositionStep::Maximize);
                }
                steps.push(set_pos);
            } else {
                steps.push(set_pos);
                steps.push(RepositionStep::ReassertTransparency);
                if input.has_pending_dpi_adjustment {
                    steps.push(set_pos);
                    steps.push(RepositionStep::ReassertTransparency);
                    steps.push(RepositionStep::ClearDpiAdjustment);
                }
            }
        },
    }
    proof {
        assert(steps@ =~= input.restore_steps() + input.move_steps());
    }
    if input.hide_method == HideMethod::Cloak {
        steps.push(RepositionStep::SetCloaked(!input.is_visible));
        Ok((steps, CloakState::Applied))
    } else if input.is_visible {
        steps.push(RepositionStep::Show);
        Ok((steps, CloakState::Untouched))
    } else {
        steps.push(RepositionStep::Hide);
        Ok((steps, CloakState::Untouched))
    }
}

/// What an animation session wants of its window while it runs.
#[derive(Clone, Copy, Debug, PartialEq, Eq, Structural)]
pub struct SessionNeeds {
    /// Whether the window has to be in place ahead of time.
    pub needs_preposition: bool,
    /// Whether the window only moves.
    pub is_move_only: bool,
}

/// How a window that an animation has taken over is put in place while it
/// cannot be seen: not at all if its session keeps it where it was; else
/// without waiting, with a new frame unless it only moves.
pub open spec fn preposition_flags(session: Option<SessionNeeds>) -> Option<PosFlags> {
    match session {
        None => Some(
            PosFlags { no_z_order: true, frame_changed: true, no_copy_bits: false, async_pos: true },
        ),
        Some(needs) => if needs.needs_preposition {
            Some(
                PosFlags {
                    no_z_order: true,
                    frame_changed: !needs.is_move_only,
                    no_copy_bits: false,
                    async_pos: true,
                },
            )
        } else {
            None
        },
    }
}

/// A window that is to be cloaked once what stands in for it has been drawn.
#[derive(Clone, Copy, Debug, PartialEq, Eq, Structural)]
pub struct PendingCloak {
    pub window: u128,
    pub z_order: WindowZOrder,
    pub target_rect: Rect,
    /// What the window's session wants, if it has one.
    pub session: Option<SessionNeeds>,
}

/// One thing to be done for the windows that are to be cloaked.
#[derive(Clone, Copy, Debug, PartialEq, Eq, Structural)]
pub enum CloakStep {
    CommitBlurOverlays,
    CommitBorderOverlays,
    /// Waits until the next frame is on screen.
    Flush,
    Cloak(u128),
    Position { window: u128, z_order: WindowZOrder, rect: Rect, flags: PosFlags },
    MarkSessionCloaked(u128),
}

/// What has to be done for one of the windows.
pub open spec fn cloak_steps_of(pending: PendingCloak) -> Seq<CloakStep> {
    seq![CloakStep::Cloak(pending.window)] + (match preposition_flags(pending.session) {
        Some(flags) => seq![
            CloakStep::Position {
                window: pending.window,
                z_order: pending.z_order,
                rect: pending.target_rect,
                flags,
            },
        ],
        None => Seq::empty(),
    }) + (match pending.session {
        Some(_) => seq![CloakStep::MarkSessionCloaked(pending.window)],
        None => Seq::empty(),
    })
}

/// What has to be done for all of `pending`, one after the other.
pub open spec fn cloak_steps_each(pending: Seq<PendingCloak>) -> Seq<CloakStep>
    decreases pending.len(),
{
    if pending.len() == 0 {
        Seq::empty()
    } else {
        cloak_steps_each(pending.drop_last()) + cloak_steps_of(pending.last())
    }
}

/// All that has to be done for `pending`: nothing if it is empty.
pub open spec fn cloak_steps(pending: Seq<PendingCloak>) -> Seq<CloakStep> {
    if pending.len() == 0 {
        Seq::empty()
    } else {
        seq![CloakStep::CommitBlurOverlays, CloakStep::CommitBorderOverlays, CloakStep::Flush]
            + cloak_steps_each(pending)
    }
}

/// Decides how the queued windows are cloaked. All of them wait for one and the
/// same frame.
pub fn commit_pending_cloaks(pending: &Vec<PendingCloak>) -> (steps: Vec<CloakStep>)
    ensures
        steps@ == cloak_steps(pending@),
{
    let mut steps: Vec<CloakStep> = Vec::new();
    if pending.len() == 0 {
        return steps;
    }
    steps.push(CloakStep::CommitBlurOverlays);
    steps.push(CloakStep::CommitBorderOverlays);
    steps.push(CloakStep::Flush);
    let ghost head = seq![
        CloakStep::CommitBlurOverlays,
        CloakStep::CommitBorderOverlays,
        CloakStep::Flush,
    ];
    let mut i: usize = 0;
    proof {
        assert(steps@ =~= head + cloak_steps_each(pending@.subrange(0, 0)));
    }
    while i < pending.len()
        invariant
            i <= pending@.len(),
            steps@ == head + cloak_steps_each(pending@.subrange(0, i as int)),
        decreases pending@.len() - i,
    {
        let p = pending[i];
        let ghost before = steps@;
        steps.push(CloakStep::Cloak(p.window));
        let flags: Option<PosFlags> = match p.session {
            None => Some(
                PosFlags {
                    no_z_order: true,
                    frame_changed: true,
                    no_copy_bits: false,
                    async_pos: true,
                },
            ),
            Some(needs) => {
                if needs.needs_preposition {
                    Some(
                        PosFlags {
                            no_z_order: true,
                            frame_changed: !needs.is_move_only,
                            no_copy_bits: false,
                            async_pos: true,
                        },
                    )
                } else {
                    None
                }
            },
        };
        if let Some(flags) = flags {
            steps.push(
                CloakStep::Position {
                    window: p.window,
                    z_order: p.z_order,
                    rect: p.target_rect,
                    flags,
                },
            );
        }
        if p.session.is_some() {
            steps.push(CloakStep::MarkSessionCloaked(p.window));
        }
        proof {
            assert(steps@ =~= before + cloak_steps_of(p));
            let next = pending@.subrange(0, i + 1);
            assert(next.drop_last() =~= pending@.subrange(0, i as int));
            assert(steps@ =~= head + cloak_steps_each(next));
        }
        i = i + 1;
    }
    proof {
        assert(pending@.subrange(0, i as int) =~= pending@);
    }
    steps
}

proof fn lemma_each_cloak_follows(pending: Seq<PendingCloak>, k: int)
    requires
        0 <= k < pending.len(),
    ensures
        cloak_steps_each(pending).contains(CloakStep::Cloak(pending[k].window)),
    decreases pending.len(),
{
    let d = cloak_steps_each(pending.drop_last());
    let l = cloak_steps_of(pending.last());
    let c = CloakStep::Cloak(pending[k].window);
    if k == pending.len() - 1 {
        assert(l[0] == c);
        assert((d + l)[d.len() as int] == c);
    } else {
        lemma_each_cloak_follows(pending.drop_last(), k);
        let j = choose|j: int| 0 <= j < d.len() && d[j] == c;
        assert((d + l)[j] == c);
    }
}

proof fn lemma_no_flush_among_cloaks(pending: Seq<PendingCloak>)
    ensures
        !cloak_steps_each(pending).contains(CloakStep::Flush),
    decreases pending.len(),
{
    if pending.len() > 0 {
        lemma_no_flush_among_cloaks(pending.drop_last());
        let d = cloak_steps_each(pending.drop_last());
        let l = cloak_steps_of(pending.last());
        if (d + l).contains(CloakStep::Flush) {
            let j = choose|j: int| 0 <= j < (d + l).len() && (d + l)[j] == CloakStep::Flush;
            if j < d.len() {
                assert(d[j] == CloakStep::Flush);
            } else {
                assert(l[j - d.len()] == CloakStep::Flush);
            }
        }
    }
}

/// However many windows are queued, there is one wait, and every window is
/// cloaked after it.
pub proof fn one_flush_precedes_every_cloak(pending: Seq<PendingCloak>, i: int, k: int)
    requires
        0 <= k < pending.len(),
        0 <= i < cloak_steps(pending).len(),
    ensures
        cloak_steps(pending)[i] == CloakStep::Flush <==> i == 2,
        cloak_steps(pending).subrange(3, cloak_steps(pending).len() as int).contains(
            CloakStep::Cloak(pending[k].window),
        ),
{
    let each = cloak_steps_each(pending);
    lemma_no_flush_among_cloaks(pending);
    lemma_each_cloak_follows(pending, k);
    assert(cloak_steps(pending).subrange(3, cloak_steps(pending).len() as int) =~= each);
    if i >= 3 {
        assert(cloak_steps(pending)[i] == each[i - 3]);
        assert(each.contains(each[i - 3]));
    }
}

/// A window that goes into a corner shows no more than a sliver of itself in
/// its monitor's working area.
pub proof fn corner_shows_only_a_sliver(input: RepositionInput, area: Rect, x: int, y: int)
    requires
        input.in_range(),
        input.working_area == Some(area),
        input.goes_to_corner(),
        area.covers(x, y),
        Rect::spec_from_xy(
            input.corner_x(area),
            input.corner_y(area),
            input.frame.spec_width(),
            input.frame.spec_height(),
        ).covers(x, y),
    ensures
        y == area.bottom - VISIBLE_SLIVER,
        match input.hide_corner {
            HideCorner::BottomLeft => x == area.left,
            HideCorner::BottomRight => x == area.right - VISIBLE_SLIVER,
        },
{
}

/// A window that is neither dragged nor put into a corner ends up seen exactly
/// if it is to be visible, and nothing before the last step shows or hides it.
/// The cloak is taken care of exactly where windows are hidden by it.
pub proof fn windows_are_seen_exactly_if_visible(input: RepositionInput, i: int)
    requires
        !input.is_dragged,
        input.is_visible || input.hide_method != HideMethod::PlaceInCorner,
    ensures
        input.steps().len() > 0,
        input.hide_method == HideMethod::Cloak && input.is_visible ==> input.steps().last()
            == RepositionStep::SetCloaked(false),
        input.hide_method == HideMethod::Cloak && !input.is_visible ==> input.steps().last()
            == RepositionStep::SetCloaked(true),
        input.hide_method != HideMethod::Cloak && input.is_visible ==> input.steps().last()
            == RepositionStep::Show,
        input.hide_method != HideMethod::Cloak && !input.is_visible ==> input.steps().last()
            == RepositionStep::Hide,
        0 <= i < input.steps().len() - 1 ==> {
            &&& input.steps()[i] !is SetCloaked
            &&& input.steps()[i] !is Show
            &&& input.steps()[i] !is Hide
        },
        input.cloak_state() == CloakState::Applied <==> input.hide_method == HideMethod::Cloak,
{
}

/// A window that is neither minimized, dragged nor put into a corner is moved
/// to where it is to go, at its place among the others. It is waited for, and
/// what it had drawn is dropped, exactly if an overlay stands in for it; and it
/// gets a new frame unless the system maximizes it.
pub proof fn windows_go_where_they_are_sent(input: RepositionInput, i: int)
    requires
        !input.is_dragged,
        input.is_visible || input.hide_method != HideMethod::PlaceInCorner,
        input.state !is Minimized,
    ensures
        exists|k: int| 0 <= k < input.steps().len() && input.steps()[k] is SetWindowPos,
        0 <= i < input.steps().len() ==> {
            &&& input.steps()[i] matches RepositionStep::SetWindowPos { z_order, rect, flags } ==> {
                &&& z_order == input.z_order
                &&& rect == input.rect
                &&& !flags.no_z_order
                &&& flags.async_pos == !input.has_surrogate
                &&& flags.no_copy_bits == input.has_surrogate
                &&& flags.frame_changed == !(input.state matches WindowState::Fullscreen(s)
                    && s.maximized && input.has_maximize_box)
            }
            &&& input.steps()[i] !is Minimize
            &&& input.steps()[i] !is SetFrame
            &&& input.steps()[i] !is Resize
        },
{
    let head = input.restore_steps() + input.move_steps();
    let m = input.move_steps();
    let r = input.restore_steps();
    assert(input.steps() == head.push(input.visibility_step()));
    if m[0] is SetWindowPos {
        assert(input.steps()[r.len() as int] is SetWindowPos);
    } else {
        assert(input.steps()[r.len() as int + 1] is SetWindowPos);
    }
}

/// A window that is yet to be adjusted to the scale of its monitor is moved
/// twice, and the adjustment is then done with; any other is moved once.
pub proof fn scaled_windows_are_moved_twice(input: RepositionInput)
    requires
        !input.is_dragged,
        input.is_visible || input.hide_method != HideMethod::PlaceInCorner,
        input.state is Tiling || input.state is Floating,
        !input.is_minimized,
        !input.is_maximized,
    ensures
        !input.has_pending_dpi_adjustment ==> {
            &&& input.steps().len() == 3
            &&& input.steps()[0] is SetWindowPos
            &&& input.steps()[1] == RepositionStep::ReassertTransparency
        },
        input.has_pending_dpi_adjustment ==> {
            &&& input.steps().len() == 6
            &&& input.steps()[0] is SetWindowPos
            &&& input.steps()[2] == input.steps()[0]
            &&& input.steps()[1] == RepositionStep::ReassertTransparency
            &&& input.steps()[3] == RepositionStep::ReassertTransparency
            &&& input.steps()[4] == RepositionStep::ClearDpiAdjustment
        },
{
}

/// A window that is to be minimized is, once, and is not moved.
pub proof fn minimized_windows_stay_put(input: RepositionInput)
    requires
        !input.is_dragged,
        input.is_visible || input.hide_method != HideMethod::PlaceInCorner,
        input.state is Minimized,
    ensures
        input.steps().len() == (if input.is_minimized {
            1int
        } else {
            2int
        }),
        !input.is_minimized ==> input.steps()[0] == RepositionStep::Minimize,
{
}

/// A window is brought back first exactly if it is minimized or maximized and
/// is not to be; one that is to fill its monitor only if it is maximized and is
/// not to be.
pub proof fn windows_are_brought_back_first(input: RepositionInput, i: int)
    requires
        !input.is_dragged,
        input.is_visible || input.hide_method != HideMethod::PlaceInCorner,
    ensures
        input.steps()[0] == RepositionStep::Restore(input.rect) <==> match input.state {
            WindowState::Tiling => input.is_minimized || input.is_maximized,
            WindowState::Floating(_) => input.is_minimized || input.is_maximized,
            WindowState::Fullscreen(s) => input.is_maximized && !s.maximized,
            WindowState::Minimized => false,
        },
        0 < i < input.steps().len() ==> input.steps()[i] !is Restore,
{
}

/// The system maximizes a window exactly if that is asked for, the window can
/// be, and it is not yet.
pub proof fn windows_are_maximized_on_demand(input: RepositionInput)
    requires
        !input.is_dragged,
        input.is_visible || input.hide_method != HideMethod::PlaceInCorner,
    ensures
        input.steps().contains(RepositionStep::Maximize) <==> (input.state matches
            WindowState::Fullscreen(s) && s.maximized && input.has_maximize_box
            && !input.is_maximized),
{
    let m = input.move_steps();
    let r = input.restore_steps();
    let steps = input.steps();
    assert(steps == (r + m).push(input.visibility_step()));
    if m.len() > 0 && m[0] == RepositionStep::Maximize {
        assert(steps[r.len() as int] == RepositionStep::Maximize);
    }
}

/// A window that is put into a corner keeps its size, and is moved there until
/// one pixel of it is left on its monitor: at the bottom, and to the side.
pub proof fn corners_leave_a_pixel(input: RepositionInput, area: Rect)
    requires
        input.in_range(),
        input.working_area == Some(area),
        input.hide_method == HideMethod::PlaceInCorner,
        !input.is_visible,
    ensures
        input.steps().len() == 1,
        input.steps()[0] matches RepositionStep::SetFrame(r) && {
            &&& r.right - r.left == input.frame.right - input.frame.left
            &&& r.bottom - r.top == input.frame.bottom - input.frame.top
            &&& r.top == area.bottom - 1
            &&& input.hide_corner == HideCorner::BottomLeft ==> r.right == area.left + 1
            &&& input.hide_corner == HideCorner::BottomRight ==> r.left == area.right - 1
        },
        input.cloak_state() == CloakState::Untouched,
{
}

/// A window that the user drags keeps its place and only takes its size.
pub proof fn dragged_windows_are_only_resized(input: RepositionInput)
    requires
        input.in_range(),
        input.is_dragged,
        input.is_visible || input.hide_method != HideMethod::PlaceInCorner,
    ensures
        input.steps().len() == 1,
        input.steps()[0] matches RepositionStep::Resize { width, height } && width
            == input.rect.right - input.rect.left && height == input.rect.bottom - input.rect.top,
        input.cloak_state() == CloakState::Untouched,
{
}

/// The native bits: each flag has its own, and two are always set.
pub proof fn flags_have_their_bits(flags: PosFlags)
    ensures
        flags.spec_bits() == 0x0410 + (if flags.no_z_order {
            0x0004int
        } else {
            0
        }) + (if flags.frame_changed {
            0x0020int
        } else {
            0
        }) + (if flags.no_copy_bits {
            0x0100int
        } else {
            0
        }) + (if flags.async_pos {
            0x4000int
        } else {
            0
        }),
{
}

/// A window is cloaked before it is moved. One that no session holds is moved
/// to its target; one whose session keeps it is not moved; and what a session
/// holds is noted as cloaked.
pub proof fn cloaked_windows_are_put_in_place(p: PendingCloak)
    ensures
        cloak_steps(seq![p])[3] == CloakStep::Cloak(p.window),
        p.session is None ==> {
            &&& cloak_steps(seq![p]).len() == 5
            &&& cloak_steps(seq![p])[4] matches CloakStep::Position { window, z_order, rect, flags }
                && window == p.window && z_order == p.z_order && rect == p.target_rect
                && flags.no_z_order && flags.frame_changed && !flags.no_copy_bits
                && flags.async_pos
        },
        p.session matches Some(s) && s.needs_preposition ==> {
            &&& cloak_steps(seq![p]).len() == 6
            &&& cloak_steps(seq![p])[4] matches CloakStep::Position { window, z_order, rect, flags }
                && window == p.window && z_order == p.z_order && rect == p.target_rect
                && flags.no_z_order && flags.frame_changed == !p.session->0.is_move_only
                && !flags.no_copy_bits && flags.async_pos
            &&& cloak_steps(seq![p])[5] == CloakStep::MarkSessionCloaked(p.window)
        },
        p.session matches Some(s) && !s.needs_preposition ==> {
            &&& cloak_steps(seq![p]).len() == 5
            &&& cloak_steps(seq![p])[4] == CloakStep::MarkSessionCloaked(p.window)
        },
{
    let one = seq![p];
    reveal_with_fuel(cloak_steps_each, 2);
    assert(one.drop_last() =~= Seq::<PendingCloak>::empty());
    assert(one.last() == p);
    assert(cloak_steps_each(one) =~= cloak_steps_of(p));
}

/// What is done for many windows is what is done for each of them, one after
/// the other.
pub proof fn windows_are_cloaked_in_turn(pending: Seq<PendingCloak>, p: PendingCloak)
    requires
        pending.len() > 0,
    ensures
        cloak_steps(pending.push(p)) == cloak_steps(pending) + cloak_steps(seq![p]).subrange(
            3,
            cloak_steps(seq![p]).len() as int,
        ),
        cloak_steps(Seq::empty()) == Seq::<CloakStep>::empty(),
{
    let one = seq![p];
    reveal_with_fuel(cloak_steps_each, 2);
    assert(one.drop_last() =~= Seq::<PendingCloak>::empty());
    assert(cloak_steps_each(one) =~= cloak_steps_of(p));
    assert(cloak_steps(one).subrange(3, cloak_steps(one).len() as int) =~= cloak_steps_of(p));
    assert(pending.push(p).drop_last() =~= pending);
    assert(cloak_steps(pending.push(p)) =~= cloak_steps(pending) + cloak_steps_of(p));
}

} // verus!
