//! When a window is searched for its pictures, and which of them count.

use vstd::prelude::*;

use crate::geometry::{max_i32, max_int, min_i32, min_int, Rect};
use crate::sorting::{is_stable_order, stable_order};

verus! {

/// The shortest time between two searches of one window, in milliseconds.
pub const QUERY_INTERVAL: u64 = 200;

/// One window that is searched for its pictures.
#[derive(Clone, Copy, Debug, PartialEq, Eq, Structural)]
pub struct ImageFinder {
    /// Whether the window changed since it was searched last.
    pub dirty: bool,
    pub stopped: bool,
    /// When it was searched last, in milliseconds.
    pub last_query: Option<u64>,
}

/// What the search does next.
#[derive(Clone, Copy, Debug, PartialEq, Eq, Structural)]
pub enum FinderStep {
    /// It ends.
    Stop,
    /// It searches the window now.
    Query,
    /// It waits until this time, or until it is woken.
    WaitUntil(u64),
    /// It waits until it is woken.
    Wait,
}

impl ImageFinder {
    /// A window that has not been searched yet.
    pub fn start() -> (finder: ImageFinder)
        ensures
            finder == (ImageFinder { dirty: true, stopped: false, last_query: None }),
    {
        ImageFinder { dirty: true, stopped: false, last_query: None }
    }

    /// Notes that the window changed.
    pub fn content_changed(&mut self)
        ensures
            *final(self) == (ImageFinder { dirty: true, ..*old(self) }),
    {
        self.dirty = true;
    }

    /// Ends the search.
    pub fn stop(&mut self)
        ensures
            *final(self) == (ImageFinder { stopped: true, ..*old(self) }),
    {
        self.stopped = true;
    }

    /// What is done at `now`.
    pub open spec fn step_at(self, now: u64) -> FinderStep {
        if self.stopped {
            FinderStep::Stop
        } else if !self.dirty {
            FinderStep::Wait
        } else {
            match self.last_query {
                Some(at) => if now < at + QUERY_INTERVAL {
                    FinderStep::WaitUntil((at + QUERY_INTERVAL) as u64)
                } else {
                    FinderStep::Query
                },
                None => FinderStep::Query,
            }
        }
    }

    /// Says what is done at `now`. A search that is due is noted as begun.
    pub fn next_step(&mut self, now: u64) -> (result: FinderStep)
        requires
            old(self).last_query matches Some(at) ==> at + QUERY_INTERVAL <= u64::MAX,
        ensures
            result == old(self).step_at(now),
            *final(self) == (if result == FinderStep::Query {
                ImageFinder { dirty: false, last_query: Some(now), ..*old(self) }
            } else {
                *old(self)
            }),
    {
        if self.stopped {
            return FinderStep::Stop;
        }
        if !self.dirty {
            return FinderStep::Wait;
        }
        if let Some(at) = self.last_query {
            let deadline: u64 = at + QUERY_INTERVAL;
            if now < deadline {
                return FinderStep::WaitUntil(deadline);
            }
        }
        self.dirty = false;
        self.last_query = Some(now);
        FinderStep::Query
    }
}

/// A picture as the accessibility tree gives it, in screen coordinates.
#[derive(Clone, Copy, Debug, PartialEq, Eq, Structural)]
pub struct FoundImage {
    pub offscreen: bool,
    pub bounds: Rect,
}

/// The part of a picture within the frame, seen from the frame's corner.
pub open spec fn in_frame(bounds: Rect, frame: Rect) -> Rect {
    Rect {
        left: (max_int(bounds.left as int, frame.left as int) - frame.left) as i32,
        top: (max_int(bounds.top as int, frame.top as int) - frame.top) as i32,
        right: (min_int(bounds.right as int, frame.right as int) - frame.left) as i32,
        bottom: (min_int(bounds.bottom as int, frame.bottom as int) - frame.top) as i32,
    }
}

/// Whether that part can be computed.
pub open spec fn can_frame(bounds: Rect, frame: Rect) -> bool {
    &&& max_int(bounds.left as int, frame.left as int) - frame.left <= i32::MAX
    &&& max_int(bounds.top as int, frame.top as int) - frame.top <= i32::MAX
    &&& i32::MIN <= min_int(bounds.right as int, frame.right as int) - frame.left <= i32::MAX
    &&& i32::MIN <= min_int(bounds.bottom as int, frame.bottom as int) - frame.top <= i32::MAX
    &&& in_frame(bounds, frame).measurable()
}

/// Picks the pictures that show in the frame.
pub open spec fn shown_in(frame: Rect) -> spec_fn(FoundImage) -> bool {
    |i: FoundImage| !i.offscreen && !in_frame(i.bounds, frame).spec_is_empty()
}

/// The pictures that show in the frame, seen from its corner, in order.
pub open spec fn framed(found: Seq<FoundImage>, frame: Rect) -> Seq<Rect> {
    found.filter(shown_in(frame)).map_values(|i: FoundImage| in_frame(i.bounds, frame))
}

/// How much of the screen a picture takes.
pub open spec fn area(r: Rect) -> int {
    r.spec_width() * r.spec_height()
}

/// Whether `out` holds the `max` largest of `all`, the largest first, those of
/// the same size in the order that they have in `all`.
pub open spec fn is_largest_first(all: Seq<Rect>, max: nat, out: Seq<Rect>) -> bool {
    exists|order: Seq<usize>| #[trigger]
        is_stable_order(size_keys(all), order) && out == (if all.len() <= max {
            picked(all, order)
        } else {
            picked(all, order).subrange(0, max as int)
        })
}

/// Keys by which the largest comes first.
pub open spec fn size_keys(all: Seq<Rect>) -> Seq<u64> {
    all.map_values(|r: Rect| (u64::MAX - area(r)) as u64)
}

/// `all` in the given order.
pub open spec fn picked(all: Seq<Rect>, order: Seq<usize>) -> Seq<Rect> {
    order.map_values(|i: usize| all[i as int])
}

fn frame_images(found: &Vec<FoundImage>, frame: &Rect) -> (result: Vec<Rect>)
    requires
        forall|k: int|
            0 <= k < found@.len() && !(#[trigger] found@[k]).offscreen ==> can_frame(
                found@[k].bounds,
                *frame,
            ),
    ensures
        result@ == framed(found@, *frame),
        forall|k: int|
            0 <= k < result@.len() ==> (#[trigger] result@[k]).measurable()
                && !result@[k].spec_is_empty(),
{
    let mut out: Vec<Rect> = Vec::new();
    let mut i: usize = 0;
    proof {
        reveal(Seq::filter);
        assert(found@.subrange(0, 0) =~= Seq::<FoundImage>::empty());
        assert(out@ =~= framed(found@.subrange(0, 0), *frame));
    }
    while i < found.len()
        invariant
            i <= found@.len(),
            out@ == framed(found@.subrange(0, i as int), *frame),
            forall|k: int|
                0 <= k < out@.len() ==> (#[trigger] out@[k]).measurable()
                    && !out@[k].spec_is_empty(),
            forall|k: int|
                0 <= k < found@.len() && !(#[trigger] found@[k]).offscreen ==> can_frame(
                    found@[k].bounds,
                    *frame,
                ),
        decreases found@.len() - i,
    {
        let image = found[i];
        let ghost before = out@;
        proof {
            reveal(Seq::filter);
            let next = found@.subrange(0, i + 1);
            assert(next.drop_last() =~= found@.subrange(0, i as int));
            assert(next.last() == image);
        }
        if !image.offscreen {
            proof {
                assert(can_frame(found@[i as int].bounds, *frame));
            }
            let rect = Rect::from_ltrb(
                max_i32(image.bounds.left, frame.left) - frame.left,
                max_i32(image.bounds.top, frame.top) - frame.top,
                min_i32(image.bounds.right, frame.right) - frame.left,
                min_i32(image.bounds.bottom, frame.bottom) - frame.top,
            );
            if rect.width() > 0 && rect.height() > 0 {
                out.push(rect);
            }
        }
        proof {
            assert(out@ =~= framed(found@.subrange(0, i + 1), *frame));
        }
        i = i + 1;
    }
    proof {
        assert(found@.subrange(0, i as int) =~= found@);
    }
    out
}

/// How many pictures of a window are told of.
pub const MAX_IMAGE_RECTS: usize = 16;

/// The pictures that show in the frame, seen from its corner: the largest
/// first, and at most `MAX_IMAGE_RECTS` of them.
pub fn images_of(found: &Vec<FoundImage>, frame: &Rect) -> (result: Vec<Rect>)
    requires
        forall|k: int|
            0 <= k < found@.len() && !(#[trigger] found@[k]).offscreen ==> can_frame(
                found@[k].bounds,
                *frame,
            ),
    ensures
        is_largest_first(framed(found@, *frame), MAX_IMAGE_RECTS as nat, result@),
{
    let all = frame_images(found, frame);
    let mut keys: Vec<u64> = Vec::new();
    let mut i: usize = 0;
    while i < all.len()
        invariant
            i <= all@.len(),
            keys@.len() == i,
            forall|k: int| 0 <= k < i ==> keys@[k] == size_keys(all@)[k],
            forall|k: int|
                0 <= k < all@.len() ==> (#[trigger] all@[k]).measurable()
                    && !all@[k].spec_is_empty(),
        decreases all@.len() - i,
    {
        proof {
            let r = all@[i as int];
            assert(0 <= area(r) <= 0x7fff_ffff * 0x7fff_ffff) by (nonlinear_arith)
                requires
                    0 < r.spec_width() <= 0x7fff_ffff,
                    0 < r.spec_height() <= 0x7fff_ffff,
                    area(r) == r.spec_width() * r.spec_height(),
            ;
        }
        let size: u64 = all[i].width() as u64 * all[i].height() as u64;
        keys.push(u64::MAX - size);
        i = i + 1;
    }
    proof {
        assert(keys@ =~= size_keys(all@));
    }
    let order = stable_order(&keys);
    let mut out: Vec<Rect> = Vec::new();
    let mut k: usize = 0;
    while k < order.len() && k < MAX_IMAGE_RECTS
        invariant
            k <= order@.len(),
            k <= MAX_IMAGE_RECTS,
            order@.len() == all@.len(),
            is_stable_order(size_keys(all@), order@),
            out@ == picked(all@, order@).subrange(0, k as int),
        decreases order@.len() - k,
    {
        out.push(all[order[k]]);
        k = k + 1;
        proof {
            assert(out@ =~= picked(all@, order@).subrange(0, k as int));
        }
    }
    proof {
        if all@.len() <= MAX_IMAGE_RECTS {
            assert(out@ =~= picked(all@, order@));
        }
        assert(is_stable_order(size_keys(all@), order@));
    }
    out
}

/// Two searches of a window are never closer than the interval.
pub proof fn searches_are_throttled(f: ImageFinder, before: u64, now: u64)
    requires
        f.last_query == Some(before),
        f.step_at(now) == FinderStep::Query,
    ensures
        now - before >= QUERY_INTERVAL,
{
}

/// A search that was stopped stays stopped, whatever changes.
pub proof fn stopped_searches_end(f: ImageFinder, now: u64)
    requires
        f.stopped,
    ensures
        f.step_at(now) == FinderStep::Stop,
        (ImageFinder { dirty: true, ..f }).step_at(now) == FinderStep::Stop,
{
}

/// A window that changed is searched, at the earliest a fifth of a second after
/// it was last. One that did not change waits.
pub proof fn changed_windows_are_searched(f: ImageFinder, at: u64, now: u64)
    requires
        !f.stopped,
        at + 200 <= u64::MAX,
    ensures
        !f.dirty ==> f.step_at(now) == FinderStep::Wait,
        f.dirty && f.last_query is None ==> f.step_at(now) == FinderStep::Query,
        f.dirty && f.last_query == Some(at) && now >= at + 200 ==> f.step_at(now)
            == FinderStep::Query,
        f.dirty && f.last_query == Some(at) && now < at + 200 ==> f.step_at(now)
            == FinderStep::WaitUntil((at + 200) as u64),
        MAX_IMAGE_RECTS == 16,
{
}

/// The part of a picture that shows in a frame is what the two share, seen from
/// the corner of the frame.
pub proof fn pictures_are_seen_from_the_corner(bounds: Rect, frame: Rect, x: int, y: int)
    requires
        can_frame(bounds, frame),
    ensures
        in_frame(bounds, frame).covers(x - frame.left, y - frame.top) <==> bounds.covers(x, y)
            && frame.covers(x, y),
{
}

/// A picture is told of exactly if it is on the screen and shares something with
/// the frame.
pub proof fn only_shown_pictures_are_told_of(found: Seq<FoundImage>, frame: Rect, i: FoundImage)
    ensures
        framed(Seq::empty(), frame) == Seq::<Rect>::empty(),
        i.offscreen || in_frame(i.bounds, frame).spec_is_empty() ==> framed(found.push(i), frame)
            == framed(found, frame),
        !i.offscreen && !in_frame(i.bounds, frame).spec_is_empty() ==> framed(found.push(i), frame)
            == framed(found, frame).push(in_frame(i.bounds, frame)),
{
    reveal(Seq::filter);
    assert(found.push(i).drop_last() =~= found);
    assert(framed(found.push(i), frame) =~= (if shown_in(frame)(i) {
        framed(found, frame).push(in_frame(i.bounds, frame))
    } else {
        framed(found, frame)
    }));
}

/// The pictures that are told of come with the largest first, and no more of
/// them than are wanted.
pub proof fn largest_pictures_come_first(all: Seq<Rect>, max: nat, out: Seq<Rect>, a: int, b: int)
    requires
        is_largest_first(all, max, out),
        forall|k: int| 0 <= k < all.len() ==> 0 <= area(#[trigger] all[k]) <= u64::MAX,
    ensures
        out.len() == (if all.len() <= max {
            all.len()
        } else {
            max
        }),
        0 <= a < b < out.len() ==> area(out[a]) >= area(out[b]),
        0 <= a < out.len() ==> all.contains(out[a]),
{
    let order = choose|order: Seq<usize>| #[trigger]
        is_stable_order(size_keys(all), order) && out == (if all.len() <= max {
            picked(all, order)
        } else {
            picked(all, order).subrange(0, max as int)
        });
    let keys = size_keys(all);
    if 0 <= a < out.len() {
        assert(order[a] < keys.len());
        assert(out[a] == all[order[a] as int]);
    }
    if 0 <= a < b < out.len() {
        assert(order[b] < keys.len());
        assert(out[b] == all[order[b] as int]);
        assert(keys[order[a] as int] <= keys[order[b] as int]);
        assert(keys[order[a] as int] == (u64::MAX - area(all[order[a] as int])) as u64);
        assert(keys[order[b] as int] == (u64::MAX - area(all[order[b] as int])) as u64);
    }
}

/// A picture takes up its width times its height.
pub proof fn areas_are_width_times_height(r: Rect)
    ensures
        area(r) == (r.right - r.left) * (r.bottom - r.top),
{
}

} // verus!
