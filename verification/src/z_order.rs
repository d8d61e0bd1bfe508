//! Where an overlay goes in the order of the windows on the screen.

use vstd::prelude::*;

use crate::geometry::Rect;

verus! {

/// How many windows a search looks at before it gives up.
pub const MAX_INSERT_AFTER_WALK: usize = 512;

/// A window in the order of the windows, from the highest to the lowest.
#[derive(Clone, Copy, Debug, PartialEq, Eq, Structural)]
pub struct StackedWindow {
    pub handle: isize,
    /// Whether it is in the band of the windows that stay above all others.
    pub topmost: bool,
    pub is_visible: bool,
    pub is_cloaked: bool,
    /// Whether it is an overlay of the window manager.
    pub is_overlay: bool,
    /// Its visible bounds, if they are known.
    pub bounds: Option<Rect>,
}

/// What a window is inserted below.
#[derive(Clone, Copy, Debug, PartialEq, Eq, Structural)]
pub enum InsertAfter {
    /// The top of the band that the window is in.
    Top,
    /// The top of the band above all others.
    Topmost,
    /// The top of the normal band.
    NotTopmost,
    Window(isize),
}

/// The place of the window `handle`, if it has one.
pub open spec fn place_of(z: Seq<StackedWindow>, handle: isize) -> Option<int>
    decreases z.len(),
{
    if z.len() == 0 {
        None
    } else {
        match place_of(z.drop_last(), handle) {
            Some(i) => Some(i),
            None => if z.last().handle == handle {
                Some(z.len() - 1)
            } else {
                None
            },
        }
    }
}

proof fn lemma_place(z: Seq<StackedWindow>, handle: isize, i: int)
    requires
        0 <= i < z.len(),
        z[i].handle == handle,
        forall|k: int| 0 <= k < i ==> (#[trigger] z[k]).handle != handle,
    ensures
        place_of(z, handle) == Some(i),
    decreases z.len(),
{
    if i < z.len() - 1 {
        lemma_place(z.drop_last(), handle, i);
    } else {
        lemma_no_place(z.drop_last(), handle);
    }
}

proof fn lemma_no_place(z: Seq<StackedWindow>, handle: isize)
    requires
        forall|k: int| 0 <= k < z.len() ==> (#[trigger] z[k]).handle != handle,
    ensures
        place_of(z, handle) is None,
    decreases z.len(),
{
    if z.len() > 0 {
        assert(z[z.len() - 1].handle != handle);
        assert forall|k: int| 0 <= k < z.len() - 1 implies (#[trigger] z.drop_last()[k]).handle
            != handle by {
            assert(z[k].handle != handle);
        }
        lemma_no_place(z.drop_last(), handle);
    }
}

fn find(z: &Vec<StackedWindow>, handle: isize) -> (result: Option<usize>)
    ensures
        match result {
            Some(i) => {
                &&& place_of(z@, handle) == Some(i as int)
                &&& i < z@.len()
                &&& z@[i as int].handle == handle
            },
            None => place_of(z@, handle) is None,
        },
{
    let mut i: usize = 0;
    while i < z.len()
        invariant
            i <= z@.len(),
            forall|k: int| 0 <= k < i ==> (#[trigger] z@[k]).handle != handle,
        decreases z@.len() - i,
    {
        if z[i].handle == handle {
            proof {
                lemma_place(z@, handle, i as int);
            }
            return Some(i);
        }
        i = i + 1;
    }
    proof {
        lemma_no_place(z@, handle);
    }
    None
}

/// Whether a window of the normal band can be inserted below the one at `j`:
/// that one and the one below it are both of the normal band.
pub open spec fn takes_insertion(z: Seq<StackedWindow>, j: int) -> bool {
    !z[j].topmost && (j + 1 < z.len() ==> !z[j + 1].topmost)
}

/// Whether `j` is the first place from `i` on that takes an insertion.
pub open spec fn is_first_insertion(z: Seq<StackedWindow>, i: int, j: int) -> bool {
    &&& i <= j < z.len()
    &&& takes_insertion(z, j)
    &&& forall|k: int| i <= k < j ==> !#[trigger] takes_insertion(z, k)
}

/// What a window of the normal band is inserted below to come right behind
/// `anchor`, or as close behind it as can be: not below a window above which a
/// window of the upper band stands. Where nothing near takes an insertion, or
/// `anchor` is of the upper band, it is `anchor` itself.
pub fn insert_after_point(z: &Vec<StackedWindow>, anchor: isize) -> (result: isize)
    ensures
        match place_of(z@, anchor) {
            None => result == anchor,
            Some(i) => if z@[i].topmost {
                result == anchor
            } else {
                ||| exists|j: int| #[trigger]
                    is_first_insertion(z@, i, j) && j - i < MAX_INSERT_AFTER_WALK && result
                        == z@[j].handle
                ||| {
                    &&& forall|j: int|
                        i <= j < z@.len() && j - i < MAX_INSERT_AFTER_WALK
                            ==> !#[trigger] takes_insertion(z@, j)
                    &&& result == anchor
                }
            },
        },
{
    let i: usize = match find(z, anchor) {
        Some(i) => i,
        None => {
            return anchor;
        },
    };
    if z[i].topmost {
        return anchor;
    }
    let len: usize = z.len();
    let mut j: usize = i;
    let mut steps: usize = 0;
    while j < len && steps < MAX_INSERT_AFTER_WALK
        invariant
            i <= j <= len,
            i < len,
            len == z@.len(),
            steps == j - i,
            steps <= MAX_INSERT_AFTER_WALK,
            place_of(z@, anchor) == Some(i as int),
            !z@[i as int].topmost,
            forall|k: int| i <= k < j ==> !#[trigger] takes_insertion(z@, k),
        decreases len - j,
    {
        let next_is_topmost: bool = j + 1 < len && z[j + 1].topmost;
        if !z[j].topmost && !next_is_topmost {
            proof {
                assert(is_first_insertion(z@, i as int, j as int));
            }
            return z[j].handle;
        }
        j = j + 1;
        steps = steps + 1;
    }
    anchor
}

/// What `overlay` is inserted below to come right above `anchor`. Below a
/// window of the upper band it would be drawn into that band, so for the
/// highest window of the normal band it is the top.
pub open spec fn above_point(z: Seq<StackedWindow>, anchor: isize, overlay: isize) -> InsertAfter {
    match place_of(z, anchor) {
        None => InsertAfter::Top,
        Some(i) => {
            let above = if i > 0 && z[i - 1].handle == overlay {
                match place_of(z, overlay) {
                    Some(o) => o - 1,
                    None => -1,
                }
            } else {
                i - 1
            };
            if above < 0 || (z[above].topmost && !z[i].topmost) {
                InsertAfter::Top
            } else {
                InsertAfter::Window(z[above].handle)
            }
        },
    }
}

/// What `overlay` is inserted below to come right above `anchor`.
pub fn insert_above_point(z: &Vec<StackedWindow>, anchor: isize, overlay: isize) -> (result:
    InsertAfter)
    ensures
        result == above_point(z@, anchor, overlay),
{
    let i: usize = match find(z, anchor) {
        Some(i) => i,
        None => {
            return InsertAfter::Top;
        },
    };
    let mut below: usize = i;
    if i > 0 && z[i - 1].handle == overlay {
        match find(z, overlay) {
            Some(o) => {
                below = o;
            },
            None => {
                below = 0;
            },
        }
    }
    if below == 0 {
        return InsertAfter::Top;
    }
    if z[below - 1].topmost && !z[i].topmost {
        InsertAfter::Top
    } else {
        InsertAfter::Window(z[below - 1].handle)
    }
}

/// Whether two areas overlap.
pub open spec fn overlaps(a: Rect, b: Rect) -> bool {
    b.left < a.right && a.left < b.right && b.top < a.bottom && a.top < b.bottom
}

/// Whether a window shows over part of `area`; where the area or its bounds
/// are not known, whether it shows at all.
pub open spec fn shows_over(w: StackedWindow, area: Option<Rect>) -> bool {
    &&& w.is_visible && !w.is_cloaked && !w.is_overlay
    &&& area is Some && w.bounds is Some ==> overlaps(area->0, w.bounds->0)
}

/// Whether a window shows over part of `area`. Hidden and cloaked windows, and
/// the overlays of the window manager, never do.
pub fn is_shown_over(w: &StackedWindow, area: Option<Rect>) -> (result: bool)
    ensures
        result == shows_over(*w, area),
{
    if !w.is_visible || w.is_cloaked || w.is_overlay {
        return false;
    }
    match (area, w.bounds) {
        (Some(area), Some(bounds)) => bounds.left < area.right && area.left < bounds.right
            && bounds.top < area.bottom && area.top < bounds.bottom,
        _ => true,
    }
}

/// Whether the search upwards from `anchor` ends at `w`.
pub open spec fn ends_search(w: StackedWindow, overlay: isize, area: Option<Rect>) -> bool {
    w.handle != overlay && (w.topmost || shows_over(w, area))
}

/// The last window that ends the search upwards, among `above`.
pub open spec fn search_end(
    above: Seq<StackedWindow>,
    overlay: isize,
    area: Option<Rect>,
) -> Option<int>
    decreases above.len(),
{
    if above.len() == 0 {
        None
    } else if ends_search(above.last(), overlay, area) {
        Some(above.len() - 1)
    } else {
        search_end(above.drop_last(), overlay, area)
    }
}

/// Where an overlay goes: into which band, and below what.
#[derive(Clone, Copy, Debug, PartialEq, Eq, Structural)]
pub struct Placement {
    pub topmost: bool,
    pub after: InsertAfter,
}

/// Where `overlay` goes to cover `anchor`. As long as nothing of the normal
/// band shows over `anchor`, that is the bottom of the upper band, where
/// `anchor` cannot be lifted above it; else right above `anchor`.
pub open spec fn placement_above(
    z: Seq<StackedWindow>,
    anchor: isize,
    overlay: isize,
) -> Placement {
    match place_of(z, anchor) {
        None => Placement { topmost: true, after: InsertAfter::Topmost },
        Some(i) => {
            let point = above_point(z, anchor, overlay);
            if z[i].topmost {
                Placement { topmost: true, after: point }
            } else {
                match search_end(z.subrange(0, i), overlay, z[i].bounds) {
                    Some(j) => if i - j <= MAX_INSERT_AFTER_WALK && z[j].topmost {
                        Placement { topmost: true, after: InsertAfter::Window(z[j].handle) }
                    } else {
                        Placement { topmost: false, after: point }
                    },
                    None => if i < MAX_INSERT_AFTER_WALK {
                        Placement { topmost: true, after: InsertAfter::Topmost }
                    } else {
                        Placement { topmost: false, after: point }
                    },
                }
            }
        },
    }
}

/// Where `overlay` goes to cover `anchor`.
pub fn above_placement(z: &Vec<StackedWindow>, anchor: isize, overlay: isize) -> (result: Placement)
    ensures
        result == placement_above(z@, anchor, overlay),
{
    let i: usize = match find(z, anchor) {
        Some(i) => i,
        None => {
            return Placement { topmost: true, after: InsertAfter::Topmost };
        },
    };
    let point = insert_above_point(z, anchor, overlay);
    if z[i].topmost {
        return Placement { topmost: true, after: point };
    }
    let area = z[i].bounds;
    let mut j: usize = i;
    let mut steps: usize = 0;
    while steps < MAX_INSERT_AFTER_WALK
        invariant
            j <= i < z@.len(),
            steps == i - j,
            steps <= MAX_INSERT_AFTER_WALK,
            point == above_point(z@, anchor, overlay),
            area == z@[i as int].bounds,
            place_of(z@, anchor) == Some(i as int),
            !z@[i as int].topmost,
            search_end(z@.subrange(0, j as int), overlay, area) == search_end(
                z@.subrange(0, i as int),
                overlay,
                area,
            ),
        decreases MAX_INSERT_AFTER_WALK - steps,
    {
        if j == 0 {
            return Placement { topmost: true, after: InsertAfter::Topmost };
        }
        proof {
            let above = z@.subrange(0, j as int);
            assert(above.last() == z@[j - 1]);
            assert(above.drop_last() =~= z@.subrange(0, j - 1));
        }
        j = j - 1;
        steps = steps + 1;
        if z[j].handle != overlay {
            if z[j].topmost {
                return Placement { topmost: true, after: InsertAfter::Window(z[j].handle) };
            }
            if is_shown_over(&z[j], area) {
                return Placement { topmost: false, after: point };
            }
        }
    }
    proof {
        lemma_search_end(z@.subrange(0, j as int), overlay, area);
    }
    Placement { topmost: false, after: point }
}

proof fn lemma_search_end(above: Seq<StackedWindow>, overlay: isize, area: Option<Rect>)
    ensures
        match search_end(above, overlay, area) {
            Some(j) => {
                &&& 0 <= j < above.len()
                &&& ends_search(above[j], overlay, area)
                &&& forall|k: int|
                    j < k < above.len() ==> !ends_search(#[trigger] above[k], overlay, area)
            },
            None => forall|k: int|
                0 <= k < above.len() ==> !ends_search(#[trigger] above[k], overlay, area),
        },
    decreases above.len(),
{
    if above.len() > 0 && !ends_search(above.last(), overlay, area) {
        let rest = above.drop_last();
        lemma_search_end(rest, overlay, area);
        assert forall|k: int|
            0 <= k < above.len() && (search_end(above, overlay, area) matches Some(j)
                ==> j < k) implies !ends_search(#[trigger] above[k], overlay, area) by {
            if k < above.len() - 1 {
                assert(rest[k] == above[k]);
            }
        }
    }
}

/// Whether the window at `j` ends the search downwards for `anchor`.
pub open spec fn ends_descent(w: StackedWindow, anchor: isize, area: Option<Rect>) -> bool {
    w.handle == anchor || shows_over(w, area)
}

/// Whether nothing that shows over `anchor` stands between it and `overlay`,
/// which is above it.
pub fn is_directly_above(z: &Vec<StackedWindow>, overlay: isize, anchor: isize) -> (result: bool)
    requires
        anchor != 0,
    ensures
        ({
            let area = match place_of(z@, anchor) {
                Some(i) => z@[i].bounds,
                None => None,
            };
            result <==> {
                &&& place_of(z@, overlay) is Some
                &&& exists|j: int|
                    place_of(z@, overlay)->0 < j < z@.len() && j - place_of(z@, overlay)->0
                        <= MAX_INSERT_AFTER_WALK && (#[trigger] z@[j]).handle == anchor
                        && forall|k: int|
                        place_of(z@, overlay)->0 < k < j ==> !ends_descent(
                            #[trigger] z@[k],
                            anchor,
                            area,
                        )
            }
        }),
{
    let area: Option<Rect> = match find(z, anchor) {
        Some(i) => z[i].bounds,
        None => None,
    };
    let o: usize = match find(z, overlay) {
        Some(o) => o,
        None => {
            return false;
        },
    };
    let len: usize = z.len();
    let mut j: usize = o;
    let mut steps: usize = 0;
    while steps < MAX_INSERT_AFTER_WALK
        invariant
            o <= j < len,
            len == z@.len(),
            steps == j - o,
            steps <= MAX_INSERT_AFTER_WALK,
            place_of(z@, overlay) == Some(o as int),
            area == (match place_of(z@, anchor) {
                Some(i) => z@[i].bounds,
                None => None,
            }),
            forall|k: int| o < k <= j ==> !ends_descent(#[trigger] z@[k], anchor, area),
        decreases MAX_INSERT_AFTER_WALK - steps,
    {
        if j + 1 == len {
            return false;
        }
        j = j + 1;
        steps = steps + 1;
        if z[j].handle == anchor {
            return true;
        }
        if is_shown_over(&z[j], area) {
            return false;
        }
    }
    false
}

/// What moves a window into or out of the upper band: nothing if it is where
/// it belongs.
pub fn set_topmost(is_topmost: bool, topmost: bool) -> (result: Option<InsertAfter>)
    ensures
        result == (if is_topmost == topmost {
            None
        } else if topmost {
            Some(InsertAfter::Topmost)
        } else {
            Some(InsertAfter::NotTopmost)
        }),
{
    if is_topmost == topmost {
        None
    } else if topmost {
        Some(InsertAfter::Topmost)
    } else {
        Some(InsertAfter::NotTopmost)
    }
}

/// What moves an overlay into the band of the window that it belongs to.
pub fn match_z_band(overlay_is_topmost: bool, anchor_is_topmost: bool) -> (result: Option<
    InsertAfter,
>)
    ensures
        result == (if overlay_is_topmost == anchor_is_topmost {
            None
        } else if anchor_is_topmost {
            Some(InsertAfter::Topmost)
        } else {
            Some(InsertAfter::NotTopmost)
        }),
{
    set_topmost(overlay_is_topmost, anchor_is_topmost)
}

/// An overlay of a window of the normal band goes into the upper band only
/// where no other window of the normal band shows over that window: it never
/// covers unrelated windows.
pub proof fn overlays_never_cover_others(
    z: Seq<StackedWindow>,
    anchor: isize,
    overlay: isize,
    i: int,
    k: int,
)
    requires
        place_of(z, anchor) == Some(i),
        0 <= k < i < z.len(),
        !z[i].topmost,
        forall|a: int, b: int|
            0 <= a <= b < z.len() && (#[trigger] z[b]).topmost ==> (#[trigger] z[a]).topmost,
        z[k].handle != overlay,
        !z[k].topmost,
        shows_over(z[k], z[i].bounds),
    ensures
        !placement_above(z, anchor, overlay).topmost,
{
    let above = z.subrange(0, i);
    let area = z[i].bounds;
    lemma_search_end(above, overlay, area);
    assert(above[k] == z[k]);
    match search_end(above, overlay, area) {
        Some(j) => {
            assert(above[j] == z[j]);
            if z[j].topmost {
                assert(k <= j);
                assert(z[k].topmost);
            }
        },
        None => {
            assert(!ends_search(above[k], overlay, area));
        },
    }
}

/// Two areas that are not empty overlap exactly if they share a pixel.
pub proof fn overlapping_means_sharing(a: Rect, b: Rect)
    requires
        !a.spec_is_empty(),
        !b.spec_is_empty(),
    ensures
        overlaps(a, b) <==> exists|x: int, y: int| a.covers(x, y) && b.covers(x, y),
{
    if overlaps(a, b) {
        let c = a.spec_intersect(b);
        assert(a.covers(c.left as int, c.top as int) && b.covers(c.left as int, c.top as int));
    }
}

/// A window has the place at which it first stands, and none if it does not
/// stand anywhere.
pub proof fn windows_have_their_first_place(z: Seq<StackedWindow>, handle: isize, i: int)
    requires
        0 <= i <= z.len(),
        forall|k: int| 0 <= k < i ==> (#[trigger] z[k]).handle != handle,
    ensures
        i < z.len() && z[i].handle == handle ==> place_of(z, handle) == Some(i),
        i == z.len() ==> place_of(z, handle) is None,
{
    if i < z.len() && z[i].handle == handle {
        lemma_place(z, handle, i);
    } else if i == z.len() {
        lemma_no_place(z, handle);
    }
}

/// What is inserted in the normal band never comes between two windows of which
/// one is in the upper band, and it goes no further down than it has to.
pub proof fn insertions_stay_in_the_normal_band(z: Seq<StackedWindow>, i: int, j: int, k: int)
    requires
        is_first_insertion(z, i, j),
    ensures
        i <= j < z.len(),
        !z[j].topmost,
        j + 1 < z.len() ==> !z[j + 1].topmost,
        i <= k < j ==> z[k].topmost || (k + 1 < z.len() && z[k + 1].topmost),
        MAX_INSERT_AFTER_WALK == 512,
{
    if i <= k < j {
        assert(!takes_insertion(z, k));
    }
}

/// An overlay that comes right above a window is inserted below the window that
/// stands above that one, or above the overlay itself if it is there already.
/// At the top of a band it is inserted at the top.
pub proof fn overlays_come_right_above(
    z: Seq<StackedWindow>,
    anchor: isize,
    overlay: isize,
    i: int,
)
    requires
        0 <= i < z.len(),
        place_of(z, anchor) == Some(i),
        i > 0 && z[i - 1].handle == overlay ==> place_of(z, overlay) == Some(i - 1),
    ensures
        ({
            let above = if i > 0 && z[i - 1].handle == overlay {
                i - 2
            } else {
                i - 1
            };
            above_point(z, anchor, overlay) == (if above < 0 {
                InsertAfter::Top
            } else if z[above].topmost && !z[i].topmost {
                InsertAfter::Top
            } else {
                InsertAfter::Window(z[above].handle)
            })
        }),
{
}

/// Windows that cannot be seen, and overlays, show over nothing. Others show
/// over what they share a part of, and over everything as far as is known.
pub proof fn only_seen_windows_show_over_others(w: StackedWindow, area: Rect, bounds: Rect)
    ensures
        !w.is_visible || w.is_cloaked || w.is_overlay ==> !shows_over(w, Some(area))
            && !shows_over(w, None),
        w.is_visible && !w.is_cloaked && !w.is_overlay ==> shows_over(w, None) && (w.bounds is None
            ==> shows_over(w, Some(area))) && (w.bounds == Some(bounds) ==> (shows_over(w, Some(area))
            <==> overlaps(area, bounds))),
{
}

/// Where an overlay goes to cover a window. For a window that is not there, or
/// over which nothing shows that is near, it is the upper band: its bottom, so
/// below the lowest window of it. Else it is right above the window.
pub proof fn overlays_cover_their_windows(
    z: Seq<StackedWindow>,
    anchor: isize,
    overlay: isize,
    i: int,
    j: int,
)
    requires
        0 <= i < z.len(),
        place_of(z, anchor) == Some(i),
    ensures
        z[i].topmost ==> placement_above(z, anchor, overlay) == (Placement {
            topmost: true,
            after: above_point(z, anchor, overlay),
        }),
        !z[i].topmost && i < 512 && (forall|k: int|
            0 <= k < i && (#[trigger] z[k]).handle != overlay ==> !z[k].topmost && !shows_over(
                z[k],
                z[i].bounds,
            )) ==> placement_above(z, anchor, overlay) == (Placement {
            topmost: true,
            after: InsertAfter::Topmost,
        }),
        !z[i].topmost && 0 <= j < i && i - j <= 512 && z[j].handle != overlay && (z[j].topmost
            || shows_over(z[j], z[i].bounds)) && (forall|k: int|
            j < k < i && (#[trigger] z[k]).handle != overlay ==> !z[k].topmost && !shows_over(
                z[k],
                z[i].bounds,
            )) ==> placement_above(z, anchor, overlay) == (if z[j].topmost {
            Placement { topmost: true, after: InsertAfter::Window(z[j].handle) }
        } else {
            Placement { topmost: false, after: above_point(z, anchor, overlay) }
        }),
{
    let above = z.subrange(0, i);
    let area = z[i].bounds;
    lemma_search_end(above, overlay, area);
    assert forall|k: int| 0 <= k < i implies above[k] == z[k] by {}
    if 0 <= j < i {
        assert(above[j] == z[j]);
    }
    if search_end(above, overlay, area) is Some {
        let e = search_end(above, overlay, area)->0;
        assert(above[e] == z[e]);
        assert(ends_search(z[e], overlay, area));
    }
}

/// An overlay of a window that is not there goes to the top of the upper band.
pub proof fn overlays_of_nothing_go_to_the_top(z: Seq<StackedWindow>, anchor: isize, overlay: isize)
    requires
        forall|k: int| 0 <= k < z.len() ==> (#[trigger] z[k]).handle != anchor,
    ensures
        above_point(z, anchor, overlay) == InsertAfter::Top,
        placement_above(z, anchor, overlay) == (Placement {
            topmost: true,
            after: InsertAfter::Topmost,
        }),
{
    lemma_no_place(z, anchor);
}

/// The search down from an overlay ends at the window that it belongs to, or at
/// one that shows over that.
pub proof fn descents_end_at_what_shows(w: StackedWindow, anchor: isize, area: Option<Rect>)
    ensures
        w.handle == anchor ==> ends_descent(w, anchor, area),
        w.handle != anchor ==> (ends_descent(w, anchor, area) <==> shows_over(w, area)),
{
}

} // verus!
