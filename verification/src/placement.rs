//! Which containers decide where another one is.

use std::collections::HashMap;

use vstd::prelude::*;

use crate::container::{ContainerKind, TilingDirection, WorkspaceLayout};
use crate::geometry::Rect;
use crate::position::{GroupParent, GroupPosition, PositionGetters, TilingWindowPosition,
    WindowParent};
use crate::split::lemma_filter_members;
use crate::stack::{last_where, lemma_filter_step, lemma_last_where, takes_part_in_tiling,
    tiles_beside, tiling_children};
use crate::tree::{lemma_child_is_lower, lemma_index_of, lemma_parent_is_higher, node_linked,
    position, wf, Nodes, Tree};

verus! {

broadcast use vstd::std_specs::hash::group_hash_axioms;

/// What lays a container out.
#[derive(Clone, Copy, Debug, PartialEq, Eq, Structural)]
pub enum LaidOutBy {
    /// It has no parent.
    Nothing,
    /// A stack, which shows its children at one place.
    Stack(u128),
    /// A parent that has its children one after the other.
    Row { parent: u128, direction: TilingDirection },
    /// A parent that lays nothing out.
    Other(u128),
}

/// The direction that a layout goes in. One that is no split goes in
/// `otherwise`.
pub open spec fn layout_direction(
    layout: WorkspaceLayout,
    otherwise: TilingDirection,
) -> TilingDirection {
    match layout {
        WorkspaceLayout::Split(direction) => direction,
        _ => otherwise,
    }
}

/// What lays the container `id` out.
pub open spec fn laid_out_by(m: Nodes, id: u128, otherwise: TilingDirection) -> LaidOutBy {
    match m[id].parent {
        None => LaidOutBy::Nothing,
        Some(parent) => if m[parent].kind == ContainerKind::Stack {
            LaidOutBy::Stack(parent)
        } else if m[parent].kind.spec_is_direction() {
            LaidOutBy::Row { parent, direction: layout_direction(m[parent].layout, otherwise) }
        } else {
            LaidOutBy::Other(parent)
        },
    }
}

/// The one that takes part in the tiling layout just before `id`: the last of
/// those that are among the children of the same parent and before it.
pub open spec fn previous_tiling(m: Nodes, id: u128) -> Option<u128> {
    match m[id].parent {
        None => None,
        Some(p) => last_where(
            m[p].children.subrange(0, m[p].children.index_of(id)),
            takes_part_in_tiling(m),
        ),
    }
}

/// The others that take part in the tiling layout with `id`.
pub open spec fn tiling_siblings(m: Nodes, id: u128) -> Seq<u128> {
    match m[id].parent {
        None => Seq::empty(),
        Some(p) => m[p].children.filter(tiles_beside(m, id)),
    }
}

/// Whom the place of a container depends on.
#[derive(Clone, Copy, Debug, PartialEq, Eq, Structural)]
pub struct Neighbors {
    pub laid_out_by: LaidOutBy,
    /// The one before it, if there is one.
    pub previous: Option<u128>,
    /// How many others take part in the layout.
    pub siblings: usize,
}

/// Whom the place of the container `id` depends on.
pub fn neighbors(tree: &Tree, id: u128, otherwise: TilingDirection) -> (result: Neighbors)
    requires
        wf(tree@),
        tree@.contains_key(id),
    ensures
        result.laid_out_by == laid_out_by(tree@, id, otherwise),
        result.previous == previous_tiling(tree@, id),
        result.previous matches Some(p) ==> tree@.contains_key(p),
        result.siblings == tiling_siblings(tree@, id).len(),
{
    let ghost m = tree@;
    let parent: u128 = match tree.get(id).parent {
        Some(p) => p,
        None => {
            return Neighbors { laid_out_by: LaidOutBy::Nothing, previous: None, siblings: 0 };
        },
    };
    proof {
        lemma_parent_is_higher(m, id);
        assert(node_linked(m, parent));
        assert(node_linked(m, id));
    }
    let kind: ContainerKind = tree.get(parent).kind;
    let laid_out_by = if kind == ContainerKind::Stack {
        LaidOutBy::Stack(parent)
    } else if kind.is_direction() {
        let direction = match tree.get(parent).layout {
            WorkspaceLayout::Split(direction) => direction,
            _ => otherwise,
        };
        LaidOutBy::Row { parent, direction }
    } else {
        LaidOutBy::Other(parent)
    };
    let children = &tree.get(parent).children;
    let at: usize = position(children, id).unwrap();
    proof {
        lemma_index_of(m[parent].children, id, at as int);
    }
    let ghost pred = takes_part_in_tiling(m);
    let ghost beside = tiles_beside(m, id);
    let mut previous: Option<u128> = None;
    let mut siblings: usize = 0;
    let mut i: usize = 0;
    proof {
        reveal(Seq::filter);
    }
    while i < children.len()
        invariant
            m == tree@,
            wf(m),
            m.contains_key(parent),
            children@ == m[parent].children,
            children@.no_duplicates(),
            at < children@.len(),
            children@[at as int] == id,
            i <= children@.len(),
            pred == takes_part_in_tiling(m),
            beside == tiles_beside(m, id),
            previous == last_where(
                children@.subrange(
                    0,
                    if i < at {
                        i as int
                    } else {
                        at as int
                    },
                ),
                pred,
            ),
            previous matches Some(p) ==> m.contains_key(p),
            siblings == children@.subrange(0, i as int).filter(beside).len(),
            siblings <= i,
        decreases children@.len() - i,
    {
        let c: u128 = children[i];
        proof {
            assert(m[parent].children.contains(c));
            lemma_child_is_lower(m, parent, c);
            lemma_filter_step(children@, beside, i as int);
            let next = children@.subrange(0, i + 1);
            assert(next.drop_last() =~= children@.subrange(0, i as int));
            assert(next.last() == c);
        }
        if tree.get(c).kind.is_tiling() {
            if c != id {
                siblings = siblings + 1;
            }
            if i < at {
                previous = Some(c);
            }
        }
        i = i + 1;
    }
    proof {
        assert(children@.subrange(0, i as int) =~= children@);
    }
    Neighbors { laid_out_by, previous, siblings }
}

/// The gaps between those that are laid out one after the other.
#[derive(Clone, Copy, Debug, PartialEq, Eq, Structural)]
pub struct InnerGaps {
    pub horizontal: i32,
    pub vertical: i32,
}

/// The gap along `direction`.
pub open spec fn gap_along(gaps: InnerGaps, direction: TilingDirection) -> i32 {
    match direction {
        TilingDirection::Vertical => gaps.vertical,
        TilingDirection::Horizontal => gaps.horizontal,
    }
}

/// The gap along `direction`.
pub fn inner_gap(gaps: InnerGaps, direction: TilingDirection) -> (result: i32)
    ensures
        result == gap_along(gaps, direction),
{
    match direction {
        TilingDirection::Vertical => gaps.vertical,
        TilingDirection::Horizontal => gaps.horizontal,
    }
}

/// The place of `id`, if it is known.
pub open spec fn known(rects: Map<u128, Rect>, id: u128) -> Option<Rect> {
    if rects.contains_key(id) {
        Some(rects[id])
    } else {
        None
    }
}

/// What the window `id` is in, as far as its place depends on it.
pub open spec fn window_parent(
    m: Nodes,
    id: u128,
    otherwise: TilingDirection,
    rects: Map<u128, Rect>,
    tab_height: i32,
    gaps: InnerGaps,
) -> WindowParent {
    match laid_out_by(m, id, otherwise) {
        LaidOutBy::Nothing => WindowParent::Missing,
        LaidOutBy::Stack(parent) => WindowParent::Stack {
            rect: known(rects, parent),
            tab_height,
        },
        LaidOutBy::Row { parent, direction } => WindowParent::Row {
            rect: known(rects, parent),
            direction,
            inner_gap: gap_along(gaps, direction),
            siblings: tiling_siblings(m, id).len() as i32,
        },
        LaidOutBy::Other(_) => WindowParent::Other,
    }
}

fn look_up(rects: &HashMap<u128, Rect>, id: u128) -> (result: Option<Rect>)
    ensures
        result == known(rects@, id),
{
    match rects.get(&id) {
        Some(rect) => Some(*rect),
        None => None,
    }
}

/// The window `id`, as far as its place depends on it. `rects` has the places
/// of containers as far as they are known, and `length` is the length that the
/// share of the window comes to.
pub fn window_position(
    tree: &Tree,
    id: u128,
    otherwise: TilingDirection,
    rects: &HashMap<u128, Rect>,
    tab_height: i32,
    gaps: InnerGaps,
    length: i32,
) -> (result: TilingWindowPosition)
    requires
        wf(tree@),
        tree@.contains_key(id),
        tiling_siblings(tree@, id).len() <= i32::MAX,
    ensures
        result == (TilingWindowPosition {
            parent: window_parent(tree@, id, otherwise, rects@, tab_height, gaps),
            length,
            previous: match previous_tiling(tree@, id) {
                Some(p) => Some(known(rects@, p)),
                None => None,
            },
        }),
{
    let around = neighbors(tree, id, otherwise);
    let parent = match around.laid_out_by {
        LaidOutBy::Nothing => WindowParent::Missing,
        LaidOutBy::Stack(parent) => WindowParent::Stack {
            rect: look_up(rects, parent),
            tab_height,
        },
        LaidOutBy::Row { parent, direction } => WindowParent::Row {
            rect: look_up(rects, parent),
            direction,
            inner_gap: inner_gap(gaps, direction),
            siblings: around.siblings as i32,
        },
        LaidOutBy::Other(_) => WindowParent::Other,
    };
    let previous: Option<Option<Rect>> = match around.previous {
        Some(p) => Some(look_up(rects, p)),
        None => None,
    };
    TilingWindowPosition { parent, length, previous }
}

/// What the split or stack `id` is in, as far as its place depends on it, with
/// the place of its parent and the places that the layout of the parent gives
/// out.
pub open spec fn is_group_parent(
    parent: GroupParent,
    m: Nodes,
    id: u128,
    parent_rect: Option<Rect>,
    given: Option<Vec<Rect>>,
) -> bool {
    match m[id].parent {
        None => parent is Missing,
        Some(p) => if m[p].kind == ContainerKind::Stack {
            parent == (GroupParent::Stack { rect: parent_rect })
        } else if m[p].kind.spec_is_direction() {
            parent matches GroupParent::Layout { tiling_children: children, rects } && children@
                == tiling_children(m, p) && rects == given
        } else {
            parent is Other
        },
    }
}

/// The split or stack `id`, as far as its place depends on it.
pub fn group_position(
    tree: &Tree,
    id: u128,
    parent_rect: Option<Rect>,
    given: Option<Vec<Rect>>,
) -> (result: GroupPosition)
    requires
        wf(tree@),
        tree@.contains_key(id),
    ensures
        result.id == id,
        result.is_split == (tree@[id].kind == ContainerKind::Split),
        is_group_parent(result.parent, tree@, id, parent_rect, given),
        result.computable(),
{
    let ghost m = tree@;
    let is_split: bool = tree.get(id).kind == ContainerKind::Split;
    let p: u128 = match tree.get(id).parent {
        Some(p) => p,
        None => {
            return GroupPosition { id, is_split, parent: GroupParent::Missing };
        },
    };
    proof {
        lemma_parent_is_higher(m, id);
        assert(node_linked(m, p));
        lemma_filter_members(m[p].children, takes_part_in_tiling(m));
    }
    let kind: ContainerKind = tree.get(p).kind;
    let parent = if kind == ContainerKind::Stack {
        GroupParent::Stack { rect: parent_rect }
    } else if kind.is_direction() {
        GroupParent::Layout { tiling_children: tree.tiling_children(p), rects: given }
    } else {
        GroupParent::Other
    };
    GroupPosition { id, is_split, parent }
}

/// Where something takes part in the layout before a container, the one just
/// before it is another child of the same parent that does so, and none is
/// between the two.
pub proof fn nothing_is_between_neighbors(m: Nodes, id: u128, i: int)
    requires
        wf(m),
        m.contains_key(id),
        m[id].parent is Some,
        0 <= i < m[m[id].parent->0].children.index_of(id),
        m[m[m[id].parent->0].children[i]].kind.spec_is_tiling(),
    ensures
        ({
            let children = m[m[id].parent->0].children;
            previous_tiling(m, id) matches Some(p) && {
                &&& p != id
                &&& children.contains(p)
                &&& m[p].kind.spec_is_tiling()
                &&& i <= children.index_of(p) < children.index_of(id)
            }
        }),
{
    let p = m[id].parent->0;
    lemma_parent_is_higher(m, id);
    assert(node_linked(m, p));
    assert(node_linked(m, id));
    let children = m[p].children;
    let at = children.index_of(id);
    assert(children.contains(id));
    assert(children[at] == id);
    let before = children.subrange(0, at);
    let pred = takes_part_in_tiling(m);
    lemma_last_where(before, pred);
    assert(pred(before[i]));
    lemma_last_is_late(before, pred, i);
    let prev = last_where(before, pred)->0;
    let k = choose|k: int| i <= k < before.len() && before[k] == prev;
    assert(children[k] == prev);
    lemma_index_of(children, prev, k);
}

proof fn lemma_last_is_late(ids: Seq<u128>, pred: spec_fn(u128) -> bool, i: int)
    requires
        0 <= i < ids.len(),
        pred(ids[i]),
    ensures
        last_where(ids, pred) matches Some(x) && exists|k: int|
            i <= k < ids.len() && #[trigger] ids[k] == x,
    decreases ids.len(),
{
    if pred(ids.last()) {
        assert(ids[ids.len() - 1] == ids.last());
    } else {
        let rest = ids.drop_last();
        lemma_last_is_late(rest, pred, i);
        let x = last_where(rest, pred)->0;
        let k = choose|k: int| i <= k < rest.len() && #[trigger] rest[k] == x;
        assert(ids[k] == x);
    }
}

/// A child is laid out by its parent: a stack shows it with the others at one
/// place, a workspace or a split has them one after the other in its direction,
/// and anything else lays nothing out.
pub proof fn parents_lay_out_their_children(m: Nodes, id: u128, otherwise: TilingDirection, p: u128)
    ensures
        m[id].parent is None ==> laid_out_by(m, id, otherwise) == LaidOutBy::Nothing,
        m[id].parent == Some(p) && m[p].kind == ContainerKind::Stack ==> laid_out_by(
            m,
            id,
            otherwise,
        ) == LaidOutBy::Stack(p),
        m[id].parent == Some(p) && (m[p].kind == ContainerKind::Workspace || m[p].kind
            == ContainerKind::Split) ==> (laid_out_by(m, id, otherwise) matches LaidOutBy::Row {
            parent,
            direction,
        } && parent == p && direction == (match m[p].layout {
            WorkspaceLayout::Split(d) => d,
            _ => otherwise,
        })),
        m[id].parent == Some(p) && m[p].kind != ContainerKind::Stack && m[p].kind
            != ContainerKind::Workspace && m[p].kind != ContainerKind::Split ==> laid_out_by(
            m,
            id,
            otherwise,
        ) == LaidOutBy::Other(p),
{
}

/// Those that take part in the layout with a container are the other children of
/// its parent that are tiled. The one before it is one of them.
pub proof fn siblings_share_the_parent(m: Nodes, id: u128, x: u128)
    requires
        wf(m),
        m.contains_key(id),
    ensures
        tiling_siblings(m, id).contains(x) <==> m[id].parent is Some && x != id
            && m[m[id].parent->0].children.contains(x) && (m[x].kind == ContainerKind::TilingWindow
            || m[x].kind == ContainerKind::Split || m[x].kind == ContainerKind::Stack),
        m[id].parent is None ==> previous_tiling(m, id) is None,
        previous_tiling(m, id) matches Some(p) ==> tiling_siblings(m, id).contains(p),
{
    if m[id].parent is Some {
        let p = m[id].parent->0;
        lemma_parent_is_higher(m, id);
        assert(node_linked(m, p));
        assert(node_linked(m, id));
        let children = m[p].children;
        lemma_filter_members(children, tiles_beside(m, id));
        let at = children.index_of(id);
        assert(children.contains(id));
        let before = children.subrange(0, at);
        lemma_last_where(before, takes_part_in_tiling(m));
        if previous_tiling(m, id) is Some {
            let q = previous_tiling(m, id)->0;
            let k = choose|k: int| 0 <= k < before.len() && before[k] == q;
            assert(children[k] == q);
            if q == id {
                lemma_index_of(children, id, k);
            }
        }
    }
}

/// The gap between two that stand side by side is the horizontal one, and that
/// between two on top of each other the vertical one.
pub proof fn gaps_go_with_the_direction(gaps: InnerGaps, rects: Map<u128, Rect>, id: u128)
    ensures
        gap_along(gaps, TilingDirection::Horizontal) == gaps.horizontal,
        gap_along(gaps, TilingDirection::Vertical) == gaps.vertical,
        known(rects, id) is Some <==> rects.contains_key(id),
        known(rects, id) matches Some(r) ==> r == rects[id],
{
}

/// What a window is in, as far as its place depends on it, has the place of its
/// parent if that is known.
pub proof fn windows_are_in_their_parents(
    m: Nodes,
    id: u128,
    otherwise: TilingDirection,
    rects: Map<u128, Rect>,
    tab_height: i32,
    gaps: InnerGaps,
    p: u128,
)
    requires
        m[id].parent == Some(p),
    ensures
        ({
            let w = window_parent(m, id, otherwise, rects, tab_height, gaps);
            if m[p].kind == ContainerKind::Stack {
                w == (WindowParent::Stack {
                    rect: if rects.contains_key(p) {
                        Some(rects[p])
                    } else {
                        None
                    },
                    tab_height,
                })
            } else if m[p].kind == ContainerKind::Workspace || m[p].kind == ContainerKind::Split {
                let d = match m[p].layout {
                    WorkspaceLayout::Split(d) => d,
                    _ => otherwise,
                };
                w == (WindowParent::Row {
                    rect: if rects.contains_key(p) {
                        Some(rects[p])
                    } else {
                        None
                    },
                    direction: d,
                    inner_gap: if d == TilingDirection::Vertical {
                        gaps.vertical
                    } else {
                        gaps.horizontal
                    },
                    siblings: tiling_siblings(m, id).len() as i32,
                })
            } else {
                w is Other
            }
        }),
{
}

/// What a split or stack is in has the children of its parent that are tiled, or
/// the place of the stack that it is in.
pub proof fn groups_are_in_their_parents(
    parent: GroupParent,
    m: Nodes,
    id: u128,
    p: u128,
    parent_rect: Option<Rect>,
    given: Option<Vec<Rect>>,
)
    requires
        is_group_parent(parent, m, id, parent_rect, given),
    ensures
        m[id].parent is None <==> parent is Missing,
        m[id].parent == Some(p) ==> {
            &&& m[p].kind == ContainerKind::Stack ==> parent == (GroupParent::Stack {
                rect: parent_rect,
            })
            &&& m[p].kind == ContainerKind::Workspace || m[p].kind == ContainerKind::Split ==> (
            parent matches GroupParent::Layout { tiling_children: children, rects } && rects == given
                && children@ == tiling_children(m, p))
            &&& m[p].kind != ContainerKind::Stack && m[p].kind != ContainerKind::Workspace
                && m[p].kind != ContainerKind::Split ==> parent is Other
        },
{
}

} // verus!
