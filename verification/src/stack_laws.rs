//! What the commands on stacks come to: which stack a window ends up in, and
//! with which others.

use vstd::prelude::*;

use crate::container::ContainerKind;
use crate::geometry::Direction;
use crate::stack::{absorb_makes_stack, absorb_outcome, eject_sizes, first_where,
    insert_makes_stack, insert_outcome, insert_target, is_other_tiling_window, last_where,
    lemma_descendants_contained, lemma_focus_leaves_contained, move_makes_stack,
    move_to_stack_outcome, named_stack, new_stack, pivot, stack_of, stack_surroundings,
    takes_part_in_tiling, tiles_beside, tiling_children, tiling_neighbor, tiling_windows_below,
    toggle_makes_stack, toggle_outcome, with_stack_around, SizeChange, StackChange, StackError};
use crate::tree::{attached, depth_bound, descendant_focus_order, descendants, descendants_from,
    detached, focus_leaves_from, lemma_child_is_lower, lemma_detached_wf, lemma_index_of,
    lemma_inserted_wf, lemma_parent_is_higher, lemma_refocused_wf, lemma_without, lemma_wrapped_wf,
    nearest, node_linked, splice, wf, without, Nodes};
use crate::tree_laws::{leaving_a_stack_takes_its_place, moved_windows_stand_at_their_place};
use crate::tree_moves::{can_relocate, has_focus, is_grouping, lemma_rehung_wf, lemma_relocated_wf,
    rehung, relocated};
use crate::tree_walks::{descendants_are_all_below, focus_order_lists_all_leaves, is_within,
    lemma_within_step};

verus! {

/// A filter picks exactly the items that its condition holds of.
pub proof fn lemma_filter_picks(ids: Seq<u128>, pred: spec_fn(u128) -> bool, x: u128)
    ensures
        ids.filter(pred).contains(x) <==> ids.contains(x) && pred(x),
{
    if ids.filter(pred).contains(x) {
        let k = choose|k: int| 0 <= k < ids.filter(pred).len() && ids.filter(pred)[k] == x;
        ids.lemma_filter_pred(pred, k);
        ids.lemma_filter_contains_rev(pred, x);
    }
    if ids.contains(x) && pred(x) {
        let k = choose|k: int| 0 <= k < ids.len() && ids[k] == x;
        ids.lemma_filter_contains(pred, k);
    }
}

/// The first that a condition holds of comes before all others that it holds
/// of.
pub proof fn lemma_first_comes_first(ids: Seq<u128>, pred: spec_fn(u128) -> bool, j: int)
    requires
        0 <= j < ids.len(),
        pred(ids[j]),
    ensures
        first_where(ids, pred) is Some,
        exists|k: int|
            0 <= k <= j && #[trigger] ids[k] == first_where(ids, pred)->0 && pred(ids[k]),
    decreases ids.len(),
{
    if pred(ids[0]) {
        assert(ids[0] == first_where(ids, pred)->0);
    } else {
        let rest = ids.drop_first();
        assert(rest[j - 1] == ids[j]);
        lemma_first_comes_first(rest, pred, j - 1);
        let k = choose|k: int|
            0 <= k <= j - 1 && #[trigger] rest[k] == first_where(rest, pred)->0 && pred(rest[k]);
        assert(ids[k + 1] == first_where(ids, pred)->0);
    }
}

/// The last that a condition holds of comes after all others that it holds of.
pub proof fn lemma_last_comes_last(ids: Seq<u128>, pred: spec_fn(u128) -> bool, j: int)
    requires
        0 <= j < ids.len(),
        pred(ids[j]),
    ensures
        last_where(ids, pred) is Some,
        exists|k: int|
            j <= k < ids.len() && #[trigger] ids[k] == last_where(ids, pred)->0 && pred(ids[k]),
    decreases ids.len(),
{
    if pred(ids.last()) {
        assert(ids[ids.len() - 1] == last_where(ids, pred)->0);
    } else {
        let rest = ids.drop_last();
        assert(rest[j] == ids[j]);
        lemma_last_comes_last(rest, pred, j);
        let k = choose|k: int|
            j <= k < rest.len() && #[trigger] rest[k] == last_where(rest, pred)->0 && pred(rest[k]);
        assert(ids[k] == last_where(ids, pred)->0);
    }
}

/// The container that is found above another is of the wanted kind, and nothing
/// of that kind is nearer.
pub proof fn the_nearest_is_found(m: Nodes, id: u128, kind: ContainerKind, a: u128)
    requires
        wf(m),
        m.contains_key(id),
    ensures
        nearest(m, id, kind) matches Some(x) ==> m.contains_key(x) && m[x].kind == kind
            && is_within(m, id, x) && (is_within(m, id, a) && m[a].kind == kind ==> is_within(
            m,
            x,
            a,
        )),
        nearest(m, id, kind) is None ==> !(is_within(m, id, a) && m[a].kind == kind),
    decreases depth_bound(m, id),
{
    lemma_within_step(m, id, a);
    lemma_within_step(m, id, id);
    if m[id].kind == kind {
    } else if m[id].parent is Some {
        let p = m[id].parent->0;
        lemma_parent_is_higher(m, id);
        the_nearest_is_found(m, p, kind, a);
        if nearest(m, p, kind) is Some {
            lemma_within_step(m, id, nearest(m, p, kind)->0);
        }
    }
}

/// What moving a window leaves of the other containers: their kind and name,
/// and, but for where it goes, no child that they did not have.
proof fn lemma_relocated_keeps(m: Nodes, c: u128, p: u128, i: int, x: u128)
    requires
        wf(m),
        can_relocate(m, c, p, i),
        relocated(m, c, p, i).contains_key(x),
    ensures
        m.contains_key(x),
        relocated(m, c, p, i)[x].kind == m[x].kind,
        relocated(m, c, p, i)[x].name == m[x].name,
        x != p ==> forall|y: u128| #[trigger]
            relocated(m, c, p, i)[x].children.contains(y) ==> m[x].children.contains(y),
        x != c ==> relocated(m, c, p, i)[x].parent == m[x].parent,
        relocated(m, c, p, i)[c].parent == Some(p),
{
    let q = m[c].parent->0;
    let d = detached(m, c);
    lemma_detached_wf(m, c);
    lemma_parent_is_higher(m, c);
    assert(node_linked(m, q));
    assert(node_linked(m, p));
    lemma_without(m[q].children, c);
    lemma_rehung_wf(m, c, p, i);
    lemma_relocated_wf(m, c, p, i);
    let a = attached(d, c, p, i, d[p].focus_order.len() as int);
    let h = rehung(m, c, p, i);
    let r = relocated(m, c, p, i);
    if has_focus(m, c) {
        lemma_refocused_wf(h, c);
    }
    assert(r[x].children == h[x].children);
    assert(r[x].kind == h[x].kind && r[x].name == h[x].name && r[x].parent == h[x].parent);
    if q != p && is_grouping(m, q) && m[q].children.len() == 1 && m[q].parent is Some {
        let g = m[q].parent->0;
        assert(a[q].children == without(m[q].children, c));
        assert(a[q].children.len() == 0);
        assert(!a[q].children.contains(x));
        assert(!a[q].children.contains(c));
        lemma_parent_is_higher(m, q);
        if x == g && x != p {
            let k = a[g].children.index_of(q);
            assert(a[g].children == m[g].children);
            assert(h[g].children == splice(m[g].children, k, a[q].children));
            assert(m[g].children.contains(q));
            assert forall|y: u128| #[trigger] h[x].children.contains(y) implies m[x].children.contains(
                y,
            ) by {
                let j = choose|j: int| 0 <= j < h[x].children.len() && h[x].children[j] == y;
                if j < k {
                    assert(m[g].children[j] == y);
                } else {
                    assert(m[g].children[j + 1] == y);
                }
            }
        }
    }
}

/// A window that is moved to a named stack ends up in a stack of that name, and
/// a stack that goes by another name gets no child, unless it is the new stack
/// around a window that it has. A stack of that name that the workspace has is
/// used, and none is made beside it.
pub proof fn windows_move_to_the_stack_of_that_name(
    m: Nodes,
    w: u128,
    name: Seq<char>,
    new_id: u128,
    m2: Nodes,
    result: Result<StackChange, StackError>,
    x: u128,
)
    requires
        wf(m),
        m.contains_key(w),
        m[w].kind == ContainerKind::TilingWindow,
        move_makes_stack(m, w, name) ==> !m.contains_key(new_id),
        move_to_stack_outcome(m, w, name, new_id, m2, result),
        result is Ok,
    ensures
        m2.contains_key(w),
        m2[w].parent is Some,
        m2.contains_key(m2[w].parent->0),
        m2[m2[w].parent->0].kind == ContainerKind::Stack,
        m2[m2[w].parent->0].name == Some(name),
        m2.contains_key(x) && m2[x].kind == ContainerKind::Stack && m2[x].name != Some(name) ==> {
            &&& m.contains_key(x)
            &&& !m2[x].children.contains(w)
            &&& forall|c: u128| #[trigger]
                m2[x].children.contains(c) ==> m[x].children.contains(c) || (!m.contains_key(c) && c
                    == m2[w].parent->0 && m[x].children.contains(w))
        },
        nearest(m, w, ContainerKind::Workspace) matches Some(ws) && m.contains_key(x) && is_within(
            m,
            x,
            ws,
        ) && x != ws && m[x].kind == ContainerKind::Stack && m[x].name == Some(name) ==> m
            .contains_key(m2[w].parent->0),
{
    let ws = nearest(m, w, ContainerKind::Workspace)->0;
    the_nearest_is_found(m, w, ContainerKind::Workspace, w);
    assert(m[w].parent is Some);
    assert(node_linked(m, w));
    lemma_parent_is_higher(m, w);
    let pred = |y: u128| crate::stack::is_named_stack(m, y, name);
    let ids = descendants(m, ws);
    lemma_descendants_contained(m, ws, 0);
    crate::stack::lemma_first_where(ids, pred);
    match named_stack(m, ws, name) {
        Some(t) => {
            assert(descendants_from(m, ws, 0).contains(t));
            assert(pred(t));
            assert(m[t].kind == ContainerKind::Stack && m[t].name == Some(name));
            if m[w].parent != Some(t) {
                assert(can_relocate(m, w, t, m[t].children.len() as int));
                lemma_relocated_wf(m, w, t, m[t].children.len() as int);
                lemma_relocated_keeps(m, w, t, m[t].children.len() as int, t);
                if m2.contains_key(x) {
                    lemma_relocated_keeps(m, w, t, m[t].children.len() as int, x);
                    assert(node_linked(m2, x));
                }
            } else {
                assert(m2 == m);
                if m.contains_key(x) {
                    assert(node_linked(m, x));
                }
            }
        },
        None => {
            let p = m[w].parent->0;
            if m2.contains_key(x) && m2[x].kind == ContainerKind::Stack && m2[x].name != Some(
                name,
            ) {
                assert(x != new_id);
                assert(node_linked(m, x));
                assert(node_linked(m, p));
                if x == p {
                    let ids = m[p].children;
                    let k = ids.index_of(w);
                    assert(ids.contains(w));
                    let after = splice(ids, k, seq![new_id]);
                    assert(m2[p].children == after);
                    assert forall|c: u128| #[trigger] after.contains(c) implies c == new_id || (
                    ids.contains(c) && c != w) by {
                        let j = choose|j: int| 0 <= j < after.len() && after[j] == c;
                        if j != k {
                            assert(ids[j] == c);
                        }
                    }
                } else {
                    assert(m2[x].children == m[x].children);
                }
            }
            if m.contains_key(x) && is_within(m, x, ws) && x != ws && m[x].kind
                == ContainerKind::Stack && m[x].name == Some(name) {
                descendants_are_all_below(m, ws, x);
                let j = choose|j: int| 0 <= j < ids.len() && ids[j] == x;
                assert(pred(ids[j]));
                lemma_first_comes_first(ids, pred, j);
            }
        },
    }
}

/// The tiling neighbor is the nearest sibling on that side that takes part in
/// the layout: to the left or above those before it, else those behind it.
pub proof fn neighbors_are_the_nearest(m: Nodes, id: u128, direction: Direction, j: int)
    requires
        wf(m),
        m.contains_key(id),
        m[id].parent is Some,
        0 <= j < m[m[id].parent->0].children.len(),
    ensures
        ({
            let ids = m[m[id].parent->0].children;
            let i = ids.index_of(id);
            let before = direction == Direction::Left || direction == Direction::Up;
            let tiles = m[ids[j]].kind == ContainerKind::TilingWindow || m[ids[j]].kind
                == ContainerKind::Split || m[ids[j]].kind == ContainerKind::Stack;
            match tiling_neighbor(m, id, direction) {
                Some(x) => {
                    let k = ids.index_of(x);
                    &&& ids.contains(x)
                    &&& x != id
                    &&& m[x].kind == ContainerKind::TilingWindow || m[x].kind
                        == ContainerKind::Split || m[x].kind == ContainerKind::Stack
                    &&& if before {
                        k < i && (k < j < i ==> !tiles)
                    } else {
                        i < k && (i < j < k ==> !tiles)
                    }
                },
                None => if before {
                    j < i ==> !tiles
                } else {
                    i < j ==> !tiles
                },
            }
        }),
{
    let p = m[id].parent->0;
    let ids = m[p].children;
    let i = ids.index_of(id);
    lemma_parent_is_higher(m, id);
    assert(node_linked(m, p));
    assert(ids.contains(id));
    let pred = takes_part_in_tiling(m);
    let before = direction == Direction::Left || direction == Direction::Up;
    let found = tiling_neighbor(m, id, direction);
    if before {
        let span = ids.subrange(0, i);
        crate::stack::lemma_last_where(span, pred);
        if j < i && pred(ids[j]) {
            assert(span[j] == ids[j]);
            lemma_last_comes_last(span, pred, j);
            let k = choose|k: int|
                j <= k < span.len() && #[trigger] span[k] == last_where(span, pred)->0 && pred(
                    span[k],
                );
            assert(ids[k] == found->0);
            lemma_index_of(ids, found->0, k);
        }
        if found is Some {
            let k = choose|k: int| 0 <= k < span.len() && span[k] == found->0;
            assert(ids[k] == found->0);
            lemma_index_of(ids, found->0, k);
        }
    } else {
        let span = ids.subrange(i + 1, ids.len() as int);
        crate::stack::lemma_first_where(span, pred);
        if i < j && pred(ids[j]) {
            assert(span[j - i - 1] == ids[j]);
            lemma_first_comes_first(span, pred, j - i - 1);
            let k = choose|k: int|
                0 <= k <= j - i - 1 && #[trigger] span[k] == first_where(span, pred)->0 && pred(
                    span[k],
                );
            assert(ids[k + i + 1] == found->0);
            lemma_index_of(ids, found->0, k + i + 1);
        }
        if found is Some {
            let k = choose|k: int| 0 <= k < span.len() && span[k] == found->0;
            assert(ids[k + i + 1] == found->0);
            lemma_index_of(ids, found->0, k + i + 1);
        }
    }
}

/// A tiling window that is toggled and stands in no stack comes into one of its
/// own, which takes its place. One that stands in a stack comes out of it, to
/// the parent of the stack.
pub proof fn toggling_goes_in_or_out(
    m: Nodes,
    w: u128,
    new_id: u128,
    m2: Nodes,
    result: Result<StackChange, StackError>,
)
    requires
        wf(m),
        m.contains_key(w),
        m[w].kind == ContainerKind::TilingWindow,
        m[w].parent is Some,
        toggle_makes_stack(m, w) ==> !m.contains_key(new_id),
        toggle_outcome(m, w, new_id, m2, result),
    ensures
        m[m[w].parent->0].kind != ContainerKind::Stack ==> {
            let p = m[w].parent->0;
            &&& result is Ok
            &&& m2[w].parent == Some(new_id)
            &&& m2[new_id].kind == ContainerKind::Stack
            &&& m2[new_id].name is None
            &&& m2[new_id].children == seq![w]
            &&& m2[new_id].parent == Some(p)
            &&& m2[p].children == m[p].children.update(m[p].children.index_of(w), new_id)
            &&& result->Ok_0.sizes@ == seq![SizeChange::Wrap { stack: new_id, child: w }]
        },
        m[m[w].parent->0].kind == ContainerKind::Stack && m[m[w].parent->0].parent is Some ==> {
            let s = m[w].parent->0;
            let p = m[s].parent->0;
            &&& result is Ok
            &&& m2[w].parent == Some(p)
            &&& m2[p].children.index_of(w) == m[p].children.index_of(s)
            &&& m2.contains_key(s) <==> m[s].children.len() > 2
            &&& result->Ok_0.redraw@[0] == w
            &&& result->Ok_0.sizes@[0] == (SizeChange::Eject { window: w, stack: s })
        },
        m[m[w].parent->0].kind == ContainerKind::Stack && m[m[w].parent->0].parent is None
            ==> result == Err::<StackChange, StackError>(StackError::NoParent) && m2 == m,
{
    let p = m[w].parent->0;
    lemma_parent_is_higher(m, w);
    assert(node_linked(m, w));
    assert(node_linked(m, p));
    if m[p].kind == ContainerKind::Stack {
        if m[p].parent is Some {
            leaving_a_stack_takes_its_place(m, w, p);
            lemma_parent_is_higher(m, p);
            if m[p].children.len() > 2 {
                assert(m2.contains_key(p));
            }
        }
    } else {
        let k = m[p].children.index_of(w);
        assert(m[p].children.contains(w));
        assert(splice(m[p].children, k, seq![new_id]) =~= m[p].children.update(k, new_id));
    }
}

/// What pulling a tiling window into the stack around another one leaves.
proof fn lemma_joined(m: Nodes, a: u128, new_id: u128, b: u128)
    requires
        wf(m),
        m.contains_key(a),
        m.contains_key(b),
        a != b,
        m[a].kind == ContainerKind::TilingWindow,
        m[b].kind == ContainerKind::TilingWindow,
        m[a].parent is Some,
        m[b].parent is Some,
        stack_of(m, a) is None ==> !m.contains_key(new_id),
    ensures
        ({
            let (s, m1) = with_stack_around(m, a, new_id);
            let m2 = relocated(m1, b, s, 0);
            &&& m2[a].parent == Some(s)
            &&& m2[b].parent == Some(s)
            &&& m2[s].kind == ContainerKind::Stack
            &&& m2[s].children[0] == b
            &&& m2.contains_key(s)
            &&& s == (if m[m[a].parent->0].kind == ContainerKind::Stack {
                m[a].parent->0
            } else {
                new_id
            })
        }),
{
    let (s, m1) = with_stack_around(m, a, new_id);
    lemma_parent_is_higher(m, a);
    lemma_parent_is_higher(m, b);
    if stack_of(m, a) is None {
        lemma_inserted_wf(m, s, new_stack(None));
        lemma_wrapped_wf(m.insert(s, new_stack(None)), s, a);
        assert(m1[b].parent is Some);
    }
    assert(node_linked(m1, b));
    assert(can_relocate(m1, b, s, 0)) by {
        assert(wf(m1));
        assert(m1.contains_key(s));
        assert(node_linked(m1, s));
        assert(m1[b].kind == ContainerKind::TilingWindow);
        if m1[b].parent == Some(s) {
            assert(m1[s].children.contains(b));
        }
    }
    lemma_relocated_wf(m1, b, s, 0);
    moved_windows_stand_at_their_place(m1, b, s, 0);
    let m2 = relocated(m1, b, s, 0);
    lemma_relocated_keeps(m1, b, s, 0, s);
    assert(m2.contains_key(a)) by {
        lemma_rehung_wf(m1, b, s, 0);
        assert(m1[m1[b].parent->0].kind != ContainerKind::TilingWindow) by {
            lemma_parent_is_higher(m1, b);
            assert(node_linked(m1, m1[b].parent->0));
        }
    }
    lemma_relocated_keeps(m1, b, s, 0, a);
}

/// Pulling in a neighbor that is a window puts it into one stack with the
/// window: the one that the window stands in, or a new one. Any other neighbor
/// is left alone.
pub proof fn absorbed_neighbors_share_the_stack(
    m: Nodes,
    w: u128,
    direction: Direction,
    new_id: u128,
    m2: Nodes,
    result: Result<StackChange, StackError>,
)
    requires
        wf(m),
        m.contains_key(w),
        m[w].kind == ContainerKind::TilingWindow,
        m[w].parent is Some,
        absorb_makes_stack(m, w, direction) ==> !m.contains_key(new_id),
        absorb_outcome(m, w, direction, new_id, m2, result),
    ensures
        ({
            let p = m[w].parent->0;
            let around = if m[p].kind == ContainerKind::Stack {
                p
            } else {
                w
            };
            match tiling_neighbor(m, around, direction) {
                None => m2 == m && result == Err::<StackChange, StackError>(
                    StackError::NoNeighbor,
                ),
                Some(x) => if m[x].kind == ContainerKind::TilingWindow {
                    let s = if m[p].kind == ContainerKind::Stack {
                        p
                    } else {
                        new_id
                    };
                    &&& result is Ok
                    &&& m2[w].parent == Some(s)
                    &&& m2[x].parent == Some(s)
                    &&& m2[s].kind == ContainerKind::Stack
                    &&& m2[s].children[0] == x
                    &&& result->Ok_0.redraw@ == stack_surroundings(m2, s)
                    &&& result->Ok_0.sizes@ == (if s == p {
                        seq![SizeChange::Join { child: x, parent: s }]
                    } else {
                        seq![
                            SizeChange::Wrap { stack: new_id, child: w },
                            SizeChange::Join { child: x, parent: s },
                        ]
                    })
                } else {
                    &&& m2 == m
                    &&& result is Ok
                    &&& result->Ok_0.redraw@.len() == 0
                    &&& result->Ok_0.sizes@.len() == 0
                },
            }
        }),
{
    let p = m[w].parent->0;
    lemma_parent_is_higher(m, w);
    let around = pivot(m, w);
    if tiling_neighbor(m, around, direction) is Some {
        let x = tiling_neighbor(m, around, direction)->0;
        let g = m[around].parent->0;
        assert(node_linked(m, around));
        lemma_parent_is_higher(m, around);
        assert(m[g].children.contains(around));
        let i = m[g].children.index_of(around);
        neighbors_are_the_nearest(m, around, direction, i);
        assert(node_linked(m, g));
        lemma_child_is_lower(m, g, x);
        if m[x].kind == ContainerKind::TilingWindow {
            assert(x != w);
            lemma_joined(m, w, new_id, x);
        }
    }
}

/// Inserting a window puts it into one stack with the tiling window that was
/// focused last besides it: no other tiling window of the workspace comes
/// before that one in the focus order. Without one, nothing happens.
pub proof fn inserted_windows_join_the_last_focused(
    m: Nodes,
    w: u128,
    new_id: u128,
    m2: Nodes,
    result: Result<StackChange, StackError>,
    y: u128,
)
    requires
        wf(m),
        m.contains_key(w),
        m[w].kind == ContainerKind::TilingWindow,
        insert_makes_stack(m, w) ==> !m.contains_key(new_id),
        insert_outcome(m, w, new_id, m2, result),
        result is Ok,
    ensures
        nearest(m, w, ContainerKind::Workspace) is Some,
        ({
            let ws = nearest(m, w, ContainerKind::Workspace)->0;
            let order = descendant_focus_order(m, ws);
            let is_other = y != w && is_within(m, y, ws) && m[y].kind == ContainerKind::TilingWindow;
            match insert_target(m, ws, w) {
                Some(t) => {
                    let s = m2[w].parent->0;
                    &&& t != w
                    &&& m[t].kind == ContainerKind::TilingWindow
                    &&& is_within(m, t, ws)
                    &&& is_other ==> order.index_of(t) <= order.index_of(y)
                    &&& m2[w].parent is Some
                    &&& m2[t].parent == Some(s)
                    &&& m2[s].kind == ContainerKind::Stack
                    &&& s == (if m[m[t].parent->0].kind == ContainerKind::Stack {
                        m[t].parent->0
                    } else {
                        new_id
                    })
                    &&& m2[s].children[0] == w
                    &&& result->Ok_0.redraw@ == stack_surroundings(m2, s)
                    &&& result->Ok_0.sizes@ == (if m[m[t].parent->0].kind == ContainerKind::Stack {
                        seq![SizeChange::Join { child: w, parent: s }]
                    } else {
                        seq![
                            SizeChange::Wrap { stack: new_id, child: t },
                            SizeChange::Join { child: w, parent: s },
                        ]
                    })
                },
                None => !is_other && m2 == m && result->Ok_0.redraw@.len() == 0
                    && result->Ok_0.sizes@.len() == 0,
            }
        }),
{
    let ws = nearest(m, w, ContainerKind::Workspace)->0;
    the_nearest_is_found(m, w, ContainerKind::Workspace, w);
    let order = descendant_focus_order(m, ws);
    let pred = is_other_tiling_window(m, w);
    focus_order_lists_all_leaves(m, ws, y);
    lemma_focus_leaves_contained(m, ws, 0);
    crate::stack::lemma_first_where(order, pred);
    let is_other = y != w && is_within(m, y, ws) && m[y].kind == ContainerKind::TilingWindow;
    if is_other {
        assert(node_linked(m, y));
        assert(order.contains(y));
        let j = choose|j: int| 0 <= j < order.len() && order[j] == y;
        assert(pred(order[j]));
        lemma_first_comes_first(order, pred, j);
        let k = choose|k: int|
            0 <= k <= j && #[trigger] order[k] == first_where(order, pred)->0 && pred(order[k]);
        lemma_index_of(order, y, j);
        lemma_index_of(order, order[k], k);
    }
    if insert_target(m, ws, w) is Some {
        let t = insert_target(m, ws, w)->0;
        focus_order_lists_all_leaves(m, ws, t);
        assert(focus_leaves_from(m, ws, 0).contains(t));
        assert(node_linked(m, w));
        lemma_joined(m, t, new_id, w);
    }
}

/// What is drawn again around a stack: all that take part in the layout of the
/// stack or of its parent, and nothing else.
pub proof fn surroundings_are_drawn_again(m: Nodes, s: u128, x: u128)
    ensures
        tiling_children(m, s).contains(x) <==> m[s].children.contains(x) && (m[x].kind
            == ContainerKind::TilingWindow || m[x].kind == ContainerKind::Split || m[x].kind
            == ContainerKind::Stack),
        stack_surroundings(m, s).contains(x) <==> tiling_children(m, s).contains(x) || (
        m[s].parent is Some && tiling_children(m, m[s].parent->0).contains(x)),
{
    lemma_filter_picks(m[s].children, takes_part_in_tiling(m), x);
    let a = tiling_children(m, s);
    let b = match m[s].parent {
        Some(p) => tiling_children(m, p),
        None => Seq::empty(),
    };
    if (a + b).contains(x) {
        let k = choose|k: int| 0 <= k < (a + b).len() && (a + b)[k] == x;
        if k < a.len() {
            assert(a[k] == x);
        } else {
            assert(b[k - a.len()] == x);
        }
    }
    if a.contains(x) {
        let k = choose|k: int| 0 <= k < a.len() && a[k] == x;
        assert((a + b)[k] == x);
    }
    if b.contains(x) {
        let k = choose|k: int| 0 <= k < b.len() && b[k] == x;
        assert((a + b)[k + a.len()] == x);
    }
}

/// A new layout has all tiling windows below drawn again, and nothing else.
pub proof fn laid_out_windows_are_drawn_again(m: Nodes, d: u128, x: u128)
    requires
        wf(m),
        m.contains_key(d),
    ensures
        tiling_windows_below(m, d).contains(x) <==> is_within(m, x, d) && x != d && m[x].kind
            == ContainerKind::TilingWindow,
{
    descendants_are_all_below(m, d, x);
    lemma_filter_picks(descendants(m, d), crate::stack::is_tiling_window_of(m), x);
}

/// A window that is moved to a stack by its name comes last in it. It is refused
/// only where there is no workspace, and nothing changes then.
pub proof fn windows_come_last_in_the_stack_they_move_to(
    m: Nodes,
    w: u128,
    name: Seq<char>,
    new_id: u128,
    m2: Nodes,
    result: Result<StackChange, StackError>,
)
    requires
        wf(m),
        m.contains_key(w),
        m[w].kind == ContainerKind::TilingWindow,
        move_makes_stack(m, w, name) ==> !m.contains_key(new_id),
        move_to_stack_outcome(m, w, name, new_id, m2, result),
    ensures
        nearest(m, w, ContainerKind::Workspace) is None ==> m2 == m && result == Err::<
            StackChange,
            StackError,
        >(StackError::NoWorkspace),
        nearest(m, w, ContainerKind::Workspace) matches Some(ws) ==> {
            &&& result is Ok
            &&& m2[w].parent != m[w].parent ==> m2[m2[w].parent->0].children.last() == w
            &&& m2[w].parent == m[w].parent ==> m2 == m && result->Ok_0.redraw@.len() == 0
                && result->Ok_0.sizes@.len() == 0
            &&& m2[w].parent != m[w].parent && m.contains_key(m2[w].parent->0)
                ==> result->Ok_0.sizes@ == seq![
                SizeChange::Join { child: w, parent: m2[w].parent->0 },
            ] && result->Ok_0.redraw@ == stack_surroundings(m2, m2[w].parent->0)
            &&& m2[w].parent != m[w].parent && !m.contains_key(m2[w].parent->0)
                ==> result->Ok_0.sizes@ == seq![
                SizeChange::Wrap { stack: new_id, child: w },
            ] && result->Ok_0.redraw@ == tiling_children(m2, new_id)
        },
{
    if nearest(m, w, ContainerKind::Workspace) is Some {
        let ws = nearest(m, w, ContainerKind::Workspace)->0;
        the_nearest_is_found(m, w, ContainerKind::Workspace, w);
        assert(m[w].parent is Some);
        assert(node_linked(m, w));
        lemma_parent_is_higher(m, w);
        let pred = |y: u128| crate::stack::is_named_stack(m, y, name);
        let ids = descendants(m, ws);
        lemma_descendants_contained(m, ws, 0);
        crate::stack::lemma_first_where(ids, pred);
        match named_stack(m, ws, name) {
            Some(t) => {
                assert(descendants_from(m, ws, 0).contains(t));
                assert(pred(t));
                if m[w].parent != Some(t) {
                    let n = m[t].children.len() as int;
                    assert(can_relocate(m, w, t, n));
                    lemma_relocated_wf(m, w, t, n);
                    moved_windows_stand_at_their_place(m, w, t, n);
                }
            },
            None => {
                crate::stack::new_stacks_hold_one_window(m, new_id, Some(name), w);
                assert(m2[new_id].children.last() == w);
            },
        }
    }
}

/// Putting a window into a stack is refused only where there is no workspace,
/// and nothing changes then.
pub proof fn windows_without_a_workspace_join_nothing(
    m: Nodes,
    w: u128,
    new_id: u128,
    m2: Nodes,
    result: Result<StackChange, StackError>,
)
    requires
        insert_outcome(m, w, new_id, m2, result),
    ensures
        nearest(m, w, ContainerKind::Workspace) is None <==> result is Err,
        result is Err ==> m2 == m && result == Err::<StackChange, StackError>(
            StackError::NoWorkspace,
        ),
{
}

/// What a window that leaves a stack changes: its own share, that of each window
/// that stays, and, if at most one stays, that of the one, which takes over that
/// of the stack. All of them are drawn again.
pub proof fn leaving_changes_the_shares(m: Nodes, w: u128, s: u128, k: int)
    ensures
        ({
            let others = m[s].children.filter(tiles_beside(m, w));
            let sizes = eject_sizes(m, w, s);
            &&& sizes[0] == (SizeChange::Eject { window: w, stack: s })
            &&& 0 <= k < others.len() ==> sizes[1 + k] == (SizeChange::Divide { target: others[k] })
            &&& m[s].children.len() > 2 ==> sizes.len() == 1 + others.len()
            &&& m[s].children.len() <= 2 ==> {
                let left = tiling_children(crate::stack::put_before_stack(m, w, s), s);
                &&& sizes.len() == 1 + others.len() + left.len()
                &&& 0 <= k < left.len() ==> sizes[(1 + others.len()) + k] == (SizeChange::Scale {
                    target: left[k],
                    by: s,
                })
            }
        }),
{
}

/// Those that are drawn again with a window that leaves its stack are the window
/// and the others in the stack.
pub proof fn windows_of_a_stack_are_drawn_again(
    m: Nodes,
    w: u128,
    new_id: u128,
    m2: Nodes,
    result: Result<StackChange, StackError>,
    s: u128,
    x: u128,
)
    requires
        wf(m),
        m.contains_key(w),
        m[w].parent == Some(s),
        m[s].kind == ContainerKind::Stack,
        m[s].parent is Some,
        toggle_outcome(m, w, new_id, m2, result),
    ensures
        result is Ok,
        result->Ok_0.redraw@.contains(w),
        m[s].children.contains(x) && m[x].kind == ContainerKind::TilingWindow
            ==> result->Ok_0.redraw@.contains(x),
{
    let others = m[s].children.filter(tiles_beside(m, w));
    let redraw = result->Ok_0.redraw@;
    assert(redraw == seq![w] + others);
    assert(redraw[0] == w);
    let ids = m[s].children;
    if ids.contains(x) && x != w && m[x].kind == ContainerKind::TilingWindow {
        let k = choose|k: int| 0 <= k < ids.len() && ids[k] == x;
        ids.lemma_filter_contains(tiles_beside(m, w), k);
        let j = choose|j: int| 0 <= j < others.len() && others[j] == x;
        assert(redraw[j + 1] == x);
    }
}

} // verus!
