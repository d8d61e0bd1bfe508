//! What commands on the tree keep and undo.

use vstd::prelude::*;

use crate::container::ContainerKind;
use crate::stack::{cycle_target, ejected, put_before_stack, stacked};
use crate::tree::{attached, depth_bound, descendant_focus_order, descendants, descendants_from,
    detached, flattened, focused_leaf, lemma_child_is_lower, lemma_index_of,
    lemma_parent_is_higher, lemma_refocused_wf, lemma_to_front, lineage, nearest_direction,
    node_linked, refocused, refocusing_leads_to_the_container, splice, step_below, to_front, wf, Nodes};
use crate::tree_moves::{can_relocate, has_focus, lemma_rehung_wf, rehung, relocated, top};

verus! {

proof fn lemma_splice_index(ids: Seq<u128>, i: int, s: u128)
    requires
        0 <= i < ids.len(),
        ids.no_duplicates(),
        !ids.contains(s),
    ensures
        splice(ids, i, seq![s]) == ids.update(i, s),
        splice(ids, i, seq![s]).index_of(s) == i,
{
    let w = splice(ids, i, seq![s]);
    assert(w =~= ids.update(i, s));
    assert(w.no_duplicates()) by {
        assert forall|a: int, b: int| 0 <= a < w.len() && 0 <= b < w.len() && a != b implies w[a]
            != w[b] by {
            if a == i {
                assert(ids.contains(ids[b]));
            } else if b == i {
                assert(ids.contains(ids[a]));
            }
        }
    }
    assert(w[i] == s);
    lemma_index_of(w, s, i);
}

/// Putting a window into a new stack and then taking the stack out again leaves
/// the tree as it was.
pub proof fn flattening_undoes_stacking(m: Nodes, s: u128, name: Option<Seq<char>>, w: u128)
    requires
        wf(m),
        m.contains_key(w),
        m[w].parent is Some,
        !m.contains_key(s),
    ensures
        flattened(stacked(m, s, name, w), s) == m,
{
    let p = m[w].parent->0;
    lemma_parent_is_higher(m, w);
    assert(node_linked(m, p));
    assert(node_linked(m, w));
    assert(m[p].focus_order.contains(w) <==> m[p].children.contains(w));
    let i = m[p].children.index_of(w);
    let fi = m[p].focus_order.index_of(w);
    assert(!m[p].children.contains(s));
    assert(m[p].focus_order.contains(s) <==> m[p].children.contains(s));
    lemma_splice_index(m[p].children, i, s);
    lemma_splice_index(m[p].focus_order, fi, s);
    let a = stacked(m, s, name, w);
    let f = flattened(a, s);
    assert(a[p].children == m[p].children.update(i, s));
    assert(a[s].children == seq![w]);
    assert(f[p].children =~= m[p].children);
    assert(f[p].focus_order =~= m[p].focus_order);
    assert(f.dom() =~= m.dom());
    assert(a[s].children[0] == w);
    assert(a[s].children.contains(w));
    assert forall|x: u128| #[trigger] m.contains_key(x) implies f[x] == m[x] by {
        if a[s].children.contains(x) {
            assert(x == w);
        }
    }
    assert(f =~= m);
}

/// Toggling a window into a new stack and toggling it again leaves the tree as
/// it was.
pub proof fn toggling_twice_restores(m: Nodes, s: u128, w: u128)
    requires
        wf(m),
        m.contains_key(w),
        m[w].parent is Some,
        !m.contains_key(s),
    ensures
        ejected(stacked(m, s, None, w), w, s) == m,
{
    let p = m[w].parent->0;
    lemma_parent_is_higher(m, w);
    assert(node_linked(m, p));
    assert(node_linked(m, w));
    assert(m[p].focus_order.contains(w) <==> m[p].children.contains(w));
    let i = m[p].children.index_of(w);
    let fi = m[p].focus_order.index_of(w);
    assert(!m[p].children.contains(s));
    assert(m[p].focus_order.contains(s) <==> m[p].children.contains(s));
    lemma_splice_index(m[p].children, i, s);
    lemma_splice_index(m[p].focus_order, fi, s);
    let a = stacked(m, s, None, w);
    let one = seq![w];
    assert(one[0] == w);
    lemma_index_of(one, w, 0);
    let d = detached(a, w);
    assert(a[w].parent == Some(s));
    assert(d[s].children =~= Seq::<u128>::empty());
    assert(d[s].focus_order =~= Seq::<u128>::empty());
    let b = put_before_stack(a, w, s);
    assert(a[s].parent == Some(p));
    assert(b[p].children == m[p].children.update(i, s).insert(i, w));
    assert(b[p].focus_order == m[p].focus_order.update(fi, s).insert(fi, w));
    assert(b[s].children =~= Seq::<u128>::empty());
    let bc = b[p].children;
    let bf = b[p].focus_order;
    assert(bc[i] == w && bc[i + 1] == s);
    assert(bf[fi] == w && bf[fi + 1] == s);
    crate::tree::lemma_insert(m[p].children, i + 1, s);
    assert(bc =~= m[p].children.insert(i + 1, s));
    lemma_index_of(bc, s, i + 1);
    crate::tree::lemma_insert(m[p].focus_order, fi + 1, s);
    assert(bf =~= m[p].focus_order.insert(fi + 1, s));
    lemma_index_of(bf, s, fi + 1);
    let f = flattened(b, s);
    assert(f[p].children =~= m[p].children);
    assert(f[p].focus_order =~= m[p].focus_order);
    assert(f.dom() =~= m.dom());
    assert forall|x: u128| #[trigger] m.contains_key(x) implies f[x] == m[x] by {
        assert(!b[s].children.contains(x));
    }
    assert(f =~= m);
}

/// A window that leaves a stack goes to where the stack stood among its
/// siblings. A stack that is left with at most one window is gone, and that
/// window comes right after.
pub proof fn leaving_a_stack_takes_its_place(m: Nodes, w: u128, s: u128)
    requires
        wf(m),
        m.contains_key(w),
        m[w].parent == Some(s),
        m[s].parent is Some,
    ensures
        ({
            let e = ejected(m, w, s);
            let p = m[s].parent->0;
            let i = m[p].children.index_of(s);
            &&& e[w].parent == Some(p)
            &&& e[p].children.index_of(w) == i
            &&& if m[s].children.len() <= 2 {
                &&& !e.contains_key(s)
                &&& forall|c: u128| #[trigger]
                    m[s].children.contains(c) && c != w ==> e[c].parent == Some(p)
                        && e[p].children[i + 1] == c
            } else {
                e[p].children[i + 1] == s
            }
        }),
{
    let p = m[s].parent->0;
    lemma_parent_is_higher(m, w);
    lemma_parent_is_higher(m, s);
    assert(node_linked(m, p));
    assert(node_linked(m, s));
    assert(node_linked(m, w));
    assert(s != p && w != p && w != s);
    let i = m[p].children.index_of(s);
    let d = detached(m, w);
    assert(d[p] == m[p]);
    assert(!m[p].children.contains(w));
    let b = put_before_stack(m, w, s);
    crate::tree::lemma_insert(m[p].children, i, w);
    let bc = b[p].children;
    assert(bc == m[p].children.insert(i, w));
    assert(bc[i] == w && bc[i + 1] == s);
    lemma_index_of(bc, w, i);
    lemma_index_of(bc, s, i + 1);
    crate::tree::lemma_without(m[s].children, w);
    let left = b[s].children;
    assert(left == crate::tree::without(m[s].children, w));
    if m[s].children.len() <= 2 {
        let f = flattened(b, s);
        let fc = f[p].children;
        assert(fc == splice(bc, i + 1, left));
        assert(fc[i] == w);
        assert(f[w].parent == Some(p)) by {
            assert(b[w].parent == Some(p));
        }
        assert(fc.index_of(w) == i) by {
            assert forall|k: int| 0 <= k < fc.len() && fc[k] == w implies k == i by {
                if k < i {
                    assert(fc[k] == bc[k]);
                } else if i < k <= i + left.len() {
                    assert(left.contains(fc[k])) by {
                        assert(fc[k] == left[k - i - 1]);
                    }
                } else if k > i + left.len() {
                    assert(fc[k] == bc[k - left.len() + 1]);
                }
            }
            assert(fc.contains(w));
        }
        assert forall|c: u128| #[trigger] m[s].children.contains(c) && c != w implies f[c].parent
            == Some(p) && fc[i + 1] == c by {
            assert(left.contains(c));
            lemma_child_is_lower(m, s, c);
            assert(left.len() == 1);
            assert(left[0] == c);
        }
    }
}

/// In a stack, the step back undoes the step on.
pub proof fn cycling_back_undoes_cycling(m: Nodes, s: u128)
    requires
        wf(m),
        m.contains_key(s),
        m[s].children.len() > 0,
    ensures
        cycle_target(refocused(m, cycle_target(m, s, false)), s, true) == m[s].focus_order[0],
{
    assert(node_linked(m, s));
    let n = m[s].children.len() as int;
    assert(m[s].children.contains(m[s].children[0]));
    assert(m[s].focus_order.contains(m[s].children[0]));
    let front = m[s].focus_order[0];
    assert(m[s].focus_order.contains(front));
    assert(m[s].children.contains(front));
    let i = m[s].children.index_of(front);
    let j = (i + 1) % n;
    vstd::arithmetic::div_mod::lemma_mod_bound(i + 1, n);
    let next = m[s].children[j];
    assert(m[s].children.contains(next));
    lemma_child_is_lower(m, s, next);
    lemma_index_of(m[s].children, next, j);
    assert(m[s].focus_order.contains(next));
    lemma_to_front(m[s].focus_order, next);
    let d = refocused(m, next);
    assert(step_below(m, next, s) == Some(next));
    assert(d[s].focus_order == to_front(m[s].focus_order, next));
    assert(d[s].children == m[s].children);
    assert((j + n - 1) % n == i) by {
        if i + 1 < n {
            vstd::arithmetic::div_mod::lemma_small_mod((i + 1) as nat, n as nat);
            vstd::arithmetic::div_mod::lemma_mod_add_multiples_vanish(i, n);
            vstd::arithmetic::div_mod::lemma_small_mod(i as nat, n as nat);
            assert(j + n - 1 == n + i);
        } else {
            vstd::arithmetic::div_mod::lemma_mod_self_0(n);
            vstd::arithmetic::div_mod::lemma_small_mod((n - 1) as nat, n as nat);
        }
    }
}

proof fn lemma_top_in_lineage(m: Nodes, id: u128)
    requires
        wf(m),
        m.contains_key(id),
    ensures
        lineage(m, id).contains(top(m, id)),
        lineage(m, id).len() > 0,
    decreases depth_bound(m, id),
{
    if m[id].parent is Some {
        let p = m[id].parent->0;
        lemma_parent_is_higher(m, id);
        lemma_top_in_lineage(m, p);
        let l = lineage(m, p);
        let k = choose|k: int| 0 <= k < l.len() && l[k] == top(m, p);
        assert(lineage(m, id) == seq![id] + l);
        assert(lineage(m, id)[k + 1] == top(m, id));
    } else {
        assert(lineage(m, id)[0] == id);
    }
}

proof fn lemma_refocused_top(m: Nodes, id: u128, x: u128)
    requires
        wf(m),
        m.contains_key(id),
        m.contains_key(x),
    ensures
        top(refocused(m, id), x) == top(m, x),
    decreases depth_bound(m, x),
{
    lemma_refocused_wf(m, id);
    if m[x].parent is Some {
        lemma_parent_is_higher(m, x);
        lemma_refocused_top(m, id, m[x].parent->0);
    }
}

/// A childless container that is given the focus has it.
pub proof fn refocusing_gives_focus(m: Nodes, id: u128)
    requires
        wf(m),
        m.contains_key(id),
        m[id].children.len() == 0,
    ensures
        has_focus(refocused(m, id), id),
{
    assert(node_linked(m, id));
    if m[id].focus_order.len() > 0 {
        assert(m[id].focus_order.contains(m[id].focus_order[0]));
        assert(m[id].children.contains(m[id].focus_order[0]));
    }
    lemma_top_in_lineage(m, id);
    refocusing_leads_to_the_container(m, id, top(m, id));
    lemma_refocused_top(m, id, id);
}

/// A window that holds the focus still holds it after a move.
pub proof fn moving_keeps_focus(m: Nodes, c: u128, p: u128, i: int)
    requires
        wf(m),
        can_relocate(m, c, p, i),
        has_focus(m, c),
    ensures
        has_focus(relocated(m, c, p, i), c),
{
    lemma_rehung_wf(m, c, p, i);
    refocusing_gives_focus(rehung(m, c, p, i), c);
}

/// Putting a container back to where it stood undoes taking it out.
pub proof fn attaching_undoes_detaching(m: Nodes, id: u128)
    requires
        wf(m),
        m.contains_key(id),
        m[id].parent is Some,
    ensures
        ({
            let p = m[id].parent->0;
            let d = detached(m, id);
            &&& d[id].parent is None
            &&& !d[p].children.contains(id)
            &&& !d[p].focus_order.contains(id)
            &&& attached(
                d,
                id,
                p,
                m[p].children.index_of(id),
                m[p].focus_order.index_of(id),
            ) == m
        }),
{
    let p = m[id].parent->0;
    lemma_parent_is_higher(m, id);
    assert(node_linked(m, p));
    assert(node_linked(m, id));
    assert(m[p].focus_order.contains(id));
    crate::tree::lemma_without(m[p].children, id);
    crate::tree::lemma_without(m[p].focus_order, id);
    let i = m[p].children.index_of(id);
    let fi = m[p].focus_order.index_of(id);
    let a = attached(detached(m, id), id, p, i, fi);
    assert(a[p].children =~= m[p].children);
    assert(a[p].focus_order =~= m[p].focus_order);
    assert(a[p] == m[p]);
    assert(a[id] == m[id]);
    assert(a =~= m);
}

/// A container that is attached stands at its place among the children of its
/// new parent. Those before it stay where they are, and those after it move on.
pub proof fn attached_containers_stand_at_their_place(
    m: Nodes,
    id: u128,
    p: u128,
    i: int,
    fi: int,
    k: int,
    x: u128,
)
    requires
        id != p,
        0 <= i <= m[p].children.len(),
        0 <= fi <= m[p].focus_order.len(),
    ensures
        ({
            let a = attached(m, id, p, i, fi);
            &&& a[id].parent == Some(p)
            &&& a[id].children == m[id].children
            &&& a[p].children[i] == id
            &&& a[p].focus_order[fi] == id
            &&& a[p].children.len() == m[p].children.len() + 1
            &&& a[p].focus_order.len() == m[p].focus_order.len() + 1
            &&& 0 <= k < i ==> a[p].children[k] == m[p].children[k]
            &&& i <= k < m[p].children.len() ==> a[p].children[k + 1] == m[p].children[k]
            &&& 0 <= k < fi ==> a[p].focus_order[k] == m[p].focus_order[k]
            &&& fi <= k < m[p].focus_order.len() ==> a[p].focus_order[k + 1]
                == m[p].focus_order[k]
            &&& x != id && x != p ==> a[x] == m[x] && a.contains_key(x) == m.contains_key(x)
        }),
{
}

/// Giving a container the focus puts it first among its siblings, which keep
/// their order otherwise, and the same holds of each container above it. Nothing
/// moves on the screen, and what is not above it stays as it is.
pub proof fn only_the_way_to_the_focus_changes(m: Nodes, id: u128, x: u128)
    requires
        wf(m),
        m.contains_key(id),
        m.contains_key(x),
    ensures
        ({
            let f = refocused(m, id);
            &&& f[x].children == m[x].children
            &&& f[x].parent == m[x].parent
            &&& f[x].kind == m[x].kind
            &&& m[id].parent == Some(x) ==> f[x].focus_order == seq![id]
                + m[x].focus_order.remove(m[x].focus_order.index_of(id))
            &&& f[x].focus_order != m[x].focus_order ==> lineage(m, id).contains(x)
            &&& f[id] == m[id]
        }),
{
    lemma_step_below_in_lineage(m, id, x);
    lemma_step_below_in_lineage(m, id, id);
    if step_below(m, id, id) is Some {
        crate::tree::lemma_step_below(m, id, id);
    }
}

proof fn lemma_step_below_in_lineage(m: Nodes, id: u128, x: u128)
    requires
        wf(m),
        m.contains_key(id),
    ensures
        step_below(m, id, x) is Some ==> lineage(m, id).contains(x),
    decreases depth_bound(m, id),
{
    if m[id].parent is Some {
        let p = m[id].parent->0;
        lemma_parent_is_higher(m, id);
        lemma_step_below_in_lineage(m, p, x);
        assert(lineage(m, id) == seq![id] + lineage(m, p));
        if p == x {
            lemma_top_in_lineage(m, p);
            lineages_lead_up(m, p, 0);
            assert(lineage(m, id)[1] == x);
        } else if step_below(m, p, x) is Some {
            let l = lineage(m, p);
            let k = choose|k: int| 0 <= k < l.len() && l[k] == x;
            assert(lineage(m, id)[k + 1] == x);
        }
    }
}

/// A lineage starts with the container itself, goes on with the parent of each
/// member, and ends with one that has no parent: the top.
pub proof fn lineages_lead_up(m: Nodes, id: u128, k: int)
    requires
        wf(m),
        m.contains_key(id),
    ensures
        lineage(m, id).len() > 0,
        lineage(m, id)[0] == id,
        0 <= k < lineage(m, id).len() ==> m.contains_key(lineage(m, id)[k]),
        m.contains_key(top(m, id)),
        0 <= k < lineage(m, id).len() - 1 ==> m[lineage(m, id)[k]].parent == Some(
            lineage(m, id)[k + 1],
        ),
        m[lineage(m, id).last()].parent is None,
        top(m, id) == lineage(m, id).last(),
    decreases depth_bound(m, id),
{
    if m[id].parent is Some {
        let p = m[id].parent->0;
        lemma_parent_is_higher(m, id);
        lineages_lead_up(m, p, k - 1);
        assert(lineage(m, id) == seq![id] + lineage(m, p));
        assert(lineage(m, p).last() == lineage(m, id).last());
    }
}

/// The focus of a tree leads to a container exactly if it, and everything above
/// it, comes first among its siblings, and it has no children.
pub proof fn the_focus_is_first_all_the_way(m: Nodes, id: u128)
    requires
        wf(m),
        m.contains_key(id),
    ensures
        has_focus(m, id) ==> m[id].children.len() == 0,
        m[id].focus_order.len() == 0 ==> focused_leaf(m, id) == id,
        m[id].focus_order.len() > 0 ==> focused_leaf(m, id) == focused_leaf(
            m,
            m[id].focus_order[0],
        ),
        m[id].children.len() == 0 && m[id].parent is None ==> has_focus(m, id),
        m[id].parent matches Some(p) ==> (m[p].focus_order[0] == id && m[p].parent is None
            && m[id].children.len() == 0 ==> has_focus(m, id)),
{
    assert(node_linked(m, id));
    lineages_lead_up(m, id, 0);
    lemma_leaves_are_childless(m, top(m, id));
    if m[id].focus_order.len() > 0 {
        assert(m[id].focus_order.contains(m[id].focus_order[0]));
        assert(m[id].children.contains(m[id].focus_order[0]));
    } else {
        assert(focused_leaf(m, id) == id);
    }
    if m[id].parent is Some {
        let p = m[id].parent->0;
        lemma_parent_is_higher(m, id);
        assert(node_linked(m, p));
        assert(m[p].focus_order.contains(id));
        if m[p].parent is None {
            assert(top(m, p) == p);
            assert(top(m, id) == p);
        }
    }
}

proof fn lemma_leaves_are_childless(m: Nodes, id: u128)
    requires
        wf(m),
        m.contains_key(id),
    ensures
        m[focused_leaf(m, id)].children.len() == 0,
    decreases crate::tree::height(m, id),
{
    assert(node_linked(m, id));
    if m[id].focus_order.len() > 0 {
        let c = m[id].focus_order[0];
        assert(m[id].focus_order.contains(c));
        lemma_child_is_lower(m, id, c);
        lemma_leaves_are_childless(m, c);
    } else if m[id].children.len() > 0 {
        assert(m[id].children.contains(m[id].children[0]));
        assert(m[id].focus_order.contains(m[id].children[0]));
    }
}

/// Each child comes before what is below it, and that comes before the next
/// child.
pub proof fn descendants_come_after_their_parents(m: Nodes, id: u128, i: int)
    requires
        wf(m),
        m.contains_key(id),
        0 <= i,
    ensures
        i >= m[id].children.len() ==> descendants_from(m, id, i) == Seq::<u128>::empty(),
        i < m[id].children.len() ==> descendants_from(m, id, i) == seq![m[id].children[i]]
            + descendants(m, m[id].children[i]) + descendants_from(m, id, i + 1),
        descendants(m, id) == descendants_from(m, id, 0),
{
    if i < m[id].children.len() {
        let c = m[id].children[i];
        assert(m[id].children.contains(c));
        lemma_child_is_lower(m, id, c);
        assert(descendants_from(m, id, i) == seq![c] + descendants_from(m, c, 0)
            + descendants_from(m, id, i + 1));
    }
}

/// The childless containers below a child come before those of the children that
/// had the focus longer ago.
pub proof fn recent_leaves_come_first(m: Nodes, id: u128, i: int)
    requires
        wf(m),
        m.contains_key(id),
        0 <= i < m[id].focus_order.len(),
    ensures
        ({
            let c = m[id].focus_order[i];
            crate::tree::focus_leaves_from(m, id, i) == (if m[c].children.len() == 0 {
                seq![c]
            } else {
                descendant_focus_order(m, c)
            }) + crate::tree::focus_leaves_from(m, id, i + 1)
        }),
        descendant_focus_order(m, id) == crate::tree::focus_leaves_from(m, id, 0),
        crate::tree::focus_leaves_from(m, id, m[id].focus_order.len() as int)
            == Seq::<u128>::empty(),
{
    let c = m[id].focus_order[i];
    assert(m[id].focus_order.contains(c));
    lemma_child_is_lower(m, id, c);
    assert(node_linked(m, c));
    if m[c].focus_order.len() > 0 {
        assert(m[c].focus_order.contains(m[c].focus_order[0]));
        assert(m[c].children.contains(m[c].focus_order[0]));
    } else if m[c].children.len() > 0 {
        assert(m[c].children.contains(m[c].children[0]));
        assert(m[c].focus_order.contains(m[c].children[0]));
    }
    reveal_with_fuel(crate::tree::focus_leaves_from, 2);
    assert(crate::tree::focus_leaves_from(m, id, i) == crate::tree::focus_leaves_from(m, c, -1)
        + crate::tree::focus_leaves_from(m, id, i + 1));
}

/// A container that is taken out leaves its place to its children, in their
/// order. They hang below its parent then, and nothing else changes.
pub proof fn flattened_containers_leave_their_place(m: Nodes, s: u128, k: int, x: u128)
    requires
        wf(m),
        m.contains_key(s),
        m[s].parent is Some,
        m.contains_key(x),
        x != s,
    ensures
        ({
            let p = m[s].parent->0;
            let i = m[p].children.index_of(s);
            let n = m[s].children.len();
            let f = flattened(m, s);
            &&& !f.contains_key(s)
            &&& f.contains_key(x)
            &&& f[p].children.len() == m[p].children.len() - 1 + n
            &&& 0 <= k < i ==> f[p].children[k] == m[p].children[k]
            &&& 0 <= k < n ==> f[p].children[i + k] == m[s].children[k]
            &&& i < k < m[p].children.len() ==> f[p].children[k - 1 + n] == m[p].children[k]
            &&& m[s].children.contains(x) ==> f[x].parent == Some(p)
            &&& !m[s].children.contains(x) ==> f[x].parent == m[x].parent
            &&& x != p ==> f[x].children == m[x].children && f[x].focus_order == m[x].focus_order
        }),
{
    let p = m[s].parent->0;
    lemma_parent_is_higher(m, s);
    assert(node_linked(m, p));
    assert(node_linked(m, s));
    if m[s].children.contains(p) {
        lemma_child_is_lower(m, s, p);
    }
}

/// A container that is put around another takes its place, and holds it alone.
pub proof fn wrapped_containers_are_held_alone(m: Nodes, s: u128, c: u128, k: int, x: u128)
    requires
        wf(m),
        m.contains_key(c),
        m[c].parent is Some,
        m[c].parent != Some(s),
        s != c,
    ensures
        ({
            let p = m[c].parent->0;
            let i = m[p].children.index_of(c);
            let fi = m[p].focus_order.index_of(c);
            let w = crate::tree::wrapped(m, s, c);
            &&& w[c].parent == Some(s)
            &&& w[s].parent == Some(p)
            &&& w[s].children == seq![c]
            &&& w[s].focus_order == seq![c]
            &&& w[p].children == m[p].children.update(i, s)
            &&& w[p].focus_order == m[p].focus_order.update(fi, s)
            &&& x != p && x != s && x != c ==> w[x] == m[x]
        }),
{
    let p = m[c].parent->0;
    lemma_parent_is_higher(m, c);
    assert(node_linked(m, p));
    assert(node_linked(m, c));
    assert(m[p].focus_order.contains(c));
    let i = m[p].children.index_of(c);
    let fi = m[p].focus_order.index_of(c);
    assert(splice(m[p].children, i, seq![s]) =~= m[p].children.update(i, s));
    assert(splice(m[p].focus_order, fi, seq![s]) =~= m[p].focus_order.update(fi, s));
}

/// A window that is moved stands at its place among the children of its new
/// parent, and comes last in the focus order unless it has the focus. A split or
/// stack that it was alone in is gone, and nothing else that it leaves is.
pub proof fn moved_windows_stand_at_their_place(m: Nodes, c: u128, p: u128, i: int)
    requires
        wf(m),
        can_relocate(m, c, p, i),
    ensures
        ({
            let r = relocated(m, c, p, i);
            let q = m[c].parent->0;
            let is_emptied = q != p && (m[q].kind == ContainerKind::Split || m[q].kind
                == ContainerKind::Stack) && m[q].children.len() == 1 && m[q].parent is Some;
            &&& r.contains_key(q) <==> !is_emptied
            &&& !is_emptied || m[q].parent != Some(p) ==> r[p].children[i] == c
            &&& i == 0 ==> r[p].children[0] == c
            &&& i == m[p].children.len() ==> r[p].children.last() == c
            &&& !has_focus(m, c) ==> r[p].focus_order.last() == c
            &&& r[c].parent == Some(p)
        }),
{
    let q = m[c].parent->0;
    lemma_parent_is_higher(m, c);
    assert(node_linked(m, q));
    assert(node_linked(m, p));
    assert(node_linked(m, c));
    crate::tree::lemma_without(m[q].children, c);
    crate::tree::lemma_detached_wf(m, c);
    lemma_rehung_wf(m, c, p, i);
    let d = detached(m, c);
    let a = attached(d, c, p, i, d[p].focus_order.len() as int);
    let h = rehung(m, c, p, i);
    lemma_refocused_wf(h, c);
    let ac = a[p].children;
    let af = a[p].focus_order;
    assert(ac[i] == c);
    assert(af.last() == c);
    if i == m[p].children.len() {
        assert(q != p);
        assert(ac.last() == c);
    }
    let is_emptied = q != p && (m[q].kind == ContainerKind::Split || m[q].kind
        == ContainerKind::Stack) && m[q].children.len() == 1 && m[q].parent is Some;
    if is_emptied {
        assert(a[q].children.len() == 0);
        assert(h == flattened(a, q));
        assert(!a[q].children.contains(p));
        assert(!a[q].children.contains(c));
        if m[q].parent == Some(p) {
            assert(m[p].children.contains(q));
            let j = m[p].children.index_of(q);
            assert(ac[if j < i { j } else { j + 1 }] == q);
            assert(ac.contains(q));
            let k = ac.index_of(q);
            assert(ac[k] == q);
            assert(h[p].children == splice(ac, k, a[q].children));
            assert(m[p].focus_order.contains(q));
            assert(af[m[p].focus_order.index_of(q)] == q);
            let fk = af.index_of(q);
            assert(af[fk] == q);
            assert(node_linked(m, q));
            assert(a[q].focus_order.len() == 0) by {
                crate::tree::lemma_without(m[q].focus_order, c);
                if a[q].focus_order.len() > 0 {
                    let y = a[q].focus_order[0];
                    assert(a[q].focus_order.contains(y));
                    assert(m[q].focus_order.contains(y) && y != c);
                    assert(m[q].children.contains(y));
                    assert(m[q].children[0] == c);
                }
            }
            assert(h[p].focus_order == splice(af, fk, a[q].focus_order));
        } else {
            assert(h[p].children == ac);
        }
    }
}

/// The container that lays another one out is the nearest workspace or split at
/// or above it.
pub proof fn layouts_come_from_the_nearest(m: Nodes, id: u128)
    requires
        wf(m),
        m.contains_key(id),
    ensures
        m[id].kind == ContainerKind::Workspace || m[id].kind == ContainerKind::Split
            ==> nearest_direction(m, id) == Some(id),
        m[id].kind != ContainerKind::Workspace && m[id].kind != ContainerKind::Split ==> (
        match m[id].parent {
            None => nearest_direction(m, id) is None,
            Some(p) => nearest_direction(m, id) == nearest_direction(m, p),
        }),
{
    if m[id].parent is Some {
        lemma_parent_is_higher(m, id);
    }
}

} // verus!
