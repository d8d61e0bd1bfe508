//! What walks over the tree visit: everything below their start, each
//! container once.

use vstd::prelude::*;

use crate::tree::{depth_bound, descendant_focus_order, descendants, descendants_from,
    focus_leaves_from, height, lemma_child_is_lower, lemma_parent_is_higher, lineage, node_linked,
    wf, Nodes};

verus! {

/// Whether the container at `x` is the one at `a` or stands below it.
pub open spec fn is_within(m: Nodes, x: u128, a: u128) -> bool {
    m.contains_key(x) && lineage(m, x).contains(a)
}

pub proof fn lemma_within_step(m: Nodes, x: u128, a: u128)
    requires
        wf(m),
        m.contains_key(x),
    ensures
        is_within(m, x, a) <==> (a == x || (m[x].parent is Some && is_within(
            m,
            m[x].parent->0,
            a,
        ))),
{
    let l = lineage(m, x);
    match m[x].parent {
        None => {
            assert(l == seq![x]);
            assert(l[0] == x);
        },
        Some(p) => {
            lemma_parent_is_higher(m, x);
            let r = lineage(m, p);
            assert(l == seq![x] + r);
            assert(l[0] == x);
            if l.contains(a) && a != x {
                let k = choose|k: int| 0 <= k < l.len() && l[k] == a;
                assert(r[k - 1] == a);
            }
            if r.contains(a) {
                let k = choose|k: int| 0 <= k < r.len() && r[k] == a;
                assert(l[k + 1] == a);
            }
        },
    }
}

pub proof fn lemma_within_height(m: Nodes, x: u128, a: u128)
    requires
        wf(m),
        is_within(m, x, a),
    ensures
        m.contains_key(a),
        a == x || height(m, a) > height(m, x),
    decreases depth_bound(m, x),
{
    lemma_within_step(m, x, a);
    if a != x {
        let p = m[x].parent->0;
        lemma_parent_is_higher(m, x);
        lemma_child_is_lower(m, p, x);
        lemma_within_height(m, p, a);
    }
}

/// No container stands within two siblings at once.
pub proof fn lemma_within_one_sibling(m: Nodes, x: u128, id: u128, c1: u128, c2: u128)
    requires
        wf(m),
        m.contains_key(id),
        m[id].children.contains(c1),
        m[id].children.contains(c2),
        is_within(m, x, c1),
        is_within(m, x, c2),
    ensures
        c1 == c2,
    decreases depth_bound(m, x),
{
    lemma_child_is_lower(m, id, c1);
    lemma_child_is_lower(m, id, c2);
    lemma_within_step(m, x, c1);
    lemma_within_step(m, x, c2);
    if c1 != c2 {
        if x == c1 {
            lemma_within_height(m, id, c2);
        } else if x == c2 {
            lemma_within_height(m, id, c1);
        } else {
            lemma_parent_is_higher(m, x);
            lemma_within_one_sibling(m, m[x].parent->0, id, c1, c2);
        }
    }
}

/// What stands below a container stands within one of its children.
pub proof fn lemma_within_child(m: Nodes, x: u128, c: u128) -> (k: u128)
    requires
        wf(m),
        is_within(m, x, c),
        x != c,
    ensures
        m[c].children.contains(k),
        m[c].focus_order.contains(k),
        is_within(m, x, k),
    decreases depth_bound(m, x),
{
    lemma_within_height(m, x, c);
    lemma_within_step(m, x, c);
    let p = m[x].parent->0;
    lemma_parent_is_higher(m, x);
    assert(node_linked(m, c));
    if p == c {
        lemma_within_step(m, x, x);
        assert(m[c].focus_order.contains(x) <==> m[c].children.contains(x));
        x
    } else {
        let k = lemma_within_child(m, p, c);
        lemma_within_step(m, x, k);
        k
    }
}

proof fn lemma_child_within(m: Nodes, x: u128, c: u128, k: u128)
    requires
        wf(m),
        m.contains_key(c),
        m[c].children.contains(k) || m[c].focus_order.contains(k),
        is_within(m, x, k),
    ensures
        is_within(m, x, c),
        x != c,
    decreases depth_bound(m, x),
{
    lemma_child_is_lower(m, c, k);
    lemma_within_height(m, x, k);
    lemma_within_step(m, x, k);
    lemma_within_step(m, x, c);
    if x == k {
        lemma_within_step(m, c, c);
    } else {
        lemma_parent_is_higher(m, x);
        lemma_child_within(m, m[x].parent->0, c, k);
    }
}

/// Whether `x` stands within one of `ids`, from the one at `i` on.
pub open spec fn within_some(m: Nodes, x: u128, ids: Seq<u128>, i: int) -> bool {
    exists|j: int| i <= j < ids.len() && is_within(m, x, #[trigger] ids[j])
}

proof fn lemma_descendants_members(m: Nodes, id: u128, i: int)
    requires
        wf(m),
        m.contains_key(id),
        0 <= i,
    ensures
        descendants_from(m, id, i).no_duplicates(),
        forall|x: u128| #[trigger]
            descendants_from(m, id, i).contains(x) <==> within_some(m, x, m[id].children, i),
    decreases height(m, id), m[id].children.len() - i,
{
    let ids = m[id].children;
    if i < ids.len() {
        let c = ids[i];
        assert(ids.contains(c));
        lemma_child_is_lower(m, id, c);
        assert(node_linked(m, id));
        lemma_descendants_members(m, c, 0);
        lemma_descendants_members(m, id, i + 1);
        let inner = descendants_from(m, c, 0);
        let rest = descendants_from(m, id, i + 1);
        let w = descendants_from(m, id, i);
        assert(w == seq![c] + inner + rest);
        assert forall|x: u128| #[trigger] inner.contains(x) <==> is_within(m, x, c) && x != c by {
            if within_some(m, x, m[c].children, 0) {
                let j = choose|j: int|
                    0 <= j < m[c].children.len() && is_within(m, x, #[trigger] m[c].children[j]);
                assert(m[c].children.contains(m[c].children[j]));
                lemma_child_within(m, x, c, m[c].children[j]);
            }
            if is_within(m, x, c) && x != c {
                let k = lemma_within_child(m, x, c);
                let j = choose|j: int| 0 <= j < m[c].children.len() && m[c].children[j] == k;
                assert(is_within(m, x, m[c].children[j]));
            }
        }
        assert forall|x: u128| #[trigger] w.contains(x) <==> within_some(m, x, ids, i) by {
            if w.contains(x) {
                let k = choose|k: int| 0 <= k < w.len() && w[k] == x;
                if k == 0 {
                    lemma_within_step(m, c, c);
                    assert(is_within(m, x, ids[i]));
                } else if k < 1 + inner.len() {
                    assert(inner[k - 1] == x);
                    assert(inner.contains(x));
                    assert(is_within(m, x, ids[i]));
                } else {
                    assert(rest[k - 1 - inner.len()] == x);
                    assert(rest.contains(x));
                    let j = choose|j: int| i + 1 <= j < ids.len() && is_within(m, x, #[trigger] ids[j]);
                    assert(is_within(m, x, ids[j]));
                }
            }
            if within_some(m, x, ids, i) {
                let j = choose|j: int| i <= j < ids.len() && is_within(m, x, #[trigger] ids[j]);
                if j == i {
                    if x == c {
                        assert(w[0] == x);
                    } else {
                        assert(inner.contains(x));
                        let q = choose|q: int| 0 <= q < inner.len() && inner[q] == x;
                        assert(w[q + 1] == x);
                    }
                } else {
                    assert(within_some(m, x, ids, i + 1));
                    assert(rest.contains(x));
                    let q = choose|q: int| 0 <= q < rest.len() && rest[q] == x;
                    assert(w[1 + inner.len() + q] == x);
                }
            }
        }
        assert forall|a: int, b: int| 0 <= a < b < w.len() implies w[a] != w[b] by {
            let n = inner.len() as int;
            if a < 1 + n {
                if a > 0 {
                    assert(inner[a - 1] == w[a]);
                    assert(inner.contains(w[a]));
                }
                lemma_within_step(m, c, c);
                assert(is_within(m, w[a], c));
                if b < 1 + n {
                    assert(inner[b - 1] == w[b]);
                    assert(inner.contains(w[b]));
                } else {
                    let x = w[b];
                    assert(rest[b - 1 - n] == x);
                    assert(rest.contains(x));
                    let j = choose|j: int| i + 1 <= j < ids.len() && is_within(m, x, #[trigger] ids[j]);
                    assert(ids.contains(ids[j]));
                    if w[a] == x {
                        lemma_within_one_sibling(m, x, id, c, ids[j]);
                    }
                }
            } else {
                assert(rest[a - 1 - n] == w[a]);
                assert(rest[b - 1 - n] == w[b]);
            }
        }
    }
}

/// A walk over the descendants of a container visits all that stand below it,
/// each once, and nothing else.
pub proof fn descendants_are_all_below(m: Nodes, id: u128, x: u128)
    requires
        wf(m),
        m.contains_key(id),
    ensures
        descendants(m, id).no_duplicates(),
        descendants(m, id).contains(x) <==> is_within(m, x, id) && x != id,
{
    lemma_descendants_members(m, id, 0);
    let ids = m[id].children;
    if within_some(m, x, ids, 0) {
        let j = choose|j: int| 0 <= j < ids.len() && is_within(m, x, #[trigger] ids[j]);
        assert(ids.contains(ids[j]));
        lemma_child_within(m, x, id, ids[j]);
    }
    if is_within(m, x, id) && x != id {
        let k = lemma_within_child(m, x, id);
        let j = choose|j: int| 0 <= j < ids.len() && ids[j] == k;
        assert(is_within(m, x, ids[j]));
    }
}

proof fn lemma_childless(m: Nodes, id: u128)
    requires
        wf(m),
        m.contains_key(id),
    ensures
        m[id].children.len() == 0 <==> m[id].focus_order.len() == 0,
{
    assert(node_linked(m, id));
    if m[id].children.len() > 0 {
        assert(m[id].children.contains(m[id].children[0]));
        assert(m[id].focus_order.contains(m[id].children[0]));
    }
    if m[id].focus_order.len() > 0 {
        assert(m[id].focus_order.contains(m[id].focus_order[0]));
    }
}

proof fn lemma_focus_leaves_members(m: Nodes, id: u128, i: int)
    requires
        wf(m),
        m.contains_key(id),
        -1 <= i,
    ensures
        focus_leaves_from(m, id, i).no_duplicates(),
        forall|x: u128| #[trigger]
            focus_leaves_from(m, id, i).contains(x) <==> m.contains_key(x) && m[x].children.len()
                == 0 && (if i < 0 {
                is_within(m, x, id)
            } else {
                within_some(m, x, m[id].focus_order, i)
            }),
    decreases height(m, id), m[id].focus_order.len() - i,
{
    let ids = m[id].focus_order;
    lemma_childless(m, id);
    let w = focus_leaves_from(m, id, i);
    if i < 0 {
        if ids.len() == 0 {
            assert(w == seq![id]);
            assert(w[0] == id);
            lemma_within_step(m, id, id);
            assert forall|x: u128| #[trigger] w.contains(x) <==> m.contains_key(x)
                && m[x].children.len() == 0 && is_within(m, x, id) by {
                if is_within(m, x, id) && x != id {
                    let k = lemma_within_child(m, x, id);
                }
            }
        } else {
            lemma_focus_leaves_members(m, id, 0);
            assert(w == focus_leaves_from(m, id, 0));
            assert forall|x: u128| #[trigger] w.contains(x) <==> m.contains_key(x)
                && m[x].children.len() == 0 && is_within(m, x, id) by {
                if within_some(m, x, ids, 0) {
                    let j = choose|j: int| 0 <= j < ids.len() && is_within(m, x, #[trigger] ids[j]);
                    assert(ids.contains(ids[j]));
                    lemma_child_within(m, x, id, ids[j]);
                }
                if is_within(m, x, id) && x != id {
                    let k = lemma_within_child(m, x, id);
                    let j = choose|j: int| 0 <= j < ids.len() && ids[j] == k;
                    assert(is_within(m, x, ids[j]));
                }
            }
        }
    } else if i >= ids.len() {
        assert(w == Seq::<u128>::empty());
    } else {
        let c = ids[i];
        assert(ids.contains(c));
        lemma_child_is_lower(m, id, c);
        assert(node_linked(m, id));
        lemma_focus_leaves_members(m, c, -1);
        lemma_focus_leaves_members(m, id, i + 1);
        let inner = focus_leaves_from(m, c, -1);
        let rest = focus_leaves_from(m, id, i + 1);
        assert(w == inner + rest);
        assert forall|x: u128| #[trigger] w.contains(x) <==> m.contains_key(x)
            && m[x].children.len() == 0 && within_some(m, x, ids, i) by {
            if w.contains(x) {
                let k = choose|k: int| 0 <= k < w.len() && w[k] == x;
                if k < inner.len() {
                    assert(inner[k] == x);
                    assert(inner.contains(x));
                    assert(is_within(m, x, ids[i]));
                } else {
                    assert(rest[k - inner.len()] == x);
                    assert(rest.contains(x));
                    let j = choose|j: int| i + 1 <= j < ids.len() && is_within(m, x, #[trigger] ids[j]);
                    assert(is_within(m, x, ids[j]));
                }
            }
            if m.contains_key(x) && m[x].children.len() == 0 && within_some(m, x, ids, i) {
                let j = choose|j: int| i <= j < ids.len() && is_within(m, x, #[trigger] ids[j]);
                if j == i {
                    assert(inner.contains(x));
                    let q = choose|q: int| 0 <= q < inner.len() && inner[q] == x;
                    assert(w[q] == x);
                } else {
                    assert(within_some(m, x, ids, i + 1));
                    assert(rest.contains(x));
                    let q = choose|q: int| 0 <= q < rest.len() && rest[q] == x;
                    assert(w[inner.len() + q] == x);
                }
            }
        }
        assert forall|a: int, b: int| 0 <= a < b < w.len() implies w[a] != w[b] by {
            let n = inner.len() as int;
            if a < n {
                assert(inner[a] == w[a]);
                assert(inner.contains(w[a]));
                if b < n {
                    assert(inner[b] == w[b]);
                } else {
                    let x = w[b];
                    assert(rest[b - n] == x);
                    assert(rest.contains(x));
                    let j = choose|j: int| i + 1 <= j < ids.len() && is_within(m, x, #[trigger] ids[j]);
                    assert(ids.contains(ids[j]));
                    assert(m[id].children.contains(ids[j]));
                    assert(m[id].children.contains(c));
                    if w[a] == x {
                        lemma_within_one_sibling(m, x, id, c, ids[j]);
                    }
                }
            } else {
                assert(rest[a - n] == w[a]);
                assert(rest[b - n] == w[b]);
            }
        }
    }
}

/// The focus order of a container lists all childless containers below it,
/// each once, and nothing else.
pub proof fn focus_order_lists_all_leaves(m: Nodes, id: u128, x: u128)
    requires
        wf(m),
        m.contains_key(id),
    ensures
        descendant_focus_order(m, id).no_duplicates(),
        descendant_focus_order(m, id).contains(x) <==> is_within(m, x, id) && x != id
            && m[x].children.len() == 0,
{
    lemma_focus_leaves_members(m, id, 0);
    let ids = m[id].focus_order;
    if within_some(m, x, ids, 0) {
        let j = choose|j: int| 0 <= j < ids.len() && is_within(m, x, #[trigger] ids[j]);
        assert(ids.contains(ids[j]));
        lemma_child_within(m, x, id, ids[j]);
    }
    if is_within(m, x, id) && x != id {
        let k = lemma_within_child(m, x, id);
        let j = choose|j: int| 0 <= j < ids.len() && ids[j] == k;
        assert(is_within(m, x, ids[j]));
    }
}

} // verus!
