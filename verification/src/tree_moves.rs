//! Moving containers about the tree.

use vstd::prelude::*;

use crate::container::ContainerKind;
use crate::tree::{attached, depth_bound, detached, flattened, focused_leaf, lemma_attached_wf,
    lemma_detached_wf, lemma_flattened_wf, lemma_parent_is_higher, lemma_refocused_wf,
    node_linked, refocused, wf, Nodes, Tree};

verus! {

/// The topmost ancestor of `id`: `id` itself if it has no parent.
pub open spec fn top(m: Nodes, id: u128) -> u128
    decreases depth_bound(m, id),
    when wf(m) && m.contains_key(id)
    via top_decreases
{
    match m[id].parent {
        None => id,
        Some(p) => top(m, p),
    }
}

#[via_fn]
proof fn top_decreases(m: Nodes, id: u128) {
    if m[id].parent is Some {
        lemma_parent_is_higher(m, id);
    }
}

/// Whether the container at `id` is the focused one of its tree.
pub open spec fn has_focus(m: Nodes, id: u128) -> bool {
    focused_leaf(m, top(m, id)) == id
}

/// Whether the container at `id` serves only to group its children.
pub open spec fn is_grouping(m: Nodes, id: u128) -> bool {
    m[id].kind == ContainerKind::Split || m[id].kind == ContainerKind::Stack
}

/// The tree after `c` has become child `i` of `p`, last in its focus order,
/// with the group that it left taken out if it was the last of it.
pub open spec fn rehung(m: Nodes, c: u128, p: u128, i: int) -> Nodes {
    let q = m[c].parent->0;
    let d = detached(m, c);
    let a = attached(d, c, p, i, d[p].focus_order.len() as int);
    if q != p && is_grouping(m, q) && m[q].children.len() == 1 && m[q].parent is Some {
        flattened(a, q)
    } else {
        a
    }
}

/// The tree after the window at `c` has been moved to be child `i` of `p`. A
/// window that holds the focus keeps it.
pub open spec fn relocated(m: Nodes, c: u128, p: u128, i: int) -> Nodes {
    if has_focus(m, c) {
        refocused(rehung(m, c, p, i), c)
    } else {
        rehung(m, c, p, i)
    }
}

/// Whether the container at `c` can be moved into the one at `p`, to place `i`.
pub open spec fn can_relocate(m: Nodes, c: u128, p: u128, i: int) -> bool {
    &&& m.contains_key(c)
    &&& m.contains_key(p)
    &&& c != p
    &&& m[c].parent is Some
    &&& m[c].children.len() == 0
    &&& !m[p].kind.spec_is_window()
    &&& 0 <= i <= m[p].children.len()
    &&& m[c].parent == Some(p) ==> i < m[p].children.len()
}

pub proof fn lemma_rehung_wf(m: Nodes, c: u128, p: u128, i: int)
    requires
        wf(m),
        can_relocate(m, c, p, i),
    ensures
        wf(rehung(m, c, p, i)),
        rehung(m, c, p, i).contains_key(c),
        rehung(m, c, p, i).contains_key(p),
        rehung(m, c, p, i)[c].parent == Some(p),
        rehung(m, c, p, i)[c].children.len() == 0,
{
    let q = m[c].parent->0;
    let d = detached(m, c);
    lemma_detached_wf(m, c);
    lemma_parent_is_higher(m, c);
    assert(node_linked(m, q));
    assert(node_linked(m, p));
    if q == p {
        crate::tree::lemma_without(m[q].children, c);
    }
    let a = attached(d, c, p, i, d[p].focus_order.len() as int);
    lemma_attached_wf(d, c, p, i, d[p].focus_order.len() as int);
    if q != p && is_grouping(m, q) && m[q].children.len() == 1 && m[q].parent is Some {
        crate::tree::lemma_without(m[q].children, c);
        assert(a[q].children == crate::tree::without(m[q].children, c));
        assert(a[q].children.len() == 0);
        assert(a[q].parent == m[q].parent);
        lemma_flattened_wf(a, q);
        assert(!a[q].children.contains(c));
    }
}

pub proof fn lemma_relocated_wf(m: Nodes, c: u128, p: u128, i: int)
    requires
        wf(m),
        can_relocate(m, c, p, i),
    ensures
        wf(relocated(m, c, p, i)),
        relocated(m, c, p, i).contains_key(c),
        relocated(m, c, p, i).contains_key(p),
        relocated(m, c, p, i)[c].parent == Some(p),
        relocated(m, c, p, i).dom() == rehung(m, c, p, i).dom(),
{
    lemma_rehung_wf(m, c, p, i);
    lemma_refocused_wf(rehung(m, c, p, i), c);
}

impl Tree {
    /// The topmost ancestor of the container at `id`.
    pub fn top(&self, id: u128) -> (result: u128)
        requires
            wf(self@),
            self@.contains_key(id),
        ensures
            result == top(self@, id),
            self@.contains_key(result),
            self@[result].parent is None,
    {
        let ghost m = self@;
        let mut cur: u128 = id;
        loop
            invariant
                m == self@,
                wf(m),
                m.contains_key(cur),
                top(m, cur) == top(m, id),
            decreases depth_bound(m, cur),
        {
            match self.get(cur).parent {
                None => {
                    return cur;
                },
                Some(p) => {
                    proof {
                        lemma_parent_is_higher(m, cur);
                    }
                    cur = p;
                },
            }
        }
    }

    /// Whether the container at `id` is the focused one of its tree.
    pub fn has_focus(&self, id: u128) -> (result: bool)
        requires
            wf(self@),
            self@.contains_key(id),
        ensures
            result == has_focus(self@, id),
    {
        let root: u128 = self.top(id);
        self.focused_leaf(root) == id
    }

    /// Moves the childless container at `c` into the one at `p`, to place `i`
    /// among its children.
    pub fn move_container_within_tree(&mut self, c: u128, p: u128, i: usize)
        requires
            wf(old(self)@),
            can_relocate(old(self)@, c, p, i as int),
        ensures
            wf(final(self)@),
            final(self)@ == relocated(old(self)@, c, p, i as int),
            final(self)@.contains_key(c),
            final(self)@.contains_key(p),
            final(self)@[c].parent == Some(p),
    {
        let ghost m = self@;
        let had_focus: bool = self.has_focus(c);
        let q: u128 = self.get(c).parent.unwrap();
        proof {
            lemma_parent_is_higher(m, c);
            assert(node_linked(m, q));
            assert(node_linked(m, p));
            lemma_relocated_wf(m, c, p, i as int);
            lemma_rehung_wf(m, c, p, i as int);
            if q == p {
                crate::tree::lemma_without(m[q].children, c);
            }
        }
        let group = self.get(q);
        let emptied: bool = q != p && (group.kind == ContainerKind::Split || group.kind
            == ContainerKind::Stack) && group.children.len() == 1 && group.parent.is_some();
        self.detach(c);
        let last: usize = self.get(p).focus_order.len();
        self.attach(c, p, i, last);
        if emptied {
            proof {
                lemma_detached_wf(m, c);
                assert(self@[q].parent == m[q].parent);
            }
            self.flatten(q);
        }
        if had_focus {
            self.set_focused_descendant(c);
        }
    }
}

} // verus!
