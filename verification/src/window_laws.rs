//! What commands do to the windows of the tree: none is lost, and only what is
//! moved changes its place.

use vstd::prelude::*;

use crate::container::ContainerKind;
use crate::split::{child_splits, collapsed, collapsed_all, is_split_of, is_window_or_split,
    lemma_filter_members, lemma_flattened_keeps, only_split_child, same_axis, windows_and_splits,
    without_redundant_splits};
use crate::stack::{new_stack, stack_of, stacked, with_stack_around};
use crate::tree::{attached, depth_bound, descendants, descendants_from, detached, flattened, height,
    lemma_child_is_lower, lemma_detached_wf, lemma_flattened_wf, lemma_index_of,
    lemma_inserted_wf, lemma_parent_is_higher, lemma_refocused_wf, lemma_relabelled_wf,
    lemma_without, lemma_wrapped_wf, node_linked, refocused, wf, without, Nodes};
use crate::tree_laws::flattening_undoes_stacking;
use crate::tree_moves::{can_relocate, has_focus, is_grouping, lemma_rehung_wf, lemma_relocated_wf,
    rehung, relocated};
use crate::tree_walks::{descendants_are_all_below, is_within, lemma_within_step};
use crate::window_lists::{is_window_in, windows_below};

verus! {

/// The windows below `id`, from child `i` of it on.
pub open spec fn windows_from(m: Nodes, id: u128, i: int) -> Seq<u128>
    decreases height(m, id), m[id].children.len() - i,
    when wf(m) && m.contains_key(id) && 0 <= i
    via windows_from_decreases
{
    if i >= m[id].children.len() {
        Seq::empty()
    } else {
        let c = m[id].children[i];
        (if m[c].kind.spec_is_window() {
            seq![c]
        } else {
            Seq::empty()
        }) + windows_from(m, c, 0) + windows_from(m, id, i + 1)
    }
}

#[via_fn]
proof fn windows_from_decreases(m: Nodes, id: u128, i: int) {
    if i < m[id].children.len() {
        let c = m[id].children[i];
        assert(m[id].children.contains(c));
        lemma_child_is_lower(m, id, c);
    }
}

/// The windows below a container are those that a walk over its children
/// meets.
proof fn lemma_windows_from(m: Nodes, id: u128, i: int)
    requires
        wf(m),
        m.contains_key(id),
        0 <= i,
    ensures
        descendants_from(m, id, i).filter(is_window_in(m)) == windows_from(m, id, i),
    decreases height(m, id), m[id].children.len() - i,
{
    reveal(Seq::filter);
    let pred = is_window_in(m);
    if i < m[id].children.len() {
        let c = m[id].children[i];
        assert(m[id].children.contains(c));
        lemma_child_is_lower(m, id, c);
        lemma_windows_from(m, c, 0);
        lemma_windows_from(m, id, i + 1);
        let inner = descendants_from(m, c, 0);
        let rest = descendants_from(m, id, i + 1);
        Seq::filter_distributes_over_add(seq![c] + inner, rest, pred);
        Seq::filter_distributes_over_add(seq![c], inner, pred);
        let none = Seq::<u128>::empty();
        assert(none.filter(pred) =~= none);
        assert(seq![c].drop_last() =~= none);
        assert(seq![c].last() == c);
        assert(none.push(c) =~= seq![c]);
        assert(seq![c].filter(pred) =~= (if pred(c) {
            seq![c]
        } else {
            Seq::empty()
        }));
    }
}

/// Whether every container has the same children in both, and is of the same
/// kind.
pub open spec fn same_shape(m: Nodes, m2: Nodes) -> bool {
    forall|x: u128| #[trigger]
        m.contains_key(x) ==> m2.contains_key(x) && m2[x].children == m[x].children && m2[x].kind
            == m[x].kind
}

proof fn lemma_same_shape(m: Nodes, m2: Nodes, id: u128, i: int)
    requires
        wf(m),
        wf(m2),
        same_shape(m, m2),
        m.contains_key(id),
        0 <= i,
    ensures
        windows_from(m2, id, i) == windows_from(m, id, i),
    decreases height(m, id), m[id].children.len() - i,
{
    if i < m[id].children.len() {
        let c = m[id].children[i];
        assert(m[id].children.contains(c));
        lemma_child_is_lower(m, id, c);
        lemma_same_shape(m, m2, c, 0);
        lemma_same_shape(m, m2, id, i + 1);
    }
}

proof fn lemma_flattened_children(m: Nodes, s: u128)
    requires
        wf(m),
        m.contains_key(s),
        m[s].parent is Some,
    ensures
        ({
            let p = m[s].parent->0;
            let k = m[p].children.index_of(s);
            let f = flattened(m, s);
            &&& wf(f)
            &&& p != s
            &&& m.contains_key(p)
            &&& f.contains_key(p)
            &&& 0 <= k < m[p].children.len()
            &&& m[p].children[k] == s
            &&& f[p].children.len() == m[p].children.len() + m[s].children.len() - 1
            &&& forall|i: int| 0 <= i < k ==> #[trigger] f[p].children[i] == m[p].children[i]
            &&& forall|j: int|
                0 <= j < m[s].children.len() ==> f[p].children[k + j] == #[trigger] m[s].children[j]
            &&& forall|i: int|
                k < i < m[p].children.len() ==> f[p].children[i + m[s].children.len() - 1]
                    == #[trigger] m[p].children[i]
        }),
{
    let p = m[s].parent->0;
    lemma_flattened_wf(m, s);
    lemma_parent_is_higher(m, s);
    assert(node_linked(m, s));
    assert(m[p].children.contains(s));
    let k = choose|k: int| 0 <= k < m[p].children.len() && m[p].children[k] == s;
    assert(node_linked(m, p));
    lemma_index_of(m[p].children, s, k);
}

/// Behind the container that was taken out, the windows are the same.
proof fn lemma_tail(m: Nodes, s: u128, i: int)
    requires
        wf(m),
        m.contains_key(s),
        m[s].parent is Some,
        !m[s].kind.spec_is_window(),
        m[m[s].parent->0].children.index_of(s) < i,
    ensures
        windows_from(flattened(m, s), m[s].parent->0, i + m[s].children.len() - 1) == windows_from(
            m,
            m[s].parent->0,
            i,
        ),
    decreases height(m, m[s].parent->0), 0nat, m[m[s].parent->0].children.len() - i,
{
    let p = m[s].parent->0;
    let f = flattened(m, s);
    lemma_flattened_children(m, s);
    if i < m[p].children.len() {
        let c = m[p].children[i];
        assert(m[p].children.contains(c));
        lemma_child_is_lower(m, p, c);
        assert(node_linked(m, p));
        assert(c != s);
        lemma_flattened_keeps(m, s, c);
        lemma_same_windows(m, s, c, 0);
        lemma_tail(m, s, i + 1);
        assert(f[p].children[i + m[s].children.len() - 1] == c);
        assert(i + m[s].children.len() - 1 + 1 == (i + 1) + m[s].children.len() - 1);
    }
}

/// From the container that was taken out on, the windows are its own and those
/// behind it.
proof fn lemma_inner(m: Nodes, s: u128, j: int)
    requires
        wf(m),
        m.contains_key(s),
        m[s].parent is Some,
        !m[s].kind.spec_is_window(),
        0 <= j <= m[s].children.len(),
    ensures
        windows_from(
            flattened(m, s),
            m[s].parent->0,
            m[m[s].parent->0].children.index_of(s) + j,
        ) == windows_from(m, s, j) + windows_from(
            m,
            m[s].parent->0,
            m[m[s].parent->0].children.index_of(s) + 1,
        ),
    decreases height(m, m[s].parent->0), 1nat, m[s].children.len() - j,
{
    let p = m[s].parent->0;
    let f = flattened(m, s);
    let k = m[p].children.index_of(s);
    lemma_flattened_children(m, s);
    lemma_child_is_lower(m, p, s);
    let behind = windows_from(m, p, k + 1);
    if j < m[s].children.len() {
        let g = m[s].children[j];
        assert(m[s].children.contains(g));
        lemma_child_is_lower(m, s, g);
        lemma_flattened_keeps(m, s, g);
        lemma_same_windows(m, s, g, 0);
        lemma_inner(m, s, j + 1);
        assert(f[p].children[k + j] == g);
        let first = if m[g].kind.spec_is_window() {
            seq![g]
        } else {
            Seq::<u128>::empty()
        };
        let own = windows_from(m, g, 0);
        let rest = windows_from(m, s, j + 1);
        assert(windows_from(f, p, k + j) == first + own + windows_from(f, p, k + j + 1));
        assert(windows_from(m, s, j) == first + own + rest);
        assert(first + own + (rest + behind) =~= first + own + rest + behind);
    } else {
        lemma_tail(m, s, k + 1);
        assert(windows_from(m, s, j) =~= Seq::<u128>::empty());
        assert(Seq::<u128>::empty() + behind =~= behind);
        assert(k + 1 + m[s].children.len() - 1 == k + j);
    }
}

/// Taking out a container that is no window leaves the windows below every
/// other container as they are.
proof fn lemma_same_windows(m: Nodes, s: u128, x: u128, i: int)
    requires
        wf(m),
        m.contains_key(s),
        m[s].parent is Some,
        !m[s].kind.spec_is_window(),
        m.contains_key(x),
        x != s,
        0 <= i,
        x == m[s].parent->0 ==> i <= m[x].children.index_of(s),
    ensures
        windows_from(flattened(m, s), x, i) == windows_from(m, x, i),
    decreases height(m, x), 2nat, m[x].children.len() - i,
{
    let p = m[s].parent->0;
    let f = flattened(m, s);
    lemma_flattened_children(m, s);
    lemma_flattened_keeps(m, s, x);
    if x == p && i == m[p].children.index_of(s) {
        lemma_inner(m, s, 0);
        assert(windows_from(m, p, i) =~= windows_from(m, s, 0) + windows_from(m, p, i + 1));
    } else if i < m[x].children.len() {
        let c = m[x].children[i];
        assert(m[x].children.contains(c));
        lemma_child_is_lower(m, x, c);
        if c == s {
            assert(x == p);
            lemma_index_of(m[p].children, s, i);
        }
        lemma_flattened_keeps(m, s, c);
        lemma_same_windows(m, s, c, 0);
        lemma_same_windows(m, s, x, i + 1);
        assert(f[x].children[i] == c);
    }
}

/// Taking a container out of the tree loses no window, and keeps their order.
pub proof fn flattening_keeps_the_windows(m: Nodes, s: u128, x: u128)
    requires
        wf(m),
        m.contains_key(s),
        m[s].parent is Some,
        !m[s].kind.spec_is_window(),
        m.contains_key(x),
        x != s,
    ensures
        windows_below(flattened(m, s), x) == windows_below(m, x),
{
    lemma_flattened_children(m, s);
    lemma_flattened_keeps(m, s, x);
    lemma_windows_from(m, x, 0);
    lemma_windows_from(flattened(m, s), x, 0);
    lemma_same_windows(m, s, x, 0);
}

/// Taking out the split `c` of `p`, and before it the split that is all it
/// holds, leaves the windows and the other containers of `p` as they are.
proof fn lemma_collapsed(m: Nodes, p: u128, c: u128)
    requires
        wf(m),
        m.contains_key(c),
        m[c].parent == Some(p),
        m[c].kind == ContainerKind::Split,
    ensures
        wf(collapsed(m, c)),
        forall|x: u128| #[trigger]
            m.contains_key(x) && m[x].kind != ContainerKind::Split ==> {
                &&& collapsed(m, c).contains_key(x)
                &&& collapsed(m, c)[x].kind == m[x].kind
                &&& windows_below(collapsed(m, c), x) == windows_below(m, x)
            },
        forall|x: u128| #[trigger]
            m.contains_key(x) && m[x].parent == Some(p) && x != c ==> {
                &&& collapsed(m, c).contains_key(x)
                &&& collapsed(m, c)[x].parent == Some(p)
                &&& collapsed(m, c)[x].kind == m[x].kind
            },
{
    lemma_parent_is_higher(m, c);
    let m1 = match only_split_child(m, c) {
        Some(g) => flattened(m, g),
        None => m,
    };
    if let Some(g) = only_split_child(m, c) {
        assert(m[c].children.contains(g));
        lemma_child_is_lower(m, c, g);
        lemma_flattened_wf(m, g);
        lemma_child_is_lower(m, p, c);
        assert(m[c].parent != Some(g));
        lemma_flattened_keeps(m, g, c);
        assert forall|x: u128| #[trigger]
            m.contains_key(x) && m[x].kind != ContainerKind::Split implies m1.contains_key(x)
            && m1[x].kind == m[x].kind && windows_below(m1, x) == windows_below(m, x) by {
            lemma_flattened_keeps(m, g, x);
            flattening_keeps_the_windows(m, g, x);
        }
        assert forall|x: u128| #[trigger]
            m.contains_key(x) && m[x].parent == Some(p) && x != c implies m1.contains_key(x)
            && m1[x].parent == Some(p) && m1[x].kind == m[x].kind by {
            assert(x != g);
            assert(p != g);
            lemma_flattened_keeps(m, g, x);
        }
    }
    assert(m1.contains_key(c) && m1[c].parent == Some(p) && m1[c].kind == ContainerKind::Split);
    lemma_flattened_wf(m1, c);
    assert forall|x: u128| #[trigger]
        m.contains_key(x) && m[x].kind != ContainerKind::Split implies collapsed(
        m,
        c,
    ).contains_key(x) && collapsed(m, c)[x].kind == m[x].kind && windows_below(collapsed(m, c), x)
        == windows_below(m, x) by {
        lemma_flattened_keeps(m1, c, x);
        flattening_keeps_the_windows(m1, c, x);
    }
    assert forall|x: u128| #[trigger]
        m.contains_key(x) && m[x].parent == Some(p) && x != c implies collapsed(m, c).contains_key(
        x,
    ) && collapsed(m, c)[x].parent == Some(p) && collapsed(m, c)[x].kind == m[x].kind by {
        lemma_parent_is_higher(m1, c);
        lemma_flattened_keeps(m1, c, x);
    }
}

proof fn lemma_collapsed_all(m: Nodes, p: u128, splits: Seq<u128>, x: u128)
    requires
        wf(m),
        splits.no_duplicates(),
        forall|c: u128| #[trigger]
            splits.contains(c) ==> m.contains_key(c) && m[c].parent == Some(p) && m[c].kind
                == ContainerKind::Split,
        m.contains_key(x),
        m[x].kind != ContainerKind::Split,
    ensures
        windows_below(collapsed_all(m, p, splits), x) == windows_below(m, x),
    decreases splits.len(),
{
    if splits.len() > 0 {
        let c = splits[0];
        let rest = splits.drop_first();
        assert(splits.contains(c));
        assert forall|y: u128| #[trigger] rest.contains(y) implies splits.contains(y) && y != c by {
            let k = choose|k: int| 0 <= k < rest.len() && rest[k] == y;
            assert(splits[k + 1] == y);
        }
        if same_axis(m, c, p) {
            lemma_collapsed(m, p, c);
            lemma_collapsed_all(collapsed(m, c), p, rest, x);
        } else {
            lemma_collapsed_all(m, p, rest, x);
        }
    }
}

/// Taking out the splits that a container has no use for loses no window, and
/// keeps their order.
pub proof fn redundant_splits_hold_no_windows(m: Nodes, p: u128, x: u128)
    requires
        wf(m),
        m.contains_key(p),
        m.contains_key(x),
        m[x].kind != ContainerKind::Split,
    ensures
        windows_below(without_redundant_splits(m, p), x) == windows_below(m, x),
{
    let kids = windows_and_splits(m, p);
    assert(node_linked(m, p));
    if m[p].kind.spec_is_direction() && m[p].layout is Split {
        if kids.len() == 1 && m[kids[0]].kind == ContainerKind::Split {
            let s = kids[0];
            lemma_filter_members(m[p].children, is_window_or_split(m));
            assert(kids.contains(s));
            assert(m[p].children.contains(s));
            lemma_child_is_lower(m, p, s);
            lemma_flattened_wf(m, s);
            lemma_flattened_keeps(m, s, x);
            lemma_flattened_keeps(m, s, p);
            flattening_keeps_the_windows(m, s, x);
            let d = flattened(m, s);
            let d2 = d.insert(p, d[p].with_layout(m[p].layout.spec_inverse()));
            lemma_relabelled_wf(d, p, d[p].with_layout(m[p].layout.spec_inverse()));
            lemma_windows_from(d, x, 0);
            lemma_windows_from(d2, x, 0);
            lemma_same_shape(d, d2, x, 0);
        } else if kids.len() != 1 {
            lemma_filter_members(m[p].children, is_split_of(m));
            lemma_collapsed_all(m, p, child_splits(m, p), x);
        }
    }
}

/// Putting a window into a new stack loses no window, and keeps their order.
pub proof fn stacking_keeps_the_windows(
    m: Nodes,
    s: u128,
    name: Option<Seq<char>>,
    w: u128,
    x: u128,
)
    requires
        wf(m),
        m.contains_key(w),
        m[w].parent is Some,
        !m.contains_key(s),
        m.contains_key(x),
    ensures
        windows_below(stacked(m, s, name, w), x) == windows_below(m, x),
{
    lemma_inserted_wf(m, s, new_stack(name));
    lemma_wrapped_wf(m.insert(s, new_stack(name)), s, w);
    flattening_undoes_stacking(m, s, name, w);
    flattening_keeps_the_windows(stacked(m, s, name, w), s, x);
}

/// The windows below a container are those that stand within it.
proof fn lemma_windows_within(m: Nodes, r: u128, w: u128)
    requires
        wf(m),
        m.contains_key(r),
    ensures
        windows_below(m, r).contains(w) <==> is_within(m, w, r) && w != r
            && m[w].kind.spec_is_window(),
{
    let all = descendants(m, r);
    descendants_are_all_below(m, r, w);
    if windows_below(m, r).contains(w) {
        let i = choose|i: int| 0 <= i < windows_below(m, r).len() && windows_below(m, r)[i] == w;
        all.lemma_filter_pred(is_window_in(m), i);
        all.lemma_filter_contains_rev(is_window_in(m), w);
    }
    if all.contains(w) && m[w].kind.spec_is_window() {
        let i = choose|i: int| 0 <= i < all.len() && all[i] == w;
        all.lemma_filter_contains(is_window_in(m), i);
    }
}

/// What a move leaves of a container that is not moved.
proof fn lemma_rehung_keeps(m: Nodes, c: u128, p: u128, i: int, x: u128)
    requires
        wf(m),
        can_relocate(m, c, p, i),
        rehung(m, c, p, i).contains_key(x),
    ensures
        m.contains_key(x),
        rehung(m, c, p, i)[x].kind == m[x].kind,
        x != c ==> rehung(m, c, p, i)[x].parent == m[x].parent,
{
    let q = m[c].parent->0;
    let d = detached(m, c);
    lemma_detached_wf(m, c);
    lemma_parent_is_higher(m, c);
    assert(node_linked(m, q));
    assert(node_linked(m, p));
    lemma_without(m[q].children, c);
    let a = attached(d, c, p, i, d[p].focus_order.len() as int);
    if q != p && is_grouping(m, q) && m[q].children.len() == 1 && m[q].parent is Some {
        assert(a[q].children == without(m[q].children, c));
        assert(!a[q].children.contains(x));
    }
}

proof fn lemma_rehung_within(m: Nodes, c: u128, p: u128, i: int, r: u128, x: u128)
    requires
        wf(m),
        can_relocate(m, c, p, i),
        rehung(m, c, p, i).contains_key(r),
        rehung(m, c, p, i).contains_key(x),
        x != c,
    ensures
        is_within(rehung(m, c, p, i), x, r) <==> is_within(m, x, r),
    decreases depth_bound(m, x),
{
    let h = rehung(m, c, p, i);
    lemma_rehung_wf(m, c, p, i);
    lemma_rehung_keeps(m, c, p, i, x);
    lemma_within_step(m, x, r);
    lemma_within_step(h, x, r);
    if m[x].parent is Some {
        let y = m[x].parent->0;
        lemma_parent_is_higher(m, x);
        lemma_parent_is_higher(h, x);
        assert(node_linked(m, x));
        assert(m[y].children.contains(x));
        assert(y != c);
        lemma_rehung_within(m, c, p, i, r, y);
    }
}

proof fn lemma_refocused_within(m: Nodes, id: u128, x: u128, r: u128)
    requires
        wf(m),
        m.contains_key(id),
        m.contains_key(x),
    ensures
        is_within(refocused(m, id), x, r) <==> is_within(m, x, r),
    decreases depth_bound(m, x),
{
    lemma_refocused_wf(m, id);
    lemma_within_step(m, x, r);
    lemma_within_step(refocused(m, id), x, r);
    if m[x].parent is Some {
        lemma_parent_is_higher(m, x);
        lemma_refocused_within(m, id, m[x].parent->0, r);
    }
}

/// Moving a window about within a part of the tree brings no window in or out
/// of it.
pub proof fn moving_loses_no_window(m: Nodes, c: u128, p: u128, i: int, r: u128, w: u128)
    requires
        wf(m),
        can_relocate(m, c, p, i),
        relocated(m, c, p, i).contains_key(r),
        r != c,
        is_within(m, c, r),
        is_within(m, p, r),
    ensures
        windows_below(relocated(m, c, p, i), r).contains(w) <==> windows_below(m, r).contains(w),
{
    let h = rehung(m, c, p, i);
    let d = relocated(m, c, p, i);
    lemma_rehung_wf(m, c, p, i);
    lemma_relocated_wf(m, c, p, i);
    lemma_rehung_keeps(m, c, p, i, r);
    lemma_windows_within(m, r, w);
    lemma_windows_within(d, r, w);
    lemma_rehung_within(m, c, p, i, r, p);
    lemma_within_step(h, c, r);
    if m.contains_key(w) {
        assert(node_linked(m, w));
        if !h.contains_key(w) {
            assert(w == m[c].parent->0);
            assert(is_grouping(m, w));
        } else {
            lemma_rehung_keeps(m, c, p, i, w);
            if w != c {
                lemma_rehung_within(m, c, p, i, r, w);
            }
            if has_focus(m, c) {
                lemma_refocused_within(h, c, w, r);
            }
        }
    } else if h.contains_key(w) {
        lemma_rehung_keeps(m, c, p, i, w);
    }
}

/// A window that joins the stack around another one, made anew if need be,
/// leaves the workspace of the two with the windows that it had.
pub proof fn joining_a_stack_loses_no_window(
    m: Nodes,
    a: u128,
    new_id: u128,
    b: u128,
    ws: u128,
    x: u128,
)
    requires
        wf(m),
        m.contains_key(ws),
        m[ws].kind == ContainerKind::Workspace,
        windows_below(m, ws).contains(a),
        windows_below(m, ws).contains(b),
        a != b,
        !m.contains_key(new_id),
    ensures
        ({
            let (s, m1) = with_stack_around(m, a, new_id);
            let m2 = relocated(m1, b, s, 0);
            windows_below(m2, ws).contains(x) <==> windows_below(m, ws).contains(x)
        }),
{
    let (s, m1) = with_stack_around(m, a, new_id);
    lemma_windows_within(m, ws, a);
    lemma_windows_within(m, ws, b);
    lemma_within_step(m, a, ws);
    lemma_within_step(m, b, ws);
    lemma_parent_is_higher(m, a);
    lemma_parent_is_higher(m, b);
    if stack_of(m, a) is None {
        lemma_inserted_wf(m, s, new_stack(None));
        lemma_wrapped_wf(m.insert(s, new_stack(None)), s, a);
        stacking_keeps_the_windows(m, s, None, a, ws);
    }
    lemma_windows_within(m1, ws, a);
    lemma_windows_within(m1, ws, b);
    lemma_within_step(m1, a, ws);
    assert(is_within(m1, s, ws));
    assert(node_linked(m1, b));
    assert(node_linked(m1, ws));
    assert(m1[b].parent is Some);
    assert(can_relocate(m1, b, s, 0));
    lemma_relocated_wf(m1, b, s, 0);
    moving_loses_no_window(m1, b, s, 0, ws, x);
}

} // verus!
