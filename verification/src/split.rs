//! Taking redundant splits out of the tree.

use vstd::prelude::*;

use crate::container::ContainerKind;
use crate::stack::{flatten_stack_container, lemma_filter_step, scales, tiling_children, SizeChange};
use crate::tree::{flattened, height, lemma_child_is_lower, lemma_parent_is_higher, node_linked, wf,
    Nodes, Tree};

verus! {

/// Picks the tiling windows and the splits.
pub open spec fn is_window_or_split(m: Nodes) -> spec_fn(u128) -> bool {
    |c: u128| m[c].kind == ContainerKind::TilingWindow || m[c].kind == ContainerKind::Split
}

/// Picks the splits.
pub open spec fn is_split_of(m: Nodes) -> spec_fn(u128) -> bool {
    |c: u128| m[c].kind == ContainerKind::Split
}

/// The children of `p` that are tiling windows or splits.
pub open spec fn windows_and_splits(m: Nodes, p: u128) -> Seq<u128> {
    m[p].children.filter(is_window_or_split(m))
}

/// The children of `p` that are splits.
pub open spec fn child_splits(m: Nodes, p: u128) -> Seq<u128> {
    m[p].children.filter(is_split_of(m))
}

/// Whether the split `c` lays its children out along the same axis as `p`.
pub open spec fn same_axis(m: Nodes, c: u128, p: u128) -> bool {
    m[c].layout is Split && m[c].layout == m[p].layout
}

/// The only child of the split `c`, where that is a split too.
pub open spec fn only_split_child(m: Nodes, c: u128) -> Option<u128> {
    if m[c].children.len() == 1 && m[m[c].children[0]].kind == ContainerKind::Split {
        Some(m[c].children[0])
    } else {
        None
    }
}

/// The tree after the split `c` has been taken out, and before it the split
/// that is all it holds.
pub open spec fn collapsed(m: Nodes, c: u128) -> Nodes {
    match only_split_child(m, c) {
        Some(g) => flattened(flattened(m, g), c),
        None => flattened(m, c),
    }
}

/// How the shares change when the split `c` is taken out.
pub open spec fn collapse_sizes(m: Nodes, c: u128) -> Seq<SizeChange> {
    match only_split_child(m, c) {
        Some(g) => scales(tiling_children(m, g), g) + scales(
            tiling_children(flattened(m, g), c),
            c,
        ),
        None => scales(tiling_children(m, c), c),
    }
}

/// The tree after each of `splits` that shares the axis of `p` has been taken
/// out, one after the other.
pub open spec fn collapsed_all(m: Nodes, p: u128, splits: Seq<u128>) -> Nodes
    decreases splits.len(),
{
    if splits.len() == 0 {
        m
    } else if same_axis(m, splits[0], p) {
        collapsed_all(collapsed(m, splits[0]), p, splits.drop_first())
    } else {
        collapsed_all(m, p, splits.drop_first())
    }
}

/// How the shares change meanwhile.
pub open spec fn collapse_all_sizes(m: Nodes, p: u128, splits: Seq<u128>) -> Seq<SizeChange>
    decreases splits.len(),
{
    if splits.len() == 0 {
        Seq::empty()
    } else if same_axis(m, splits[0], p) {
        collapse_sizes(m, splits[0]) + collapse_all_sizes(
            collapsed(m, splits[0]),
            p,
            splits.drop_first(),
        )
    } else {
        collapse_all_sizes(m, p, splits.drop_first())
    }
}

/// The tree without the splits that `p` has no use for.
pub open spec fn without_redundant_splits(m: Nodes, p: u128) -> Nodes {
    let kids = windows_and_splits(m, p);
    if !m[p].kind.spec_is_direction() || !(m[p].layout is Split) {
        m
    } else if kids.len() == 1 {
        if m[kids[0]].kind == ContainerKind::Split {
            let d = flattened(m, kids[0]);
            d.insert(p, d[p].with_layout(m[p].layout.spec_inverse()))
        } else {
            m
        }
    } else {
        collapsed_all(m, p, child_splits(m, p))
    }
}

/// How the shares change meanwhile.
pub open spec fn redundant_split_sizes(m: Nodes, p: u128) -> Seq<SizeChange> {
    let kids = windows_and_splits(m, p);
    if !m[p].kind.spec_is_direction() || !(m[p].layout is Split) {
        Seq::empty()
    } else if kids.len() == 1 {
        if m[kids[0]].kind == ContainerKind::Split {
            scales(tiling_children(m, kids[0]), kids[0])
        } else {
            Seq::empty()
        }
    } else {
        collapse_all_sizes(m, p, child_splits(m, p))
    }
}

pub proof fn lemma_flattened_keeps(m: Nodes, s: u128, x: u128)
    requires
        wf(m),
        m.contains_key(s),
        m[s].parent is Some,
        m.contains_key(x),
        x != s,
    ensures
        flattened(m, s).contains_key(x),
        flattened(m, s)[x].kind == m[x].kind,
        flattened(m, s)[x].layout == m[x].layout,
        m[x].parent != Some(s) ==> flattened(m, s)[x].parent == m[x].parent,
        x != m[s].parent->0 ==> flattened(m, s)[x].children == m[x].children,
{
    if m[s].children.contains(x) {
        lemma_child_is_lower(m, s, x);
    }
    if x == m[s].parent->0 && m[x].parent == Some(s) {
        lemma_parent_is_higher(m, s);
        lemma_parent_is_higher(m, x);
    }
}

pub proof fn lemma_filter_members(ids: Seq<u128>, pred: spec_fn(u128) -> bool)
    requires
        ids.no_duplicates(),
    ensures
        ids.filter(pred).no_duplicates(),
        forall|x: u128| #[trigger] ids.filter(pred).contains(x) ==> ids.contains(x) && pred(x),
    decreases ids.len(),
{
    reveal(Seq::filter);
    if ids.len() > 0 {
        let d = ids.drop_last();
        lemma_filter_members(d, pred);
        let f = d.filter(pred);
        assert forall|x: u128| #[trigger] ids.filter(pred).contains(x) implies ids.contains(x)
            && pred(x) by {
            let w = ids.filter(pred);
            let k = choose|k: int| 0 <= k < w.len() && w[k] == x;
            if k < f.len() {
                assert(f[k] == x);
                assert(f.contains(x));
                let j = choose|j: int| 0 <= j < d.len() && d[j] == x;
                assert(ids[j] == x);
            } else {
                assert(ids[ids.len() - 1] == x);
            }
        }
        if pred(ids.last()) {
            assert(!f.contains(ids.last())) by {
                if f.contains(ids.last()) {
                    assert(d.contains(ids.last()));
                    let j = choose|j: int| 0 <= j < d.len() && d[j] == ids.last();
                    assert(ids[j] == ids[ids.len() - 1]);
                }
            }
            let w = ids.filter(pred);
            assert(w == f.push(ids.last()));
            assert forall|a: int, b: int|
                0 <= a < w.len() && 0 <= b < w.len() && a != b implies w[a] != w[b] by {
                if a == f.len() {
                    assert(f[b] == w[b]);
                    assert(f.contains(w[b]));
                }
                if b == f.len() {
                    assert(f[a] == w[a]);
                    assert(f.contains(w[a]));
                }
            }
        }
    }
}

/// The children of `p` that are splits, and the tiling windows among them where
/// those are asked for too.
fn pick_children(tree: &Tree, p: u128, windows_too: bool) -> (result: Vec<u128>)
    requires
        wf(tree@),
        tree@.contains_key(p),
    ensures
        result@ == (if windows_too {
            windows_and_splits(tree@, p)
        } else {
            child_splits(tree@, p)
        }),
        result@.no_duplicates(),
        forall|x: u128| #[trigger]
            result@.contains(x) ==> tree@.contains_key(x) && tree@[x].parent == Some(p),
        !windows_too ==> forall|x: u128| #[trigger]
            result@.contains(x) ==> tree@[x].kind == ContainerKind::Split,
{
    let ghost m = tree@;
    let ghost pred = if windows_too {
        is_window_or_split(m)
    } else {
        is_split_of(m)
    };
    let children = &tree.get(p).children;
    let mut result: Vec<u128> = Vec::new();
    let mut i: usize = 0;
    proof {
        reveal(Seq::filter);
    }
    while i < children.len()
        invariant
            i <= children@.len(),
            m == tree@,
            wf(m),
            m.contains_key(p),
            children@ == m[p].children,
            pred == (if windows_too {
                is_window_or_split(m)
            } else {
                is_split_of(m)
            }),
            result@ == children@.subrange(0, i as int).filter(pred),
        decreases children@.len() - i,
    {
        let c: u128 = children[i];
        proof {
            assert(m[p].children.contains(c));
            lemma_child_is_lower(m, p, c);
            lemma_filter_step(children@, pred, i as int);
        }
        let kind = tree.get(c).kind;
        if kind == ContainerKind::Split || (windows_too && kind == ContainerKind::TilingWindow) {
            result.push(c);
        }
        i = i + 1;
    }
    proof {
        assert(children@.subrange(0, i as int) =~= children@);
        assert(node_linked(m, p));
        lemma_filter_members(m[p].children, pred);
        assert forall|x: u128| #[trigger] result@.contains(x) implies m.contains_key(x)
            && m[x].parent == Some(p) by {
            assert(m[p].children.contains(x));
        }
    }
    result
}

/// Takes the split `c` out of the tree, and before it the split that is all it
/// holds.
fn collapse(tree: &mut Tree, c: u128, sizes: &mut Vec<SizeChange>)
    requires
        wf(old(tree)@),
        old(tree)@.contains_key(c),
        old(tree)@[c].parent is Some,
    ensures
        wf(final(tree)@),
        final(tree)@ == collapsed(old(tree)@, c),
        final(sizes)@ == old(sizes)@ + collapse_sizes(old(tree)@, c),
        forall|x: u128| #[trigger]
            old(tree)@.contains_key(x) && x != c && height(old(tree)@, x) >= height(
                old(tree)@,
                c,
            ) ==> {
                &&& final(tree)@.contains_key(x)
                &&& final(tree)@[x].kind == old(tree)@[x].kind
                &&& final(tree)@[x].layout == old(tree)@[x].layout
            },
        forall|x: u128| #[trigger]
            old(tree)@.contains_key(x) && x != c && old(tree)@[x].parent == old(
                tree,
            )@[c].parent ==> {
                &&& final(tree)@.contains_key(x)
                &&& final(tree)@[x].parent == old(tree)@[x].parent
                &&& final(tree)@[x].kind == old(tree)@[x].kind
                &&& final(tree)@[x].layout == old(tree)@[x].layout
            },
{
    let ghost m = tree@;
    let ghost start = sizes@;
    let children = &tree.get(c).children;
    if children.len() == 1 {
        let g: u128 = children[0];
        proof {
            assert(m[c].children.contains(g));
            lemma_child_is_lower(m, c, g);
        }
        if tree.get(g).kind == ContainerKind::Split {
            proof {
                assert forall|x: u128| #[trigger] m.contains_key(x) && x != g implies flattened(
                    m,
                    g,
                ).contains_key(x) && flattened(m, g)[x].kind == m[x].kind && flattened(
                    m,
                    g,
                )[x].layout == m[x].layout && (m[x].parent != Some(g) ==> flattened(
                    m,
                    g,
                )[x].parent == m[x].parent) by {
                    lemma_flattened_keeps(m, g, x);
                }
            }
            let mut inner = flatten_stack_container(tree, g).unwrap();
            sizes.append(&mut inner);
        }
    }
    let ghost m1 = tree@;
    proof {
        assert(m1.contains_key(c));
        lemma_parent_is_higher(m, c);
        if only_split_child(m, c) is Some {
            let g = m[c].children[0];
            assert(m1 == flattened(m, g));
            assert(sizes@ =~= start + scales(tiling_children(m, g), g));
            assert(m1[c].parent == m[c].parent);
            assert forall|x: u128| m.contains_key(x) && #[trigger] m[x].parent == Some(
                g,
            ) implies height(m, x) < height(m, c) by {
                lemma_parent_is_higher(m, x);
                lemma_child_is_lower(m, g, x);
                lemma_child_is_lower(m, c, g);
            }
            assert(m[c].parent != Some(g)) by {
                if m[c].parent == Some(g) {
                    assert(height(m, c) < height(m, c));
                }
            }
        } else {
            assert(m1 == m);
            assert(sizes@ =~= start);
        }
        assert forall|x: u128| #[trigger] m1.contains_key(x) && x != c implies flattened(
            m1,
            c,
        ).contains_key(x) && flattened(m1, c)[x].kind == m1[x].kind && flattened(m1, c)[x].layout
            == m1[x].layout && (m1[x].parent != Some(c) ==> flattened(m1, c)[x].parent
            == m1[x].parent) by {
            lemma_flattened_keeps(m1, c, x);
        }
        assert forall|x: u128| #[trigger] m.contains_key(x) && x != c && height(m, x) >= height(
            m,
            c,
        ) implies m1.contains_key(x) && m1[x].kind == m[x].kind && m1[x].layout == m[x].layout by {
            if only_split_child(m, c) is Some {
                lemma_child_is_lower(m, c, m[c].children[0]);
            }
        }
        assert forall|x: u128| #[trigger] m.contains_key(x) && x != c && m[x].parent
            == m[c].parent implies m1.contains_key(x) && m1[x].kind == m[x].kind && m1[x].layout
            == m[x].layout && m1[x].parent == m[x].parent by {
            if only_split_child(m, c) is Some {
                let g = m[c].children[0];
                assert(m[g].parent == Some(c));
                assert(m[c].parent != Some(c)) by {
                    lemma_parent_is_higher(m, c);
                }
            }
        }
        assert(m[c].parent != Some(c));
    }
    let mut outer = flatten_stack_container(tree, c).unwrap();
    let ghost outer_sizes = outer@;
    let ghost before = sizes@;
    sizes.append(&mut outer);
    proof {
        assert(sizes@ =~= before + outer_sizes);
        assert(sizes@ =~= start + collapse_sizes(m, c));
    }
}

/// Takes the splits out of the tree that the container at `p` has no use for:
/// an only child that is a split, whose axis `p` then takes over; or else the
/// splits that lay out along the same axis as `p`.
///
/// Containers with another kind of layout keep their splits.
pub fn flatten_child_split_containers(tree: &mut Tree, p: u128) -> (sizes: Vec<SizeChange>)
    requires
        wf(old(tree)@),
        old(tree)@.contains_key(p),
    ensures
        wf(final(tree)@),
        final(tree)@ == without_redundant_splits(old(tree)@, p),
        sizes@ == redundant_split_sizes(old(tree)@, p),
{
    let ghost m = tree@;
    let layout = tree.get(p).layout;
    if !tree.get(p).kind.is_direction() || !layout.is_split() {
        return Vec::new();
    }
    let kids = pick_children(tree, p, true);
    if kids.len() == 1 {
        let only: u128 = kids[0];
        proof {
            assert(kids@.contains(only));
        }
        if tree.get(only).kind != ContainerKind::Split {
            return Vec::new();
        }
        proof {
            lemma_parent_is_higher(m, only);
            lemma_flattened_keeps(m, only, p);
        }
        let sizes = flatten_stack_container(tree, only).unwrap();
        tree.set_layout(p, layout.inverse());
        return sizes;
    }
    let splits = pick_children(tree, p, false);
    let mut sizes: Vec<SizeChange> = Vec::new();
    proof {
        assert(splits@.subrange(0, splits@.len() as int) =~= splits@);
        assert(sizes@ + collapse_all_sizes(m, p, splits@) =~= collapse_all_sizes(m, p, splits@));
    }
    let mut i: usize = 0;
    proof {
        assert forall|k: int| 0 <= k < splits@.len() implies m.contains_key(#[trigger] splits@[k])
            && m[splits@[k]].parent == Some(p) by {
            assert(splits@.contains(splits@[k]));
        }
    }
    while i < splits.len()
        invariant
            i <= splits@.len(),
            splits@.no_duplicates(),
            wf(m),
            m.contains_key(p),
            layout == m[p].layout,
            wf(tree@),
            tree@.contains_key(p),
            tree@[p].layout == m[p].layout,
            forall|k: int|
                i <= k < splits@.len() ==> {
                    &&& tree@.contains_key(#[trigger] splits@[k])
                    &&& tree@[splits@[k]].parent == Some(p)
                },
            collapsed_all(
                tree@,
                p,
                splits@.subrange(i as int, splits@.len() as int),
            ) == collapsed_all(m, p, splits@),
            sizes@ + collapse_all_sizes(
                tree@,
                p,
                splits@.subrange(i as int, splits@.len() as int),
            ) == collapse_all_sizes(m, p, splits@),
        decreases splits@.len() - i,
    {
        let c: u128 = splits[i];
        let ghost before = tree@;
        let ghost before_sizes = sizes@;
        let ghost rest = splits@.subrange(i as int, splits@.len() as int);
        proof {
            assert(before.contains_key(splits@[i as int]));
            assert(rest[0] == c);
            assert(rest.drop_first() =~= splits@.subrange(i + 1, splits@.len() as int));
            lemma_parent_is_higher(before, c);
            assert(node_linked(before, p));
            lemma_child_is_lower(before, p, c);
        }
        let child_layout = tree.get(c).layout;
        if child_layout.is_split() && child_layout == layout {
            collapse(tree, c, &mut sizes);
            proof {
                assert(tree@.contains_key(p));
                assert forall|k: int| i < k < splits@.len() implies tree@.contains_key(
                    #[trigger] splits@[k],
                ) && tree@[splits@[k]].parent == Some(p) by {
                    assert(before.contains_key(splits@[k]));
                    assert(splits@[k] != splits@[i as int]);
                }
                assert(sizes@ + collapse_all_sizes(tree@, p, rest.drop_first()) =~= before_sizes
                    + (collapse_sizes(before, c) + collapse_all_sizes(
                    tree@,
                    p,
                    rest.drop_first(),
                )));
            }
        }
        i = i + 1;
    }
    proof {
        assert(splits@.subrange(i as int, splits@.len() as int) =~= Seq::<u128>::empty());
        assert(sizes@ + Seq::<SizeChange>::empty() =~= sizes@);
    }
    sizes
}

/// Which splits a container has no use for: an only child that is a split, whose
/// axis it then takes over; or else those that share its axis. Containers that
/// lay out in another way keep theirs.
pub proof fn useless_splits_are_taken_out(m: Nodes, p: u128)
    ensures
        !(m[p].kind == ContainerKind::Workspace || m[p].kind == ContainerKind::Split)
            ==> without_redundant_splits(m, p) == m && redundant_split_sizes(m, p) == Seq::<
            SizeChange,
        >::empty(),
        !(m[p].layout is Split) ==> without_redundant_splits(m, p) == m,
        ({
            let kids = windows_and_splits(m, p);
            let d = flattened(m, kids[0]);
            &&& kids.len() == 1 && m[kids[0]].kind == ContainerKind::TilingWindow
                ==> without_redundant_splits(m, p) == m
            &&& kids.len() == 1 && m[kids[0]].kind == ContainerKind::Split && (m[p].kind
                == ContainerKind::Workspace || m[p].kind == ContainerKind::Split)
                && m[p].layout is Split ==> without_redundant_splits(m, p) == d.insert(
                p,
                d[p].with_layout(m[p].layout.spec_inverse()),
            )
        }),
{
}

/// The children that are counted for that are the tiling windows and the splits.
pub proof fn windows_and_splits_are_counted(m: Nodes, p: u128, x: u128)
    requires
        m[p].children.no_duplicates(),
    ensures
        windows_and_splits(m, p).contains(x) <==> m[p].children.contains(x) && (m[x].kind
            == ContainerKind::TilingWindow || m[x].kind == ContainerKind::Split),
        child_splits(m, p).contains(x) <==> m[p].children.contains(x) && m[x].kind
            == ContainerKind::Split,
{
    let ids = m[p].children;
    lemma_filter_members(ids, is_window_or_split(m));
    lemma_filter_members(ids, is_split_of(m));
    if ids.contains(x) {
        let k = choose|k: int| 0 <= k < ids.len() && ids[k] == x;
        if is_window_or_split(m)(x) {
            ids.lemma_filter_contains(is_window_or_split(m), k);
        }
        if is_split_of(m)(x) {
            ids.lemma_filter_contains(is_split_of(m), k);
        }
    }
}

/// Of several splits only those are taken out that lay out along the axis of the
/// container, one after the other. One that holds nothing but another split is
/// taken out with that.
pub proof fn splits_of_the_same_axis_are_taken_out(m: Nodes, p: u128, splits: Seq<u128>, c: u128)
    ensures
        same_axis(m, c, p) <==> m[c].layout is Split && m[p].layout is Split && m[c].layout->Split_0
            == m[p].layout->Split_0,
        collapsed_all(m, p, Seq::empty()) == m,
        collapse_all_sizes(m, p, Seq::empty()) == Seq::<SizeChange>::empty(),
        m[c].layout is Split && m[c].layout == m[p].layout ==> collapsed_all(
            m,
            p,
            seq![c] + splits,
        ) == collapsed_all(collapsed(m, c), p, splits) && collapse_all_sizes(m, p, seq![c] + splits)
            == collapse_sizes(m, c) + collapse_all_sizes(collapsed(m, c), p, splits),
        !(m[c].layout is Split && m[c].layout == m[p].layout) ==> collapsed_all(
            m,
            p,
            seq![c] + splits,
        ) == collapsed_all(m, p, splits) && collapse_all_sizes(m, p, seq![c] + splits)
            == collapse_all_sizes(m, p, splits),
        m[c].children.len() == 1 && m[m[c].children[0]].kind == ContainerKind::Split ==> collapsed(
            m,
            c,
        ) == flattened(flattened(m, m[c].children[0]), c),
        m[c].children.len() != 1 || m[m[c].children[0]].kind != ContainerKind::Split ==> collapsed(
            m,
            c,
        ) == flattened(m, c) && collapse_sizes(m, c) == scales(tiling_children(m, c), c),
{
    let all = seq![c] + splits;
    assert(all[0] == c);
    assert(all.drop_first() =~= splits);
}

} // verus!
