//! The container tree: who holds whom, in which order, and who was focused
//! last.

use std::collections::HashMap;

use vstd::prelude::*;

use crate::container::{Container, ContainerKind, WorkspaceLayout};
use crate::window_state::WindowState;

verus! {

broadcast use vstd::std_specs::hash::group_hash_axioms;

/// One container, with its place in the tree.
pub struct Node {
    pub kind: ContainerKind,
    pub parent: Option<u128>,
    /// The children, in the order they are laid out.
    pub children: Vec<u128>,
    /// The same children, the most recently focused first.
    pub focus_order: Vec<u128>,
    /// How a workspace or split arranges its children.
    pub layout: WorkspaceLayout,
    /// The mode of a window.
    pub state: WindowState,
    /// The name of a workspace, or the one a user gave to a stack.
    pub name: Option<String>,
    /// The native handle of a window.
    pub handle: isize,
}

/// What a [`Node`] stands for.
#[verifier::ext_equal]
pub struct NodeView {
    pub kind: ContainerKind,
    pub parent: Option<u128>,
    pub children: Seq<u128>,
    pub focus_order: Seq<u128>,
    pub layout: WorkspaceLayout,
    pub state: WindowState,
    pub name: Option<Seq<char>>,
    pub handle: isize,
}

/// A whole tree: each container's node under its id.
pub type Nodes = Map<u128, NodeView>;

impl View for Node {
    type V = NodeView;

    open spec fn view(&self) -> NodeView {
        NodeView {
            kind: self.kind,
            parent: self.parent,
            children: self.children@,
            focus_order: self.focus_order@,
            layout: self.layout,
            state: self.state,
            name: match self.name {
                Some(name) => Some(name@),
                None => None,
            },
            handle: self.handle,
        }
    }
}

impl NodeView {
    /// The same node with other children.
    pub open spec fn with_children(
        self,
        children: Seq<u128>,
        focus_order: Seq<u128>,
    ) -> NodeView {
        NodeView { children, focus_order, ..self }
    }

    /// The same node under another parent.
    pub open spec fn with_parent(self, parent: Option<u128>) -> NodeView {
        NodeView { parent, ..self }
    }

    /// The same node with another layout.
    pub open spec fn with_layout(self, layout: WorkspaceLayout) -> NodeView {
        NodeView { layout, ..self }
    }
}

/// Whether the node at `id` agrees with its neighbours: its children are in
/// the tree and name it as their parent, each once; its focus order is a
/// reordering of them; and its own parent names it as a child.
pub open spec fn node_linked(m: Nodes, id: u128) -> bool {
    let n = m[id];
    &&& n.children.no_duplicates()
    &&& n.focus_order.no_duplicates()
    &&& forall|c: u128| #[trigger] n.focus_order.contains(c) <==> n.children.contains(c)
    &&& forall|c: u128| #[trigger]
        n.children.contains(c) ==> m.contains_key(c) && m[c].parent == Some(id)
    &&& n.parent matches Some(p) ==> m.contains_key(p) && m[p].children.contains(id)
    &&& n.kind.spec_is_window() ==> n.children.len() == 0
}

/// Heights for the containers of a tree, none of them above `top`.
pub struct Ranking {
    pub of: spec_fn(u128) -> nat,
    pub top: nat,
}

/// Whether every container stands lower than its parent.
pub open spec fn ranked(m: Nodes, r: Ranking) -> bool {
    &&& forall|id: u128| #[trigger] m.contains_key(id) ==> (r.of)(id) <= r.top
    &&& forall|id: u128| #[trigger]
        m.contains_key(id) && m[id].parent is Some ==> (r.of)(id) < (r.of)(m[id].parent->0)
}

/// Whether no container is an ancestor of itself.
pub open spec fn acyclic(m: Nodes) -> bool {
    exists|r: Ranking| ranked(m, r)
}

/// Whether `m` is a forest of containers whose links agree.
pub open spec fn wf(m: Nodes) -> bool {
    &&& forall|id: u128| #[trigger] m.contains_key(id) ==> node_linked(m, id)
    &&& acyclic(m)
}

/// Some ranking of `m`.
pub open spec fn ranking(m: Nodes) -> Ranking {
    choose|r: Ranking| ranked(m, r)
}

/// How far below the top of its tree the container at `id` may stand.
pub open spec fn depth_bound(m: Nodes, id: u128) -> int {
    ranking(m).top - (ranking(m).of)(id)
}

/// How many levels the subtree at `id` may have.
pub open spec fn height(m: Nodes, id: u128) -> nat {
    (ranking(m).of)(id)
}

pub proof fn lemma_child_is_lower(m: Nodes, id: u128, c: u128)
    requires
        wf(m),
        m.contains_key(id),
        m[id].children.contains(c) || m[id].focus_order.contains(c),
    ensures
        m.contains_key(c),
        m[c].parent == Some(id),
        height(m, c) < height(m, id),
{
    assert(node_linked(m, id));
    assert(m[id].focus_order.contains(c) <==> m[id].children.contains(c));
    assert(ranked(m, ranking(m)));
}

pub proof fn lemma_parent_is_higher(m: Nodes, id: u128)
    requires
        wf(m),
        m.contains_key(id),
        m[id].parent is Some,
    ensures
        m.contains_key(m[id].parent->0),
        0 <= depth_bound(m, m[id].parent->0) < depth_bound(m, id),
        m[m[id].parent->0].children.contains(id),
        m[id].parent->0 != id,
{
    assert(node_linked(m, id));
    assert(ranked(m, ranking(m)));
}

/// The containers below `id`, from child `i` of it on: each child before its
/// own descendants, and those before the next child.
pub open spec fn descendants_from(m: Nodes, id: u128, i: int) -> Seq<u128>
    decreases height(m, id), m[id].children.len() - i,
    when wf(m) && m.contains_key(id) && 0 <= i
    via descendants_from_decreases
{
    if i >= m[id].children.len() {
        Seq::empty()
    } else {
        let c = m[id].children[i];
        seq![c] + descendants_from(m, c, 0) + descendants_from(m, id, i + 1)
    }
}

#[via_fn]
proof fn descendants_from_decreases(m: Nodes, id: u128, i: int) {
    if i < m[id].children.len() {
        let c = m[id].children[i];
        assert(m[id].children.contains(c));
        lemma_child_is_lower(m, id, c);
    }
}

/// Every container below `id`.
pub open spec fn descendants(m: Nodes, id: u128) -> Seq<u128> {
    descendants_from(m, id, 0)
}

/// The childless containers at or below `id`, from child `i` of its focus
/// order on, the most recently focused first. With `i` below zero, the
/// container itself counts if it is childless.
pub open spec fn focus_leaves_from(m: Nodes, id: u128, i: int) -> Seq<u128>
    decreases height(m, id), m[id].focus_order.len() - i,
    when wf(m) && m.contains_key(id) && -1 <= i
    via focus_leaves_from_decreases
{
    if i < 0 {
        if m[id].focus_order.len() == 0 {
            seq![id]
        } else {
            focus_leaves_from(m, id, 0)
        }
    } else if i >= m[id].focus_order.len() {
        Seq::empty()
    } else {
        focus_leaves_from(m, m[id].focus_order[i], -1) + focus_leaves_from(m, id, i + 1)
    }
}

#[via_fn]
proof fn focus_leaves_from_decreases(m: Nodes, id: u128, i: int) {
    if 0 <= i < m[id].focus_order.len() {
        let c = m[id].focus_order[i];
        assert(m[id].focus_order.contains(c));
        lemma_child_is_lower(m, id, c);
    }
}

/// The childless containers below `id`, the most recently focused first.
pub open spec fn descendant_focus_order(m: Nodes, id: u128) -> Seq<u128> {
    focus_leaves_from(m, id, 0)
}

/// The childless container reached from `id` by following the most recent
/// focus: `id` itself if it has no children.
pub open spec fn focused_leaf(m: Nodes, id: u128) -> u128
    decreases height(m, id),
    when wf(m) && m.contains_key(id)
    via focused_leaf_decreases
{
    if m[id].focus_order.len() == 0 {
        id
    } else {
        focused_leaf(m, m[id].focus_order[0])
    }
}

#[via_fn]
proof fn focused_leaf_decreases(m: Nodes, id: u128) {
    if m[id].focus_order.len() > 0 {
        let c = m[id].focus_order[0];
        assert(m[id].focus_order.contains(c));
        lemma_child_is_lower(m, id, c);
    }
}

/// `id`, its parent, its parent's parent and so on.
pub open spec fn lineage(m: Nodes, id: u128) -> Seq<u128>
    decreases depth_bound(m, id),
    when wf(m) && m.contains_key(id)
    via lineage_decreases
{
    match m[id].parent {
        None => seq![id],
        Some(p) => seq![id] + lineage(m, p),
    }
}

#[via_fn]
proof fn lineage_decreases(m: Nodes, id: u128) {
    if m[id].parent is Some {
        lemma_parent_is_higher(m, id);
    }
}

/// The nearest container of kind `kind` that is `id` or an ancestor of it.
pub open spec fn nearest(m: Nodes, id: u128, kind: ContainerKind) -> Option<u128>
    decreases depth_bound(m, id),
    when wf(m) && m.contains_key(id)
    via nearest_decreases
{
    if m[id].kind == kind {
        Some(id)
    } else {
        match m[id].parent {
            None => None,
            Some(p) => nearest(m, p, kind),
        }
    }
}

#[via_fn]
proof fn nearest_decreases(m: Nodes, id: u128, kind: ContainerKind) {
    if m[id].parent is Some {
        lemma_parent_is_higher(m, id);
    }
}

/// The nearest container with a layout of its own that is `id` or an ancestor
/// of it.
pub open spec fn nearest_direction(m: Nodes, id: u128) -> Option<u128>
    decreases depth_bound(m, id),
    when wf(m) && m.contains_key(id)
    via nearest_direction_decreases
{
    if m[id].kind.spec_is_direction() {
        Some(id)
    } else {
        match m[id].parent {
            None => None,
            Some(p) => nearest_direction(m, p),
        }
    }
}

#[via_fn]
proof fn nearest_direction_decreases(m: Nodes, id: u128) {
    if m[id].parent is Some {
        lemma_parent_is_higher(m, id);
    }
}

/// The id that comes `k` after `first`, where the first follows the last.
pub open spec fn counted_on(first: u128, k: nat) -> u128 {
    ((first + k) % (u128::MAX + 1)) as u128
}

/// A set of `n` ids lacks one of any `n + 1` ids in a row.
proof fn lemma_one_is_free(taken: Set<u128>, first: u128, n: nat)
    requires
        taken.finite(),
        taken.len() == n,
        n <= usize::MAX,
    ensures
        exists|k: nat| k <= n && !taken.contains(#[trigger] counted_on(first, k)),
{
    let row = counted_set(first, (n + 1) as nat);
    lemma_counted_on_len(first, (n + 1) as nat);
    if row.subset_of(taken) {
        vstd::set_lib::lemma_len_subset(row, taken);
    } else {
        let x = choose|x: u128| row.contains(x) && !taken.contains(x);
        let k = choose|k: nat| k < n + 1 && x == #[trigger] counted_on(first, k);
        assert(k <= n && !taken.contains(counted_on(first, k)));
    }
}

/// The `n` ids from `first` on.
spec fn counted_set(first: u128, n: nat) -> Set<u128> {
    Set::new(|x: u128| exists|k: nat| k < n && x == #[trigger] counted_on(first, k))
}

proof fn lemma_counted_on_len(first: u128, n: nat)
    requires
        n <= u128::MAX,
    ensures
        counted_set(first, n).finite(),
        counted_set(first, n).len() == n,
    decreases n,
{
    let all = counted_set(first, n);
    if n == 0 {
        assert(all =~= Set::<u128>::empty());
    } else {
        let last = (n - 1) as nat;
        let rest = counted_set(first, last);
        let x = counted_on(first, last);
        lemma_counted_on_len(first, last);
        assert(!rest.contains(x)) by {
            assert forall|k: nat| k < last implies #[trigger] counted_on(first, k) != x by {}
        }
        assert(all =~= rest.insert(x)) by {
            assert forall|y: u128| all.contains(y) == rest.insert(x).contains(y) by {
                if all.contains(y) {
                    let k = choose|k: nat| k < n && y == #[trigger] counted_on(first, k);
                    if k < last {
                        assert(rest.contains(y));
                    }
                }
                if rest.contains(y) {
                    let k = choose|k: nat| k < last && y == #[trigger] counted_on(first, k);
                    assert(k < n && y == counted_on(first, k));
                }
                if y == x {
                    assert(last < n && y == counted_on(first, last));
                }
            }
        }
    }
}

/// A tree of containers.
pub struct Tree {
    nodes: HashMap<u128, Node>,
}

impl View for Tree {
    type V = Nodes;

    closed spec fn view(&self) -> Nodes {
        self.nodes@.map_values(|n: Node| n@)
    }
}

impl Tree {
    /// A tree that holds no container yet.
    pub fn new() -> (tree: Tree)
        ensures
            tree@ == Map::<u128, NodeView>::empty(),
            wf(tree@),
    {
        let tree = Tree { nodes: HashMap::new() };
        proof {
            assert(tree@ =~= Map::<u128, NodeView>::empty());
            let r = Ranking { of: |id: u128| 0nat, top: 0 };
            assert(ranked(tree@, r));
        }
        tree
    }

    pub fn contains(&self, id: u128) -> (result: bool)
        ensures
            result == self@.contains_key(id),
    {
        self.nodes.contains_key(&id)
    }

    /// The first id that is not in use, counted on from `first`.
    pub fn free_id(&self, first: u128) -> (id: u128)
        ensures
            !self@.contains_key(id),
            exists|i: nat|
                id == #[trigger] counted_on(first, i) && forall|k: nat|
                    k < i ==> self@.contains_key(#[trigger] counted_on(first, k)),
    {
        let n: usize = self.nodes.len();
        let mut id: u128 = first;
        let mut i: usize = 0;
        while i < n && self.contains(id)
            invariant
                i <= n,
                n == self.nodes@.len(),
                id == counted_on(first, i as nat),
                forall|k: nat| k < i ==> self@.contains_key(#[trigger] counted_on(first, k)),
            decreases n - i,
        {
            id = id.wrapping_add(1);
            i = i + 1;
        }
        proof {
            lemma_one_is_free(self.nodes@.dom(), first, n as nat);
            let k = choose|k: nat|
                k <= n && !self.nodes@.dom().contains(#[trigger] counted_on(first, k));
            assert(!self@.contains_key(counted_on(first, k)));
        }
        id
    }

    /// The node at `id`, if the tree holds one.
    pub fn node(&self, id: u128) -> (result: Option<&Node>)
        ensures
            match result {
                Some(n) => self@.contains_key(id) && n@ == self@[id],
                None => !self@.contains_key(id),
            },
    {
        self.nodes.get(&id)
    }

    /// The node at `id`, which the tree must hold.
    pub fn get(&self, id: u128) -> (result: &Node)
        requires
            self@.contains_key(id),
        ensures
            result@ == self@[id],
    {
        self.nodes.get(&id).unwrap()
    }

    /// A handle on the container at `id`, if the tree holds it.
    pub fn container(&self, id: u128) -> (result: Option<Container>)
        ensures
            result == (if self@.contains_key(id) {
                Some(Container::spec_of(self@[id].kind, id))
            } else {
                None
            }),
    {
        match self.nodes.get(&id) {
            Some(n) => Some(Container::of(n.kind, id)),
            None => None,
        }
    }
}

/// The position of `id` in `ids`, if it is there.
pub fn position(ids: &Vec<u128>, id: u128) -> (result: Option<usize>)
    ensures
        match result {
            Some(i) => i < ids@.len() && ids@[i as int] == id && forall|j: int|
                0 <= j < i ==> ids@[j] != id,
            None => !ids@.contains(id),
        },
{
    let mut i: usize = 0;
    while i < ids.len()
        invariant
            i <= ids@.len(),
            forall|j: int| 0 <= j < i ==> ids@[j] != id,
        decreases ids@.len() - i,
    {
        if ids[i] == id {
            return Some(i);
        }
        i = i + 1;
    }
    None
}

/// `ids` without its first `id`.
pub open spec fn without(ids: Seq<u128>, id: u128) -> Seq<u128> {
    ids.remove(ids.index_of(id))
}

/// `ids` with `items` in the place of the one at `i`.
pub open spec fn splice(ids: Seq<u128>, i: int, items: Seq<u128>) -> Seq<u128> {
    ids.subrange(0, i) + items + ids.subrange(i + 1, ids.len() as int)
}

/// `ids` with `id` moved to the front.
pub open spec fn to_front(ids: Seq<u128>, id: u128) -> Seq<u128> {
    seq![id] + without(ids, id)
}

pub proof fn lemma_index_of(ids: Seq<u128>, id: u128, i: int)
    requires
        ids.no_duplicates(),
        0 <= i < ids.len(),
        ids[i] == id,
    ensures
        ids.index_of(id) == i,
        ids.contains(id),
{
    let k = ids.index_of(id);
    assert(ids.contains(id));
    assert(0 <= k < ids.len() && ids[k] == id);
}

pub proof fn lemma_without(ids: Seq<u128>, id: u128)
    requires
        ids.no_duplicates(),
        ids.contains(id),
    ensures
        without(ids, id).no_duplicates(),
        without(ids, id).len() == ids.len() - 1,
        forall|x: u128| #[trigger] without(ids, id).contains(x) <==> ids.contains(x) && x != id,
{
    let k = ids.index_of(id);
    assert(0 <= k < ids.len() && ids[k] == id);
    let w = without(ids, id);
    assert forall|x: u128| #[trigger] w.contains(x) <==> ids.contains(x) && x != id by {
        if w.contains(x) {
            let j = choose|j: int| 0 <= j < w.len() && w[j] == x;
            assert(w[j] == ids[if j < k { j } else { j + 1 }]);
        }
        if ids.contains(x) && x != id {
            let j = choose|j: int| 0 <= j < ids.len() && ids[j] == x;
            assert(w[if j < k { j } else { j - 1 }] == x);
        }
    }
}

pub proof fn lemma_insert(ids: Seq<u128>, i: int, id: u128)
    requires
        ids.no_duplicates(),
        !ids.contains(id),
        0 <= i <= ids.len(),
    ensures
        ids.insert(i, id).no_duplicates(),
        forall|x: u128| #[trigger] ids.insert(i, id).contains(x) <==> ids.contains(x) || x == id,
{
    let w = ids.insert(i, id);
    assert(w[i] == id);
    assert forall|x: u128| #[trigger] w.contains(x) <==> ids.contains(x) || x == id by {
        if w.contains(x) {
            let j = choose|j: int| 0 <= j < w.len() && w[j] == x;
            if j < i {
                assert(ids[j] == x);
            } else if j > i {
                assert(ids[j - 1] == x);
            }
        }
        if ids.contains(x) {
            let j = choose|j: int| 0 <= j < ids.len() && ids[j] == x;
            assert(w[if j < i { j } else { j + 1 }] == x);
        }
    }
    assert forall|a: int, b: int| 0 <= a < w.len() && 0 <= b < w.len() && a != b implies w[a]
        != w[b] by {
        if a == i {
            assert(w[b] == ids[if b < i { b } else { b - 1 }]);
        } else if b == i {
            assert(w[a] == ids[if a < i { a } else { a - 1 }]);
        } else {
            assert(w[a] == ids[if a < i { a } else { a - 1 }]);
            assert(w[b] == ids[if b < i { b } else { b - 1 }]);
        }
    }
}

pub proof fn lemma_splice(ids: Seq<u128>, i: int, items: Seq<u128>)
    requires
        ids.no_duplicates(),
        items.no_duplicates(),
        0 <= i < ids.len(),
        forall|x: u128| #[trigger] items.contains(x) ==> !ids.contains(x),
    ensures
        splice(ids, i, items).no_duplicates(),
        forall|x: u128| #[trigger]
            splice(ids, i, items).contains(x) <==> items.contains(x) || (ids.contains(x) && x
                != ids[i]),
{
    let w = splice(ids, i, items);
    let n = items.len() as int;
    assert forall|x: u128| #[trigger] w.contains(x) <==> items.contains(x) || (ids.contains(x) && x
        != ids[i]) by {
        if w.contains(x) {
            let j = choose|j: int| 0 <= j < w.len() && w[j] == x;
            if j < i {
                assert(ids[j] == x);
            } else if j < i + n {
                assert(items[j - i] == x);
            } else {
                assert(ids[j - n + 1] == x);
            }
        }
        if items.contains(x) {
            let j = choose|j: int| 0 <= j < items.len() && items[j] == x;
            assert(w[i + j] == x);
        }
        if ids.contains(x) && x != ids[i] {
            let j = choose|j: int| 0 <= j < ids.len() && ids[j] == x;
            assert(w[if j < i { j } else { j + n - 1 }] == x);
        }
    }
    assert forall|a: int, b: int| 0 <= a < b < w.len() implies w[a] != w[b] by {
        let va = if a < i {
            ids[a]
        } else if a < i + n {
            items[a - i]
        } else {
            ids[a - n + 1]
        };
        let vb = if b < i {
            ids[b]
        } else if b < i + n {
            items[b - i]
        } else {
            ids[b - n + 1]
        };
        assert(w[a] == va && w[b] == vb);
        if i <= a < i + n {
            assert(items.contains(va));
        }
        if i <= b < i + n {
            assert(items.contains(vb));
        }
    }
}

/// The tree after the container at `id` has left its parent.
pub open spec fn detached(m: Nodes, id: u128) -> Nodes {
    let p = m[id].parent->0;
    m.insert(
        p,
        m[p].with_children(without(m[p].children, id), without(m[p].focus_order, id)),
    ).insert(id, m[id].with_parent(None))
}

/// The tree after the container at `id` has become child `i` of `p`, with
/// place `fi` in its focus order.
pub open spec fn attached(m: Nodes, id: u128, p: u128, i: int, fi: int) -> Nodes {
    m.insert(
        p,
        m[p].with_children(m[p].children.insert(i, id), m[p].focus_order.insert(fi, id)),
    ).insert(id, m[id].with_parent(Some(p)))
}

/// The tree after the container at `s` has been taken out and its children
/// have taken its place, in the layout and in the focus order.
pub open spec fn flattened(m: Nodes, s: u128) -> Nodes {
    let p = m[s].parent->0;
    Map::new(
        |x: u128| m.contains_key(x) && x != s,
        |x: u128|
            if x == p {
                m[p].with_children(
                    splice(m[p].children, m[p].children.index_of(s), m[s].children),
                    splice(m[p].focus_order, m[p].focus_order.index_of(s), m[s].focus_order),
                )
            } else if m[s].children.contains(x) {
                m[x].with_parent(Some(p))
            } else {
                m[x]
            },
    )
}

/// The tree after the childless, parentless container at `s` has taken the
/// place of `c`, and `c` has become its only child.
pub open spec fn wrapped(m: Nodes, s: u128, c: u128) -> Nodes {
    let p = m[c].parent->0;
    m.insert(
        p,
        m[p].with_children(
            splice(m[p].children, m[p].children.index_of(c), seq![s]),
            splice(m[p].focus_order, m[p].focus_order.index_of(c), seq![s]),
        ),
    ).insert(s, m[s].with_children(seq![c], seq![c]).with_parent(Some(p))).insert(
        c,
        m[c].with_parent(Some(s)),
    )
}

pub proof fn lemma_detached_wf(m: Nodes, id: u128)
    requires
        wf(m),
        m.contains_key(id),
        m[id].parent is Some,
    ensures
        wf(detached(m, id)),
        detached(m, id).dom() == m.dom(),
{
    let p = m[id].parent->0;
    let d = detached(m, id);
    lemma_parent_is_higher(m, id);
    assert(node_linked(m, p));
    assert(node_linked(m, id));
    assert(d.dom() =~= m.dom());
    assert(m[p].focus_order.contains(id) <==> m[p].children.contains(id));
    lemma_without(m[p].children, id);
    lemma_without(m[p].focus_order, id);
    assert forall|x: u128| #[trigger] d.contains_key(x) implies node_linked(d, x) by {
        assert(node_linked(m, x));
        assert forall|c: u128| #[trigger] d[x].children.contains(c) implies d.contains_key(c)
            && d[c].parent == Some(x) by {
            assert(m[x].children.contains(c));
        }
        if x == p {
            assert forall|c: u128| #[trigger]
                d[x].focus_order.contains(c) <==> d[x].children.contains(c) by {
                assert(m[p].focus_order.contains(c) <==> m[p].children.contains(c));
            }
        }
        if d[x].parent is Some {
            let q = d[x].parent->0;
            assert(m[q].children.contains(x));
            if q == p {
                assert(without(m[p].children, id).contains(x));
            }
        }
    }
    assert(ranked(m, ranking(m)));
    assert(ranked(d, ranking(m))) by {
        assert forall|x: u128| #[trigger] d.contains_key(x) && d[x].parent is Some implies (ranking(
            m,
        ).of)(x) < (ranking(m).of)(d[x].parent->0) by {
            assert(m.contains_key(x));
        }
    }
}

pub proof fn lemma_attached_wf(m: Nodes, id: u128, p: u128, i: int, fi: int)
    requires
        wf(m),
        m.contains_key(id),
        m.contains_key(p),
        id != p,
        m[id].parent is None,
        m[id].children.len() == 0,
        !m[p].kind.spec_is_window(),
        0 <= i <= m[p].children.len(),
        0 <= fi <= m[p].focus_order.len(),
    ensures
        wf(attached(m, id, p, i, fi)),
        attached(m, id, p, i, fi).dom() == m.dom(),
{
    let d = attached(m, id, p, i, fi);
    assert(node_linked(m, p));
    assert(node_linked(m, id));
    assert(d.dom() =~= m.dom());
    assert(!m[p].children.contains(id));
    assert(m[p].focus_order.contains(id) <==> m[p].children.contains(id));
    lemma_insert(m[p].children, i, id);
    lemma_insert(m[p].focus_order, fi, id);
    assert forall|x: u128| #[trigger] d.contains_key(x) implies node_linked(d, x) by {
        assert(node_linked(m, x));
        assert forall|c: u128| #[trigger] d[x].children.contains(c) implies d.contains_key(c)
            && d[c].parent == Some(x) by {
            assert(m[x].children.contains(c) || (x == p && c == id));
        }
        if x == p {
            assert forall|c: u128| #[trigger]
                d[x].focus_order.contains(c) <==> d[x].children.contains(c) by {
                assert(m[p].focus_order.contains(c) <==> m[p].children.contains(c));
            }
        }
        if d[x].parent is Some {
            let q = d[x].parent->0;
            if x != id {
                assert(m[q].children.contains(x));
            }
            if q == p {
                assert(m[p].children.insert(i, id).contains(x));
            }
            if q == id {
                assert(m[id].children.contains(x));
                assert(false);
            }
        }
    }
    let r = ranking(m);
    assert(ranked(m, r));
    let r2 = Ranking {
        of: |x: u128|
            if x == id {
                0nat
            } else {
                (r.of)(x) + 1
            },
        top: r.top + 1,
    };
    assert(ranked(d, r2)) by {
        assert forall|x: u128| #[trigger] d.contains_key(x) && d[x].parent is Some implies (r2.of)(x)
            < (r2.of)(d[x].parent->0) by {
            assert(m.contains_key(x));
            if x != id {
                assert(node_linked(m, x));
                let q = m[x].parent->0;
                assert(m[q].children.contains(x));
                assert(q != id);
            }
        }
        assert forall|x: u128| #[trigger] d.contains_key(x) implies (r2.of)(x) <= r2.top by {
            assert(m.contains_key(x));
        }
    }
}

pub proof fn lemma_flattened_wf(m: Nodes, s: u128)
    requires
        wf(m),
        m.contains_key(s),
        m[s].parent is Some,
    ensures
        wf(flattened(m, s)),
        flattened(m, s).dom() == m.dom().remove(s),
{
    let p = m[s].parent->0;
    let d = flattened(m, s);
    lemma_parent_is_higher(m, s);
    assert(node_linked(m, p));
    assert(node_linked(m, s));
    assert(d.dom() =~= m.dom().remove(s));
    assert(m[p].focus_order.contains(s) <==> m[p].children.contains(s));
    let i = m[p].children.index_of(s);
    let fi = m[p].focus_order.index_of(s);
    assert forall|x: u128| #[trigger] m[s].children.contains(x) implies !m[p].children.contains(
        x,
    ) by {
        assert(m[x].parent == Some(s));
    }
    assert forall|x: u128| #[trigger] m[s].focus_order.contains(x) implies !m[p].focus_order.contains(
        x,
    ) by {
        assert(m[s].children.contains(x));
        assert(m[p].focus_order.contains(x) <==> m[p].children.contains(x));
    }
    lemma_splice(m[p].children, i, m[s].children);
    lemma_splice(m[p].focus_order, fi, m[s].focus_order);
    assert forall|x: u128| #[trigger] d.contains_key(x) implies node_linked(d, x) by {
        assert(node_linked(m, x));
        if x == p {
            assert forall|c: u128| #[trigger]
                d[x].focus_order.contains(c) <==> d[x].children.contains(c) by {
                assert(m[p].focus_order.contains(c) <==> m[p].children.contains(c));
                assert(m[s].focus_order.contains(c) <==> m[s].children.contains(c));
            }
            assert(!m[s].children.contains(p)) by {
                if m[s].children.contains(p) {
                    lemma_child_is_lower(m, s, p);
                    lemma_child_is_lower(m, p, s);
                }
            }
            assert forall|c: u128| #[trigger] d[x].children.contains(c) implies d.contains_key(c)
                && d[c].parent == Some(x) by {
                assert(m[s].children.contains(c) || m[p].children.contains(c));
                if m[s].children.contains(c) {
                    lemma_child_is_lower(m, s, c);
                } else {
                    lemma_child_is_lower(m, p, c);
                }
            }
        } else {
            assert(d[x].children == m[x].children && d[x].focus_order == m[x].focus_order);
            assert forall|c: u128| #[trigger] d[x].children.contains(c) implies d.contains_key(c)
                && d[c].parent == Some(x) by {
                assert(m[x].children.contains(c));
                lemma_child_is_lower(m, x, c);
                assert(!m[s].children.contains(c));
                if c == p {
                    assert(d[c].parent == m[p].parent);
                }
            }
        }
        if d[x].parent is Some {
            if m[s].children.contains(x) && x != p {
                assert(d[p].children.contains(x));
            } else {
                let q = m[x].parent->0;
                assert(m[q].children.contains(x));
                if q == p {
                    assert(d[p].children.contains(x));
                }
                assert(q != s) by {
                    if q == s {
                        assert(m[s].children.contains(x));
                        assert(x == p);
                        lemma_child_is_lower(m, s, p);
                        lemma_child_is_lower(m, p, s);
                    }
                }
            }
        }
    }
    let r = ranking(m);
    assert(ranked(m, r));
    assert(ranked(d, r)) by {
        assert forall|x: u128| #[trigger] d.contains_key(x) && d[x].parent is Some implies (r.of)(x)
            < (r.of)(d[x].parent->0) by {
            assert(m.contains_key(x));
            if m[s].children.contains(x) {
                lemma_child_is_lower(m, s, x);
                lemma_child_is_lower(m, p, s);
            }
        }
        assert forall|x: u128| #[trigger] d.contains_key(x) implies (r.of)(x) <= r.top by {
            assert(m.contains_key(x));
        }
    }
}

pub proof fn lemma_wrapped_wf(m: Nodes, s: u128, c: u128)
    requires
        wf(m),
        m.contains_key(s),
        m.contains_key(c),
        s != c,
        m[s].parent is None,
        m[s].children.len() == 0,
        !m[s].kind.spec_is_window(),
        m[c].parent is Some,
        m[c].parent != Some(s),
    ensures
        wf(wrapped(m, s, c)),
        wrapped(m, s, c).dom() == m.dom(),
{
    let p = m[c].parent->0;
    let d = wrapped(m, s, c);
    lemma_parent_is_higher(m, c);
    assert(node_linked(m, p));
    assert(node_linked(m, s));
    assert(node_linked(m, c));
    assert(d.dom() =~= m.dom());
    assert(m[p].focus_order.contains(c) <==> m[p].children.contains(c));
    assert(!m[p].children.contains(s));
    assert(m[p].focus_order.contains(s) <==> m[p].children.contains(s));
    let one = seq![s];
    assert(one.no_duplicates());
    assert forall|x: u128| #[trigger] one.contains(x) implies x == s by {}
    assert(one[0] == s);
    lemma_splice(m[p].children, m[p].children.index_of(c), one);
    lemma_splice(m[p].focus_order, m[p].focus_order.index_of(c), one);
    let only = seq![c];
    assert(only[0] == c);
    assert(only.contains(c));
    assert(one.contains(s));
    assert forall|x: u128| #[trigger] d.contains_key(x) implies node_linked(d, x) by {
        assert(node_linked(m, x));
        if x == p {
            assert forall|y: u128| #[trigger]
                d[x].focus_order.contains(y) <==> d[x].children.contains(y) by {
                assert(m[p].focus_order.contains(y) <==> m[p].children.contains(y));
            }
            assert forall|y: u128| #[trigger] d[x].children.contains(y) implies d.contains_key(y)
                && d[y].parent == Some(x) by {
                if !one.contains(y) {
                    assert(m[p].children.contains(y));
                    lemma_child_is_lower(m, p, y);
                }
            }
        } else if x == s {
            assert forall|y: u128| #[trigger] d[x].children.contains(y) implies y == c by {}
            assert(d[x].children == only && d[x].focus_order == only);
            assert(only.no_duplicates());
        } else {
            assert(d[x].children == m[x].children && d[x].focus_order == m[x].focus_order);
            assert forall|y: u128| #[trigger] d[x].children.contains(y) implies d.contains_key(y)
                && d[y].parent == Some(x) by {
                assert(m[x].children.contains(y));
                lemma_child_is_lower(m, x, y);
            }
        }
        if d[x].parent is Some {
            if x == s {
                assert(d[p].children.contains(s));
            } else if x == c {
                assert(d[s].children.contains(c));
            } else {
                let q = m[x].parent->0;
                assert(m[q].children.contains(x));
                assert(q != s);
                if q == p {
                    assert(d[p].children.contains(x));
                }
            }
        }
    }
    let r = ranking(m);
    assert(ranked(m, r));
    let r2 = Ranking {
        of: |x: u128|
            if x == s {
                2 * (r.of)(c) + 1
            } else {
                2 * (r.of)(x)
            },
        top: 2 * r.top + 1,
    };
    assert(ranked(d, r2)) by {
        assert forall|x: u128| #[trigger] d.contains_key(x) && d[x].parent is Some implies (r2.of)(x)
            < (r2.of)(d[x].parent->0) by {
            assert(m.contains_key(x));
            lemma_child_is_lower(m, p, c);
            if x != s && x != c {
                assert(node_linked(m, x));
                let q = m[x].parent->0;
                assert(m[q].children.contains(x));
                assert(q != s);
            }
        }
        assert forall|x: u128| #[trigger] d.contains_key(x) implies (r2.of)(x) <= r2.top by {
            assert(m.contains_key(x));
            assert(m.contains_key(c));
        }
    }
}

/// Whether `m` gained only the childless, parentless `n` at `id`.
pub proof fn lemma_inserted_wf(m: Nodes, id: u128, n: NodeView)
    requires
        wf(m),
        !m.contains_key(id),
        n.parent is None,
        n.children.len() == 0,
        n.focus_order.len() == 0,
    ensures
        wf(m.insert(id, n)),
{
    let d = m.insert(id, n);
    assert forall|x: u128| #[trigger] d.contains_key(x) implies node_linked(d, x) by {
        if x != id {
            assert(node_linked(m, x));
            assert forall|y: u128| #[trigger] d[x].children.contains(y) implies d.contains_key(y)
                && d[y].parent == Some(x) by {
                assert(m[x].children.contains(y));
            }
        }
    }
    let r = ranking(m);
    assert(ranked(m, r));
    let r2 = Ranking {
        of: |x: u128|
            if x == id {
                0nat
            } else {
                (r.of)(x)
            },
        top: r.top,
    };
    assert(ranked(d, r2)) by {
        assert forall|x: u128| #[trigger] d.contains_key(x) && d[x].parent is Some implies (r2.of)(x)
            < (r2.of)(d[x].parent->0) by {
            assert(m.contains_key(x));
            assert(node_linked(m, x));
        }
        assert forall|x: u128| #[trigger] d.contains_key(x) implies (r2.of)(x) <= r2.top by {
            if x != id {
                assert(m.contains_key(x));
            }
        }
    }
}

/// Whether replacing what a node says of itself, but not its links, keeps a
/// tree a tree.
pub proof fn lemma_relabelled_wf(m: Nodes, id: u128, n: NodeView)
    requires
        wf(m),
        m.contains_key(id),
        n.parent == m[id].parent,
        n.children == m[id].children,
        n.focus_order.no_duplicates(),
        forall|x: u128| #[trigger] n.focus_order.contains(x) <==> m[id].focus_order.contains(x),
        n.kind.spec_is_window() == m[id].kind.spec_is_window(),
    ensures
        wf(m.insert(id, n)),
        m.insert(id, n).dom() == m.dom(),
{
    let d = m.insert(id, n);
    assert(d.dom() =~= m.dom());
    assert forall|x: u128| #[trigger] d.contains_key(x) implies node_linked(d, x) by {
        assert(node_linked(m, x));
        assert forall|y: u128| #[trigger] d[x].children.contains(y) implies d.contains_key(y)
            && d[y].parent == Some(x) by {
            assert(m[x].children.contains(y));
        }
        assert forall|y: u128| #[trigger]
            d[x].focus_order.contains(y) <==> d[x].children.contains(y) by {
            assert(m[x].focus_order.contains(y) <==> m[x].children.contains(y));
        }
    }
    let r = ranking(m);
    assert(ranked(m, r));
    assert(ranked(d, r)) by {
        assert forall|x: u128| #[trigger] d.contains_key(x) && d[x].parent is Some implies (r.of)(x)
            < (r.of)(d[x].parent->0) by {
            assert(m.contains_key(x));
        }
        assert forall|x: u128| #[trigger] d.contains_key(x) implies (r.of)(x) <= r.top by {
            assert(m.contains_key(x));
        }
    }
}

/// The child of `x` that is `id` or an ancestor of it, where `x` is an ancestor
/// of `id`.
pub open spec fn step_below(m: Nodes, id: u128, x: u128) -> Option<u128>
    decreases depth_bound(m, id),
    when wf(m) && m.contains_key(id)
    via step_below_decreases
{
    match m[id].parent {
        None => None,
        Some(p) => if p == x {
            Some(id)
        } else {
            step_below(m, p, x)
        },
    }
}

#[via_fn]
proof fn step_below_decreases(m: Nodes, id: u128, x: u128) {
    if m[id].parent is Some {
        lemma_parent_is_higher(m, id);
    }
}

/// The tree after the container at `id` has been given the focus: in each
/// ancestor of it, the child on the way to it comes first.
pub open spec fn refocused(m: Nodes, id: u128) -> Nodes {
    Map::new(
        |x: u128| m.contains_key(x),
        |x: u128|
            match step_below(m, id, x) {
                Some(c) => m[x].with_children(m[x].children, to_front(m[x].focus_order, c)),
                None => m[x],
            },
    )
}

pub proof fn lemma_step_below(m: Nodes, id: u128, x: u128)
    requires
        wf(m),
        m.contains_key(id),
        step_below(m, id, x) is Some,
    ensures
        m.contains_key(x),
        m.contains_key(step_below(m, id, x)->0),
        m[step_below(m, id, x)->0].parent == Some(x),
        m[x].children.contains(step_below(m, id, x)->0),
        height(m, x) > height(m, id),
        depth_bound(m, x) < depth_bound(m, id),
    decreases depth_bound(m, id),
{
    let p = m[id].parent->0;
    lemma_parent_is_higher(m, id);
    lemma_child_is_lower(m, p, id);
    if p != x {
        lemma_step_below(m, p, x);
    }
}

pub proof fn lemma_to_front(ids: Seq<u128>, id: u128)
    requires
        ids.no_duplicates(),
        ids.contains(id),
    ensures
        to_front(ids, id).no_duplicates(),
        to_front(ids, id)[0] == id,
        to_front(ids, id).len() == ids.len(),
        forall|x: u128| #[trigger] to_front(ids, id).contains(x) <==> ids.contains(x),
{
    lemma_without(ids, id);
    assert(to_front(ids, id) =~= without(ids, id).insert(0, id));
    lemma_insert(without(ids, id), 0, id);
}

pub proof fn lemma_refocused_wf(m: Nodes, id: u128)
    requires
        wf(m),
        m.contains_key(id),
    ensures
        wf(refocused(m, id)),
        refocused(m, id).dom() == m.dom(),
{
    let d = refocused(m, id);
    assert(d.dom() =~= m.dom());
    assert forall|x: u128| #[trigger] d.contains_key(x) implies node_linked(d, x) by {
        assert(node_linked(m, x));
        if step_below(m, id, x) is Some {
            let c = step_below(m, id, x)->0;
            lemma_step_below(m, id, x);
            assert(m[x].focus_order.contains(c) <==> m[x].children.contains(c));
            lemma_to_front(m[x].focus_order, c);
        }
        assert forall|y: u128| #[trigger] d[x].children.contains(y) implies d.contains_key(y)
            && d[y].parent == Some(x) by {
            assert(m[x].children.contains(y));
        }
        assert forall|y: u128| #[trigger]
            d[x].focus_order.contains(y) <==> d[x].children.contains(y) by {
            assert(m[x].focus_order.contains(y) <==> m[x].children.contains(y));
        }
    }
    let r = ranking(m);
    assert(ranked(m, r));
    assert(ranked(d, r)) by {
        assert forall|x: u128| #[trigger] d.contains_key(x) && d[x].parent is Some implies (r.of)(x)
            < (r.of)(d[x].parent->0) by {
            assert(m.contains_key(x));
        }
        assert forall|x: u128| #[trigger] d.contains_key(x) implies (r.of)(x) <= r.top by {
            assert(m.contains_key(x));
        }
    }
}

proof fn lemma_refocused_below(m: Nodes, id: u128, x: u128)
    requires
        wf(m),
        m.contains_key(id),
        m.contains_key(x),
        height(m, x) <= height(m, id),
    ensures
        focused_leaf(refocused(m, id), x) == focused_leaf(m, x),
    decreases height(m, x),
{
    let d = refocused(m, id);
    lemma_refocused_wf(m, id);
    if step_below(m, id, x) is Some {
        lemma_step_below(m, id, x);
    }
    assert(d[x].focus_order == m[x].focus_order);
    if m[x].focus_order.len() > 0 {
        let c = m[x].focus_order[0];
        assert(m[x].focus_order.contains(c));
        lemma_child_is_lower(m, x, c);
        lemma_refocused_below(m, id, c);
    }
}

/// Giving a container the focus makes the most recent focus of each of its
/// ancestors lead to it, and on to whatever it had focused itself.
pub proof fn refocusing_leads_to_the_container(m: Nodes, id: u128, a: u128)
    requires
        wf(m),
        m.contains_key(id),
        lineage(m, id).contains(a),
    ensures
        m.contains_key(a),
        focused_leaf(refocused(m, id), a) == focused_leaf(m, id),
{
    lemma_refocused_below(m, id, id);
    lemma_refocused_above(m, id, id, a);
}

proof fn lemma_refocused_above(m: Nodes, id: u128, cur: u128, a: u128)
    requires
        wf(m),
        m.contains_key(id),
        m.contains_key(cur),
        lineage(m, cur).contains(a),
        focused_leaf(refocused(m, id), cur) == focused_leaf(m, id),
        forall|x: u128|
            #![trigger step_below(m, cur, x)]
            step_below(m, cur, x) is Some ==> step_below(m, id, x) == step_below(m, cur, x),
    ensures
        m.contains_key(a),
        focused_leaf(refocused(m, id), a) == focused_leaf(m, id),
    decreases depth_bound(m, cur),
{
    let d = refocused(m, id);
    lemma_refocused_wf(m, id);
    if a != cur {
        if m[cur].parent is None {
            let l = lineage(m, cur);
            let k = choose|k: int| 0 <= k < l.len() && l[k] == a;
            assert(l[k] == cur);
        }
        let p = m[cur].parent->0;
        lemma_parent_is_higher(m, cur);
        let l = lineage(m, cur);
        let k = choose|k: int| 0 <= k < l.len() && l[k] == a;
        assert(l == seq![cur] + lineage(m, p));
        assert(lineage(m, p)[k - 1] == a);
        assert(lineage(m, p).contains(a));
        assert(step_below(m, cur, p) == Some(cur));
        assert(node_linked(m, p));
        assert(m[p].focus_order.contains(cur) <==> m[p].children.contains(cur));
        lemma_to_front(m[p].focus_order, cur);
        assert(d[p].focus_order[0] == cur);
        assert(focused_leaf(d, p) == focused_leaf(d, cur));
        assert forall|x: u128|
            #![trigger step_below(m, p, x)]
            step_below(m, p, x) is Some implies step_below(m, id, x) == step_below(m, p, x) by {
            lemma_step_below(m, p, x);
            assert(x != p);
            assert(step_below(m, cur, x) == step_below(m, p, x));
        }
        lemma_refocused_above(m, id, p, a);
    }
}

impl Tree {
    /// Writes `node` in the place of the one at `id`.
    fn put(&mut self, id: u128, node: Node)
        ensures
            final(self)@ == old(self)@.insert(id, node@),
    {
        self.nodes.insert(id, node);
        proof {
            assert(self@ =~= old(self)@.insert(id, node@));
        }
    }

    /// Takes the node at `id` out of the map.
    fn take(&mut self, id: u128) -> (node: Node)
        requires
            old(self)@.contains_key(id),
        ensures
            node@ == old(self)@[id],
            final(self)@ == old(self)@.remove(id),
    {
        let node = self.nodes.remove(&id).unwrap();
        proof {
            assert(self@ =~= old(self)@.remove(id));
        }
        node
    }

    fn set_parent(&mut self, id: u128, parent: Option<u128>)
        requires
            old(self)@.contains_key(id),
        ensures
            final(self)@ == old(self)@.insert(id, old(self)@[id].with_parent(parent)),
    {
        let mut node = self.take(id);
        node.parent = parent;
        self.put(id, node);
        proof {
            assert(self@ =~= old(self)@.insert(id, old(self)@[id].with_parent(parent)));
        }
    }

    fn set_children(&mut self, id: u128, children: Vec<u128>, focus_order: Vec<u128>)
        requires
            old(self)@.contains_key(id),
        ensures
            final(self)@ == old(self)@.insert(
                id,
                old(self)@[id].with_children(children@, focus_order@),
            ),
    {
        let mut node = self.take(id);
        node.children = children;
        node.focus_order = focus_order;
        self.put(id, node);
        proof {
            assert(self@ =~= old(self)@.insert(
                id,
                old(self)@[id].with_children(children@, focus_order@),
            ));
        }
    }

    /// Gives the workspace or split at `id` another layout.
    pub fn set_layout(&mut self, id: u128, layout: WorkspaceLayout)
        requires
            wf(old(self)@),
            old(self)@.contains_key(id),
        ensures
            wf(final(self)@),
            final(self)@ == old(self)@.insert(id, old(self)@[id].with_layout(layout)),
            final(self)@.dom() == old(self)@.dom(),
    {
        let mut node = self.take(id);
        node.layout = layout;
        self.put(id, node);
        proof {
            let m = old(self)@;
            assert(self@ =~= m.insert(id, m[id].with_layout(layout)));
            assert(node_linked(m, id));
            lemma_relabelled_wf(m, id, m[id].with_layout(layout));
        }
    }

    /// The name of the container at `id`, if it has one.
    pub fn name(&self, id: u128) -> (result: Option<String>)
        requires
            self@.contains_key(id),
        ensures
            (match result {
                Some(n) => Some(n@),
                None => None,
            }) == self@[id].name,
    {
        match &self.get(id).name {
            Some(n) => Some(n.clone()),
            None => None,
        }
    }

    /// Names the container at `id`.
    pub fn set_name(&mut self, id: u128, name: String)
        requires
            wf(old(self)@),
            old(self)@.contains_key(id),
        ensures
            wf(final(self)@),
            final(self)@ == old(self)@.insert(
                id,
                NodeView { name: Some(name@), ..old(self)@[id] },
            ),
    {
        let mut node = self.take(id);
        node.name = Some(name);
        self.put(id, node);
        proof {
            let m = old(self)@;
            let named = NodeView { name: Some(name@), ..m[id] };
            assert(self@ =~= m.insert(id, named));
            assert(node_linked(m, id));
            lemma_relabelled_wf(m, id, named);
        }
    }

    /// Adds a container that is not linked to any other yet.
    pub fn insert(
        &mut self,
        id: u128,
        kind: ContainerKind,
        layout: WorkspaceLayout,
        state: WindowState,
        name: Option<String>,
        handle: isize,
    )
        requires
            wf(old(self)@),
            !old(self)@.contains_key(id),
        ensures
            wf(final(self)@),
            final(self)@ == old(self)@.insert(
                id,
                (NodeView {
                    kind,
                    parent: None,
                    children: Seq::empty(),
                    focus_order: Seq::empty(),
                    layout,
                    state,
                    name: match name {
                        Some(n) => Some(n@),
                        None => None,
                    },
                    handle,
                }),
            ),
    {
        let node = Node {
            kind,
            parent: None,
            children: Vec::new(),
            focus_order: Vec::new(),
            layout,
            state,
            name,
            handle,
        };
        proof {
            lemma_inserted_wf(self@, id, node@);
        }
        self.put(id, node);
    }

    /// Takes the container at `id` away from its parent.
    pub fn detach(&mut self, id: u128)
        requires
            wf(old(self)@),
            old(self)@.contains_key(id),
            old(self)@[id].parent is Some,
        ensures
            wf(final(self)@),
            final(self)@ == detached(old(self)@, id),
            final(self)@.dom() == old(self)@.dom(),
    {
        let ghost m = self@;
        proof {
            lemma_detached_wf(m, id);
            lemma_parent_is_higher(m, id);
            assert(node_linked(m, m[id].parent->0));
        }
        let p: u128 = self.get(id).parent.unwrap();
        let mut children = self.get(p).children.clone();
        let mut focus_order = self.get(p).focus_order.clone();
        proof {
            assert(children@ =~= m[p].children);
            assert(focus_order@ =~= m[p].focus_order);
            assert(m[p].focus_order.contains(id) <==> m[p].children.contains(id));
        }
        let i: usize = position(&children, id).unwrap();
        let fi: usize = position(&focus_order, id).unwrap();
        proof {
            lemma_index_of(children@, id, i as int);
            lemma_index_of(focus_order@, id, fi as int);
        }
        children.remove(i);
        focus_order.remove(fi);
        self.set_children(p, children, focus_order);
        self.set_parent(id, None);
    }

    /// Makes the childless, parentless container at `id` child `i` of the one
    /// at `p`, with place `fi` in its focus order.
    pub fn attach(&mut self, id: u128, p: u128, i: usize, fi: usize)
        requires
            wf(old(self)@),
            old(self)@.contains_key(id),
            old(self)@.contains_key(p),
            id != p,
            old(self)@[id].parent is None,
            old(self)@[id].children.len() == 0,
            !old(self)@[p].kind.spec_is_window(),
            i <= old(self)@[p].children.len(),
            fi <= old(self)@[p].focus_order.len(),
        ensures
            wf(final(self)@),
            final(self)@ == attached(old(self)@, id, p, i as int, fi as int),
            final(self)@.dom() == old(self)@.dom(),
    {
        let ghost m = self@;
        proof {
            lemma_attached_wf(m, id, p, i as int, fi as int);
        }
        let mut children = self.get(p).children.clone();
        let mut focus_order = self.get(p).focus_order.clone();
        proof {
            assert(children@ =~= m[p].children);
            assert(focus_order@ =~= m[p].focus_order);
        }
        children.insert(i, id);
        focus_order.insert(fi, id);
        self.set_children(p, children, focus_order);
        self.set_parent(id, Some(p));
    }

    /// Puts the childless, parentless container at `s` in the place of `c`, and
    /// `c` into it.
    pub fn wrap(&mut self, s: u128, c: u128)
        requires
            wf(old(self)@),
            old(self)@.contains_key(s),
            old(self)@.contains_key(c),
            s != c,
            old(self)@[s].parent is None,
            old(self)@[s].children.len() == 0,
            !old(self)@[s].kind.spec_is_window(),
            old(self)@[c].parent is Some,
            old(self)@[c].parent != Some(s),
        ensures
            wf(final(self)@),
            final(self)@ == wrapped(old(self)@, s, c),
            final(self)@.dom() == old(self)@.dom(),
    {
        let ghost m = self@;
        proof {
            lemma_wrapped_wf(m, s, c);
            lemma_parent_is_higher(m, c);
            assert(node_linked(m, m[c].parent->0));
        }
        let p: u128 = self.get(c).parent.unwrap();
        let mut children = self.get(p).children.clone();
        let mut focus_order = self.get(p).focus_order.clone();
        proof {
            assert(children@ =~= m[p].children);
            assert(focus_order@ =~= m[p].focus_order);
            assert(m[p].focus_order.contains(c) <==> m[p].children.contains(c));
        }
        let i: usize = position(&children, c).unwrap();
        let fi: usize = position(&focus_order, c).unwrap();
        proof {
            lemma_index_of(children@, c, i as int);
            lemma_index_of(focus_order@, c, fi as int);
        }
        children.set(i, s);
        focus_order.set(fi, s);
        proof {
            assert(children@ =~= splice(m[p].children, i as int, seq![s]));
            assert(focus_order@ =~= splice(m[p].focus_order, fi as int, seq![s]));
        }
        self.set_children(p, children, focus_order);
        let only: Vec<u128> = vec![c];
        let only_focus: Vec<u128> = vec![c];
        proof {
            assert(only@ =~= seq![c]);
            assert(only_focus@ =~= seq![c]);
        }
        self.set_children(s, only, only_focus);
        self.set_parent(s, Some(p));
        self.set_parent(c, Some(s));
        proof {
            assert(self@ =~= wrapped(m, s, c));
        }
    }

    /// Takes the container at `s` out of the tree and lets its children take
    /// its place.
    pub fn flatten(&mut self, s: u128)
        requires
            wf(old(self)@),
            old(self)@.contains_key(s),
            old(self)@[s].parent is Some,
        ensures
            wf(final(self)@),
            final(self)@ == flattened(old(self)@, s),
            final(self)@.dom() == old(self)@.dom().remove(s),
    {
        let ghost m = self@;
        proof {
            lemma_flattened_wf(m, s);
            lemma_parent_is_higher(m, s);
            assert(node_linked(m, m[s].parent->0));
            assert(node_linked(m, s));
        }
        let p: u128 = self.get(s).parent.unwrap();
        let items = self.get(s).children.clone();
        let focus_items = self.get(s).focus_order.clone();
        let siblings = self.get(p).children.clone();
        let focus_siblings = self.get(p).focus_order.clone();
        proof {
            assert(items@ =~= m[s].children);
            assert(focus_items@ =~= m[s].focus_order);
            assert(siblings@ =~= m[p].children);
            assert(focus_siblings@ =~= m[p].focus_order);
            assert(m[p].focus_order.contains(s) <==> m[p].children.contains(s));
        }
        let i: usize = position(&siblings, s).unwrap();
        let fi: usize = position(&focus_siblings, s).unwrap();
        proof {
            lemma_index_of(siblings@, s, i as int);
            lemma_index_of(focus_siblings@, s, fi as int);
        }
        let children = spliced(&siblings, i, &items);
        let focus_order = spliced(&focus_siblings, fi, &focus_items);
        let mut k: usize = 0;
        while k < items.len()
            invariant
                k <= items@.len(),
                items@ == m[s].children,
                wf(m),
                m.contains_key(s),
                m[s].parent == Some(p),
                items@.no_duplicates(),
                self@.dom() == m.dom(),
                forall|x: u128| #[trigger]
                    m.contains_key(x) ==> self@[x] == (if m[s].children.subrange(
                        0,
                        k as int,
                    ).contains(x) {
                        m[x].with_parent(Some(p))
                    } else {
                        m[x]
                    }),
            decreases items@.len() - k,
        {
            let c: u128 = items[k];
            let ghost before = self@;
            proof {
                assert(m[s].children.contains(c));
                lemma_child_is_lower(m, s, c);
                assert(before.contains_key(c));
            }
            self.set_parent(c, Some(p));
            proof {
                assert(self@.dom() =~= m.dom());
                let done = m[s].children.subrange(0, k as int);
                let next = m[s].children.subrange(0, k + 1);
                assert(next =~= done.push(c));
                assert forall|x: u128| #[trigger] m.contains_key(x) implies self@[x] == (
                if next.contains(x) {
                    m[x].with_parent(Some(p))
                } else {
                    m[x]
                }) by {
                    assert(next.contains(x) <==> done.contains(x) || x == c) by {
                        if done.contains(x) {
                            let j = choose|j: int| 0 <= j < done.len() && done[j] == x;
                            assert(next[j] == x);
                        }
                        assert(next[k as int] == c);
                    }
                }
            }
            k = k + 1;
        }
        proof {
            assert(m[s].children.subrange(0, k as int) =~= m[s].children);
            if m[s].children.contains(p) {
                lemma_child_is_lower(m, s, p);
                lemma_child_is_lower(m, p, s);
            }
        }
        self.set_children(p, children, focus_order);
        let _removed = self.take(s);
        proof {
            assert(self@ =~= flattened(m, s));
        }
    }
}

/// Puts `items` in the place of the element at `i`.
fn spliced(ids: &Vec<u128>, i: usize, items: &Vec<u128>) -> (result: Vec<u128>)
    requires
        i < ids@.len(),
    ensures
        result@ == splice(ids@, i as int, items@),
{
    let mut result: Vec<u128> = Vec::new();
    let len: usize = ids.len();
    let mut k: usize = 0;
    while k < i
        invariant
            k <= i < ids@.len(),
            result@ =~= ids@.subrange(0, k as int),
        decreases i - k,
    {
        result.push(ids[k]);
        k = k + 1;
    }
    let mut j: usize = 0;
    while j < items.len()
        invariant
            j <= items@.len(),
            i < ids@.len(),
            result@ =~= ids@.subrange(0, i as int) + items@.subrange(0, j as int),
        decreases items@.len() - j,
    {
        result.push(items[j]);
        j = j + 1;
    }
    let mut k: usize = i + 1;
    while k < len
        invariant
            len == ids@.len(),
            i + 1 <= k <= ids@.len(),
            i < ids@.len(),
            result@ =~= ids@.subrange(0, i as int) + items@ + ids@.subrange(i + 1, k as int),
        decreases ids@.len() - k,
    {
        result.push(ids[k]);
        k = k + 1;
    }
    result
}

impl Tree {
    /// Appends every container below `id` to `out`.
    fn collect_descendants(&self, id: u128, out: &mut Vec<u128>)
        requires
            wf(self@),
            self@.contains_key(id),
        ensures
            final(out)@ == old(out)@ + descendants(self@, id),
        decreases height(self@, id),
    {
        let ghost m = self@;
        let ghost start = out@;
        let children = &self.get(id).children;
        let mut i: usize = 0;
        proof {
            assert(start + descendants_from(m, id, 0) =~= start + descendants(m, id));
        }
        while i < children.len()
            invariant
                i <= children@.len(),
                m == self@,
                wf(m),
                m.contains_key(id),
                children@ == m[id].children,
                out@ + descendants_from(m, id, i as int) == start + descendants(m, id),
            decreases children@.len() - i,
        {
            let c: u128 = children[i];
            let ghost before = out@;
            proof {
                assert(m[id].children.contains(c));
                lemma_child_is_lower(m, id, c);
            }
            out.push(c);
            self.collect_descendants(c, out);
            proof {
                assert(out@ =~= before + (seq![c] + descendants(m, c)));
                assert(descendants_from(m, id, i as int) == seq![c] + descendants_from(m, c, 0)
                    + descendants_from(m, id, i + 1));
                assert(out@ + descendants_from(m, id, i + 1) =~= before + descendants_from(
                    m,
                    id,
                    i as int,
                ));
            }
            i = i + 1;
        }
        proof {
            assert(descendants_from(m, id, i as int) =~= Seq::<u128>::empty());
            assert(out@ + Seq::<u128>::empty() =~= out@);
        }
    }

    /// Every container below `id`, parents before their children.
    pub fn descendants(&self, id: u128) -> (result: Vec<u128>)
        requires
            wf(self@),
            self@.contains_key(id),
        ensures
            result@ == descendants(self@, id),
    {
        let mut out: Vec<u128> = Vec::new();
        self.collect_descendants(id, &mut out);
        proof {
            assert(Seq::<u128>::empty() + descendants(self@, id) =~= descendants(self@, id));
        }
        out
    }

    fn collect_focus_leaves(&self, id: u128, include_self: bool, out: &mut Vec<u128>)
        requires
            wf(self@),
            self@.contains_key(id),
        ensures
            final(out)@ == old(out)@ + focus_leaves_from(
                self@,
                id,
                if include_self {
                    -1
                } else {
                    0
                },
            ),
        decreases height(self@, id),
    {
        let ghost m = self@;
        let ghost start = out@;
        let order = &self.get(id).focus_order;
        if order.len() == 0 {
            if include_self {
                out.push(id);
                proof {
                    assert(out@ =~= start + seq![id]);
                }
            } else {
                proof {
                    assert(out@ =~= start + Seq::<u128>::empty());
                }
            }
            return;
        }
        let mut i: usize = 0;
        while i < order.len()
            invariant
                i <= order@.len(),
                m == self@,
                wf(m),
                m.contains_key(id),
                order@ == m[id].focus_order,
                out@ + focus_leaves_from(m, id, i as int) == start + focus_leaves_from(m, id, 0),
            decreases order@.len() - i,
        {
            let c: u128 = order[i];
            let ghost before = out@;
            proof {
                assert(m[id].focus_order.contains(c));
                lemma_child_is_lower(m, id, c);
            }
            self.collect_focus_leaves(c, true, out);
            proof {
                assert(focus_leaves_from(m, id, i as int) == focus_leaves_from(m, c, -1)
                    + focus_leaves_from(m, id, i + 1));
                assert(out@ + focus_leaves_from(m, id, i + 1) =~= before + focus_leaves_from(
                    m,
                    id,
                    i as int,
                ));
            }
            i = i + 1;
        }
        proof {
            assert(focus_leaves_from(m, id, i as int) =~= Seq::<u128>::empty());
            assert(out@ + Seq::<u128>::empty() =~= out@);
        }
    }

    /// The childless containers below `id`, the most recently focused first.
    pub fn descendant_focus_order(&self, id: u128) -> (result: Vec<u128>)
        requires
            wf(self@),
            self@.contains_key(id),
        ensures
            result@ == descendant_focus_order(self@, id),
    {
        let mut out: Vec<u128> = Vec::new();
        self.collect_focus_leaves(id, false, &mut out);
        proof {
            assert(Seq::<u128>::empty() + descendant_focus_order(self@, id)
                =~= descendant_focus_order(self@, id));
        }
        out
    }

    /// The childless container that the most recent focus leads to from `id`.
    pub fn focused_leaf(&self, id: u128) -> (result: u128)
        requires
            wf(self@),
            self@.contains_key(id),
        ensures
            result == focused_leaf(self@, id),
            self@.contains_key(result),
            self@[result].children.len() == 0,
    {
        let ghost m = self@;
        let mut cur: u128 = id;
        loop
            invariant
                m == self@,
                wf(m),
                m.contains_key(cur),
                focused_leaf(m, cur) == focused_leaf(m, id),
            ensures
                cur == focused_leaf(m, id),
                m.contains_key(cur),
                m[cur].children.len() == 0,
            decreases height(m, cur),
        {
            let order = &self.get(cur).focus_order;
            if order.len() == 0 {
                proof {
                    assert(node_linked(m, cur));
                    if m[cur].children.len() > 0 {
                        assert(m[cur].children.contains(m[cur].children[0]));
                        assert(m[cur].focus_order.contains(m[cur].children[0]));
                    }
                }
                break;
            }
            let c: u128 = order[0];
            proof {
                assert(m[cur].focus_order.contains(c));
                lemma_child_is_lower(m, cur, c);
            }
            cur = c;
        }
        cur
    }

    /// The nearest container of kind `kind` that is `id` or an ancestor of it.
    pub fn nearest(&self, id: u128, kind: ContainerKind) -> (result: Option<u128>)
        requires
            wf(self@),
            self@.contains_key(id),
        ensures
            result == nearest(self@, id, kind),
            result matches Some(x) ==> self@.contains_key(x) && self@[x].kind == kind,
    {
        let ghost m = self@;
        let mut cur: u128 = id;
        loop
            invariant
                m == self@,
                wf(m),
                m.contains_key(cur),
                nearest(m, cur, kind) == nearest(m, id, kind),
            decreases depth_bound(m, cur),
        {
            let node = self.get(cur);
            if node.kind == kind {
                return Some(cur);
            }
            match node.parent {
                None => {
                    return None;
                },
                Some(p) => {
                    proof {
                        lemma_parent_is_higher(m, cur);
                    }
                    cur = p;
                },
            }
        }
    }

    /// The nearest container with a layout that is `id` or an ancestor of it.
    pub fn nearest_direction(&self, id: u128) -> (result: Option<u128>)
        requires
            wf(self@),
            self@.contains_key(id),
        ensures
            result == nearest_direction(self@, id),
            result matches Some(x) ==> self@.contains_key(x)
                && self@[x].kind.spec_is_direction(),
    {
        let ghost m = self@;
        let mut cur: u128 = id;
        loop
            invariant
                m == self@,
                wf(m),
                m.contains_key(cur),
                nearest_direction(m, cur) == nearest_direction(m, id),
            decreases depth_bound(m, cur),
        {
            let node = self.get(cur);
            if node.kind.is_direction() {
                return Some(cur);
            }
            match node.parent {
                None => {
                    return None;
                },
                Some(p) => {
                    proof {
                        lemma_parent_is_higher(m, cur);
                    }
                    cur = p;
                },
            }
        }
    }

    /// Gives the container at `id` the focus.
    pub fn set_focused_descendant(&mut self, id: u128)
        requires
            wf(old(self)@),
            old(self)@.contains_key(id),
        ensures
            wf(final(self)@),
            final(self)@ == refocused(old(self)@, id),
            final(self)@.dom() == old(self)@.dom(),
    {
        let ghost m = self@;
        let mut cur: u128 = id;
        loop
            invariant
                wf(m),
                m.contains_key(id),
                m.contains_key(cur),
                self@.dom() == m.dom(),
                forall|x: u128|
                    #![trigger step_below(m, cur, x)]
                    step_below(m, cur, x) is Some ==> step_below(m, id, x) == step_below(
                        m,
                        cur,
                        x,
                    ),
                forall|x: u128| #[trigger]
                    m.contains_key(x) ==> self@[x] == (match step_below(m, id, x) {
                        Some(c) => if step_below(m, cur, x) is None {
                            m[x].with_children(m[x].children, to_front(m[x].focus_order, c))
                        } else {
                            m[x]
                        },
                        None => m[x],
                    }),
            ensures
                m[cur].parent is None,
            decreases depth_bound(m, cur),
        {
            let parent = self.get(cur).parent;
            proof {
                assert(self@[cur].parent == m[cur].parent);
            }
            match parent {
                None => {
                    break;
                },
                Some(p) => {
                    proof {
                        lemma_parent_is_higher(m, cur);
                        assert(node_linked(m, p));
                        assert(m[p].focus_order.contains(cur) <==> m[p].children.contains(cur));
                        assert(step_below(m, cur, p) == Some(cur));
                        assert(self@[p] == m[p]);
                    }
                    let children = self.get(p).children.clone();
                    let mut focus_order = self.get(p).focus_order.clone();
                    proof {
                        assert(children@ =~= m[p].children);
                        assert(focus_order@ =~= m[p].focus_order);
                    }
                    let fi: usize = position(&focus_order, cur).unwrap();
                    proof {
                        lemma_index_of(focus_order@, cur, fi as int);
                    }
                    focus_order.remove(fi);
                    focus_order.insert(0, cur);
                    proof {
                        assert(focus_order@ =~= to_front(m[p].focus_order, cur));
                    }
                    let ghost before = self@;
                    self.set_children(p, children, focus_order);
                    proof {
                        assert(self@.dom() =~= m.dom());
                        assert forall|x: u128|
                            #![trigger step_below(m, p, x)]
                            step_below(m, p, x) is Some implies step_below(m, id, x) == step_below(
                            m,
                            p,
                            x,
                        ) by {
                            lemma_step_below(m, p, x);
                            assert(x != p);
                            assert(step_below(m, cur, x) == step_below(m, p, x));
                        }
                        assert forall|x: u128| #[trigger] m.contains_key(x) implies self@[x] == (
                        match step_below(m, id, x) {
                            Some(c) => if step_below(m, p, x) is None {
                                m[x].with_children(m[x].children, to_front(m[x].focus_order, c))
                            } else {
                                m[x]
                            },
                            None => m[x],
                        }) by {
                            assert(before.contains_key(x));
                            if x == p {
                                if step_below(m, p, p) is Some {
                                    lemma_step_below(m, p, p);
                                }
                            } else {
                                assert(step_below(m, cur, x) == step_below(m, p, x));
                            }
                        }
                    }
                    cur = p;
                },
            }
        }
        proof {
            assert forall|x: u128| #[trigger] m.contains_key(x) implies self@[x] == refocused(
                m,
                id,
            )[x] by {
                assert(step_below(m, cur, x) is None);
            }
            assert(self@ =~= refocused(m, id));
            lemma_refocused_wf(m, id);
        }
    }
}

} // verus!
