//! Stacks: containers that show one of their windows at a time.

use vstd::prelude::*;

use crate::container::{ContainerKind, TilingDirection, WorkspaceLayout};
use crate::geometry::Direction;
use crate::ids::{fresh_id, is_fresh};
use crate::tree::{attached, descendant_focus_order, descendants, descendants_from, detached,
    flattened, focus_leaves_from, height, lemma_child_is_lower, lemma_detached_wf, lemma_index_of,
    lemma_parent_is_higher, nearest, nearest_direction, node_linked, position, refocused, wf,
    wrapped, NodeView, Nodes, Tree};
use crate::tree_moves::relocated;
use crate::window_state::WindowState;

verus! {

/// A change to the shares that tiling containers take of their parents.
#[derive(Clone, Copy, Debug, PartialEq, Eq, Structural)]
pub enum SizeChange {
    /// The share of `target` becomes its product with the share of `by`.
    Scale { target: u128, by: u128 },
    /// `window` leaves `stack`: its share becomes its product with that of
    /// `stack`, which gives that much up.
    Eject { window: u128, stack: u128 },
    /// The share of `target` is divided by the sum of the shares of all that
    /// are divided with it, unless that sum is zero.
    Divide { target: u128 },
    /// `stack` takes over the share of `child`, which then takes all of it.
    Wrap { stack: u128, child: u128 },
    /// `child` is given an even share of `parent`.
    Join { child: u128, parent: u128 },
}

/// What a command has changed besides the tree.
#[derive(Debug)]
pub struct StackChange {
    /// The containers to be drawn again, in order.
    pub redraw: Vec<u128>,
    /// The changed shares, in the order in which they change.
    pub sizes: Vec<SizeChange>,
}

/// Why a command was refused.
#[derive(Clone, Copy, Debug, PartialEq, Eq, Structural)]
pub enum StackError {
    NoParent,
    NoWorkspace,
    NoNeighbor,
    NoDirectionContainer,
}

/// The first of `ids` that `pred` holds of.
pub open spec fn first_where(ids: Seq<u128>, pred: spec_fn(u128) -> bool) -> Option<u128>
    decreases ids.len(),
{
    if ids.len() == 0 {
        None
    } else if pred(ids[0]) {
        Some(ids[0])
    } else {
        first_where(ids.drop_first(), pred)
    }
}

/// The last of `ids` that `pred` holds of.
pub open spec fn last_where(ids: Seq<u128>, pred: spec_fn(u128) -> bool) -> Option<u128>
    decreases ids.len(),
{
    if ids.len() == 0 {
        None
    } else if pred(ids.last()) {
        Some(ids.last())
    } else {
        last_where(ids.drop_last(), pred)
    }
}

/// Picks the containers that take part in the tiling layout.
pub open spec fn takes_part_in_tiling(m: Nodes) -> spec_fn(u128) -> bool {
    |c: u128| m[c].kind.spec_is_tiling()
}

/// Picks the containers other than `w` that take part in the tiling layout.
pub open spec fn tiles_beside(m: Nodes, w: u128) -> spec_fn(u128) -> bool {
    |c: u128| m[c].kind.spec_is_tiling() && c != w
}

/// Picks the tiling windows.
pub open spec fn is_tiling_window_of(m: Nodes) -> spec_fn(u128) -> bool {
    |c: u128| m[c].kind == ContainerKind::TilingWindow
}

/// Picks the tiling windows other than `w`.
pub open spec fn is_other_tiling_window(m: Nodes, w: u128) -> spec_fn(u128) -> bool {
    |c: u128| m[c].kind == ContainerKind::TilingWindow && c != w
}

/// The children of `id` that take part in the tiling layout.
pub open spec fn tiling_children(m: Nodes, id: u128) -> Seq<u128> {
    m[id].children.filter(takes_part_in_tiling(m))
}

/// The share of each of `ids` becomes its product with that of `by`.
pub open spec fn scales(ids: Seq<u128>, by: u128) -> Seq<SizeChange> {
    ids.map_values(|c: u128| SizeChange::Scale { target: c, by })
}

/// The node of a stack that holds nothing yet.
pub open spec fn new_stack(name: Option<Seq<char>>) -> NodeView {
    NodeView {
        kind: ContainerKind::Stack,
        parent: None,
        children: Seq::empty(),
        focus_order: Seq::empty(),
        layout: WorkspaceLayout::Split(TilingDirection::Horizontal),
        state: WindowState::Tiling,
        name,
        handle: 0,
    }
}

/// The tree after the window at `w` has been put into the new stack `s`.
pub open spec fn stacked(m: Nodes, s: u128, name: Option<Seq<char>>, w: u128) -> Nodes {
    wrapped(m.insert(s, new_stack(name)), s, w)
}

/// The containers to be drawn again after the stack at `s` has changed along
/// with its surroundings.
pub open spec fn stack_surroundings(m: Nodes, s: u128) -> Seq<u128> {
    tiling_children(m, s) + (match m[s].parent {
        Some(p) => tiling_children(m, p),
        None => Seq::empty(),
    })
}

pub proof fn lemma_first_where(ids: Seq<u128>, pred: spec_fn(u128) -> bool)
    ensures
        first_where(ids, pred) matches Some(x) ==> ids.contains(x) && pred(x),
    decreases ids.len(),
{
    if ids.len() > 0 && !pred(ids[0]) {
        lemma_first_where(ids.drop_first(), pred);
        if first_where(ids, pred) is Some {
            let x = first_where(ids, pred)->0;
            let r = ids.drop_first();
            let k = choose|k: int| 0 <= k < r.len() && r[k] == x;
            assert(ids[k + 1] == x);
        }
    } else if ids.len() > 0 {
        assert(ids[0] == ids[0]);
    }
}

pub proof fn lemma_last_where(ids: Seq<u128>, pred: spec_fn(u128) -> bool)
    ensures
        last_where(ids, pred) matches Some(x) ==> ids.contains(x) && pred(x),
    decreases ids.len(),
{
    if ids.len() > 0 && !pred(ids.last()) {
        lemma_last_where(ids.drop_last(), pred);
        if last_where(ids, pred) is Some {
            let x = last_where(ids, pred)->0;
            let r = ids.drop_last();
            let k = choose|k: int| 0 <= k < r.len() && r[k] == x;
            assert(ids[k] == x);
        }
    } else if ids.len() > 0 {
        assert(ids[ids.len() - 1] == ids.last());
    }
}

pub proof fn lemma_descendants_contained(m: Nodes, id: u128, i: int)
    requires
        wf(m),
        m.contains_key(id),
        0 <= i,
    ensures
        forall|x: u128| #[trigger]
            descendants_from(m, id, i).contains(x) ==> m.contains_key(x) && m[x].parent is Some,
    decreases height(m, id), m[id].children.len() - i,
{
    if i < m[id].children.len() {
        let c = m[id].children[i];
        assert(m[id].children.contains(c));
        lemma_child_is_lower(m, id, c);
        lemma_descendants_contained(m, c, 0);
        lemma_descendants_contained(m, id, i + 1);
        let a = seq![c] + descendants_from(m, c, 0);
        let b = descendants_from(m, id, i + 1);
        assert forall|x: u128| #[trigger] descendants_from(m, id, i).contains(
            x,
        ) implies m.contains_key(x) && m[x].parent is Some by {
            let w = descendants_from(m, id, i);
            assert(w == a + b);
            let k = choose|k: int| 0 <= k < w.len() && w[k] == x;
            if k == 0 {
            } else if k < a.len() {
                assert(descendants_from(m, c, 0)[k - 1] == x);
                assert(descendants_from(m, c, 0).contains(x));
            } else {
                assert(b[k - a.len()] == x);
                assert(b.contains(x));
            }
        }
    }
}

pub proof fn lemma_focus_leaves_contained(m: Nodes, id: u128, i: int)
    requires
        wf(m),
        m.contains_key(id),
        -1 <= i,
    ensures
        forall|x: u128| #[trigger]
            focus_leaves_from(m, id, i).contains(x) ==> m.contains_key(x) && m[x].children.len()
                == 0 && (m[x].parent is Some || (i < 0 && x == id)),
    decreases height(m, id), m[id].focus_order.len() - i,
{
    if i < 0 {
        if m[id].focus_order.len() == 0 {
            assert(node_linked(m, id));
            if m[id].children.len() > 0 {
                assert(m[id].children.contains(m[id].children[0]));
                assert(m[id].focus_order.contains(m[id].children[0]));
            }
            assert(focus_leaves_from(m, id, i) == seq![id]);
        } else {
            lemma_focus_leaves_contained(m, id, 0);
            assert(focus_leaves_from(m, id, i) == focus_leaves_from(m, id, 0));
        }
    } else if i >= m[id].focus_order.len() {
        assert(focus_leaves_from(m, id, i) == Seq::<u128>::empty());
    } else {
        let c = m[id].focus_order[i];
        assert(m[id].focus_order.contains(c));
        lemma_child_is_lower(m, id, c);
        lemma_focus_leaves_contained(m, c, -1);
        lemma_focus_leaves_contained(m, id, i + 1);
        let a = focus_leaves_from(m, c, -1);
        let b = focus_leaves_from(m, id, i + 1);
        assert forall|x: u128| #[trigger] focus_leaves_from(m, id, i).contains(
            x,
        ) implies m.contains_key(x) && m[x].children.len() == 0 && (m[x].parent is Some || (i < 0
            && x == id)) by {
            let w = focus_leaves_from(m, id, i);
            assert(w == a + b);
            let k = choose|k: int| 0 <= k < w.len() && w[k] == x;
            if k < a.len() {
                assert(a[k] == x);
                assert(a.contains(x));
            } else {
                assert(b[k - a.len()] == x);
                assert(b.contains(x));
            }
        }
    }
}

pub proof fn lemma_filter_step(ids: Seq<u128>, pred: spec_fn(u128) -> bool, i: int)
    requires
        0 <= i < ids.len(),
    ensures
        ids.subrange(0, i + 1).filter(pred) == (if pred(ids[i]) {
            ids.subrange(0, i).filter(pred).push(ids[i])
        } else {
            ids.subrange(0, i).filter(pred)
        }),
{
    reveal(Seq::filter);
    assert(ids.subrange(0, i + 1).drop_last() =~= ids.subrange(0, i));
}

impl Tree {
    /// The children of `id` that take part in the tiling layout.
    pub fn tiling_children(&self, id: u128) -> (result: Vec<u128>)
        requires
            wf(self@),
            self@.contains_key(id),
        ensures
            result@ == tiling_children(self@, id),
    {
        let ghost m = self@;
        let ghost pred = takes_part_in_tiling(m);
        let children = &self.get(id).children;
        let mut result: Vec<u128> = Vec::new();
        let mut i: usize = 0;
        proof {
            reveal(Seq::filter);
        }
        while i < children.len()
            invariant
                i <= children@.len(),
                m == self@,
                wf(m),
                m.contains_key(id),
                children@ == m[id].children,
                pred == takes_part_in_tiling(m),
                result@ == children@.subrange(0, i as int).filter(pred),
            decreases children@.len() - i,
        {
            let c: u128 = children[i];
            proof {
                assert(m[id].children.contains(c));
                lemma_child_is_lower(m, id, c);
                lemma_filter_step(children@, pred, i as int);
            }
            if self.get(c).kind.is_tiling() {
                result.push(c);
            }
            i = i + 1;
        }
        proof {
            assert(children@.subrange(0, i as int) =~= children@);
        }
        result
    }

    /// The containers to be drawn again after the stack at `s` has changed
    /// along with its surroundings.
    fn stack_surroundings(&self, s: u128) -> (result: Vec<u128>)
        requires
            wf(self@),
            self@.contains_key(s),
        ensures
            result@ == stack_surroundings(self@, s),
    {
        let mut result = self.tiling_children(s);
        match self.get(s).parent {
            Some(p) => {
                proof {
                    lemma_parent_is_higher(self@, s);
                }
                let mut around = self.tiling_children(p);
                result.append(&mut around);
            },
            None => {
                proof {
                    assert(result@ =~= stack_surroundings(self@, s));
                }
            },
        }
        result
    }
}

/// Lists the scaling of each of `ids` by `by`, behind what `out` holds.
fn push_scales(ids: &Vec<u128>, by: u128, out: &mut Vec<SizeChange>)
    ensures
        final(out)@ == old(out)@ + scales(ids@, by),
{
    let ghost start = out@;
    let mut i: usize = 0;
    while i < ids.len()
        invariant
            i <= ids@.len(),
            out@ =~= start + scales(ids@, by).subrange(0, i as int),
        decreases ids@.len() - i,
    {
        out.push(SizeChange::Scale { target: ids[i], by });
        i = i + 1;
    }
    proof {
        assert(scales(ids@, by).subrange(0, i as int) =~= scales(ids@, by));
    }
}

/// Takes the group at `s` out of the tree; its children take its place and
/// share what it had. Does nothing but report where it has no parent.
pub fn flatten_stack_container(tree: &mut Tree, s: u128) -> (result: Result<
    Vec<SizeChange>,
    StackError,
>)
    requires
        wf(old(tree)@),
        old(tree)@.contains_key(s),
    ensures
        wf(final(tree)@),
        match result {
            Ok(sizes) => {
                &&& old(tree)@[s].parent is Some
                &&& final(tree)@ == flattened(old(tree)@, s)
                &&& sizes@ == scales(tiling_children(old(tree)@, s), s)
            },
            Err(e) => {
                &&& old(tree)@[s].parent is None
                &&& e == StackError::NoParent
                &&& final(tree)@ == old(tree)@
            },
        },
{
    if tree.get(s).parent.is_none() {
        return Err(StackError::NoParent);
    }
    let children = tree.tiling_children(s);
    let mut sizes: Vec<SizeChange> = Vec::new();
    push_scales(&children, s, &mut sizes);
    proof {
        assert(sizes@ =~= scales(children@, s));
    }
    tree.flatten(s);
    Ok(sizes)
}

/// The stack that `id` stands in, if its parent is one.
pub open spec fn stack_of(m: Nodes, id: u128) -> Option<u128> {
    match m[id].parent {
        Some(p) => if m[p].kind == ContainerKind::Stack {
            Some(p)
        } else {
            None
        },
        None => None,
    }
}

fn stack_of_exec(tree: &Tree, id: u128) -> (result: Option<u128>)
    requires
        wf(tree@),
        tree@.contains_key(id),
    ensures
        result == stack_of(tree@, id),
        result matches Some(s) ==> tree@.contains_key(s) && tree@[s].children.contains(id),
{
    match tree.get(id).parent {
        Some(p) => {
            proof {
                lemma_parent_is_higher(tree@, id);
            }
            if tree.get(p).kind == ContainerKind::Stack {
                Some(p)
            } else {
                None
            }
        },
        None => None,
    }
}

/// The child of the stack `s` that comes after the focused one, or before it.
/// Past the last comes the first.
pub open spec fn cycle_target(m: Nodes, s: u128, prev: bool) -> u128 {
    let n = m[s].children.len() as int;
    let i = m[s].children.index_of(m[s].focus_order[0]);
    m[s].children[if prev {
        (i + n - 1) % n
    } else {
        (i + 1) % n
    }]
}

proof fn lemma_cycle_index(i: int, n: int, prev: bool)
    requires
        0 <= i < n,
    ensures
        (if prev {
            (i + n - 1) % n
        } else {
            (i + 1) % n
        }) == (if prev {
            if i == 0 {
                n - 1
            } else {
                i - 1
            }
        } else if i + 1 == n {
            0
        } else {
            i + 1
        }),
{
    if prev {
        if i > 0 {
            vstd::arithmetic::div_mod::lemma_mod_add_multiples_vanish(i - 1, n);
            assert(i + n - 1 == n + (i - 1));
            vstd::arithmetic::div_mod::lemma_small_mod((i - 1) as nat, n as nat);
        } else {
            vstd::arithmetic::div_mod::lemma_small_mod((n - 1) as nat, n as nat);
        }
    } else if i + 1 == n {
        vstd::arithmetic::div_mod::lemma_mod_self_0(n);
    } else {
        vstd::arithmetic::div_mod::lemma_small_mod((i + 1) as nat, n as nat);
    }
}

/// Moves the focus to the next or the previous window of the stack that the
/// focused container stands in. Nothing happens outside of a stack.
pub fn cycle_stack_focus(tree: &mut Tree, focused: u128, prev: bool) -> (redraw: Vec<u128>)
    requires
        wf(old(tree)@),
        old(tree)@.contains_key(focused),
    ensures
        wf(final(tree)@),
        match stack_of(old(tree)@, focused) {
            Some(s) => {
                &&& final(tree)@ == refocused(old(tree)@, cycle_target(old(tree)@, s, prev))
                &&& redraw@ == tiling_children(old(tree)@, s)
            },
            None => final(tree)@ == old(tree)@ && redraw@ == Seq::<u128>::empty(),
        },
{
    let s: u128 = match stack_of_exec(tree, focused) {
        Some(s) => s,
        None => {
            return Vec::new();
        },
    };
    let ghost m = tree@;
    proof {
        assert(node_linked(m, s));
        assert(m[s].focus_order.contains(focused) <==> m[s].children.contains(focused));
    }
    let redraw = tree.tiling_children(s);
    let node = tree.get(s);
    let front: u128 = node.focus_order[0];
    let n: usize = node.children.len();
    proof {
        assert(m[s].focus_order.contains(front));
        assert(m[s].children.contains(front));
    }
    let i: usize = position(&node.children, front).unwrap();
    proof {
        lemma_index_of(m[s].children, front, i as int);
    }
    let next: usize = if prev {
        if i == 0 {
            n - 1
        } else {
            i - 1
        }
    } else if i + 1 == n {
        0
    } else {
        i + 1
    };
    proof {
        lemma_cycle_index(i as int, n as int, prev);
    }
    let child: u128 = node.children[next];
    proof {
        assert(m[s].children.contains(child));
        lemma_child_is_lower(m, s, child);
    }
    tree.set_focused_descendant(child);
    redraw
}

/// The stack that a command on `subject` is about: `subject` itself, or else
/// the stack that it stands in.
pub open spec fn subject_stack(m: Nodes, subject: u128) -> Option<u128> {
    if m[subject].kind == ContainerKind::Stack {
        Some(subject)
    } else {
        stack_of(m, subject)
    }
}

/// Gives the focus to child `index` of the stack that `subject` is or stands
/// in. Nothing happens where there is no such stack or child.
pub fn focus_stack_index(tree: &mut Tree, subject: u128, index: usize) -> (redraw: Vec<u128>)
    requires
        wf(old(tree)@),
        old(tree)@.contains_key(subject),
    ensures
        wf(final(tree)@),
        match subject_stack(old(tree)@, subject) {
            Some(s) => if index < old(tree)@[s].children.len() {
                &&& final(tree)@ == refocused(old(tree)@, old(tree)@[s].children[index as int])
                &&& redraw@ == tiling_children(old(tree)@, s)
            } else {
                final(tree)@ == old(tree)@ && redraw@ == Seq::<u128>::empty()
            },
            None => final(tree)@ == old(tree)@ && redraw@ == Seq::<u128>::empty(),
        },
{
    let s: u128 = if tree.get(subject).kind == ContainerKind::Stack {
        subject
    } else {
        match stack_of_exec(tree, subject) {
            Some(s) => s,
            None => {
                return Vec::new();
            },
        }
    };
    if index >= tree.get(s).children.len() {
        return Vec::new();
    }
    let redraw = tree.tiling_children(s);
    let child: u128 = tree.get(s).children[index];
    proof {
        assert(tree@[s].children.contains(child));
        lemma_child_is_lower(tree@, s, child);
    }
    tree.set_focused_descendant(child);
    redraw
}

/// Puts the window at `w` into a new stack with the id `s`.
fn wrap_in_stack_container(tree: &mut Tree, s: u128, name: Option<String>, w: u128)
    requires
        wf(old(tree)@),
        old(tree)@.contains_key(w),
        old(tree)@[w].parent is Some,
        !old(tree)@.contains_key(s),
    ensures
        wf(final(tree)@),
        final(tree)@ == stacked(
            old(tree)@,
            s,
            match name {
                Some(n) => Some(n@),
                None => None,
            },
            w,
        ),
        final(tree)@.dom() == old(tree)@.dom().insert(s),
        final(tree)@[w].parent == Some(s),
        final(tree)@[s].parent == old(tree)@[w].parent,
        final(tree)@[s].children == seq![w],
        final(tree)@[s].kind == ContainerKind::Stack,
{
    proof {
        lemma_parent_is_higher(tree@, w);
    }
    tree.insert(
        s,
        ContainerKind::Stack,
        WorkspaceLayout::Split(TilingDirection::Horizontal),
        WindowState::Tiling,
        name,
        0,
    );
    tree.wrap(s, w);
}

proof fn lemma_stacked_facts(m: Nodes, s: u128, name: Option<Seq<char>>, w: u128, x: u128)
    requires
        wf(m),
        m.contains_key(w),
        m[w].parent is Some,
        !m.contains_key(s),
        m.contains_key(x),
    ensures
        stacked(m, s, name, w)[x].kind == m[x].kind,
        x != w ==> stacked(m, s, name, w)[x].parent == m[x].parent,
        x != m[w].parent->0 ==> stacked(m, s, name, w)[x].children == m[x].children,
{
    lemma_parent_is_higher(m, w);
}

/// Whether the container at `x` is a stack that goes by `name`.
pub open spec fn is_named_stack(m: Nodes, x: u128, name: Seq<char>) -> bool {
    m[x].kind == ContainerKind::Stack && m[x].name == Some(name)
}

/// The stack named `name` on the workspace `ws`, if there is one.
pub open spec fn named_stack(m: Nodes, ws: u128, name: Seq<char>) -> Option<u128> {
    first_where(descendants(m, ws), |x: u128| is_named_stack(m, x, name))
}

fn find_named_stack(tree: &Tree, ws: u128, name: &String) -> (result: Option<u128>)
    requires
        wf(tree@),
        tree@.contains_key(ws),
    ensures
        result == named_stack(tree@, ws, name@),
        result matches Some(s) ==> tree@.contains_key(s) && tree@[s].kind == ContainerKind::Stack,
{
    let ghost m = tree@;
    let ghost pred = |x: u128| is_named_stack(m, x, name@);
    let ids = tree.descendants(ws);
    proof {
        lemma_descendants_contained(m, ws, 0);
        assert(ids@.subrange(0, ids@.len() as int) =~= ids@);
    }
    let mut i: usize = 0;
    while i < ids.len()
        invariant
            i <= ids@.len(),
            m == tree@,
            wf(m),
            ids@ == descendants(m, ws),
            pred == (|x: u128| is_named_stack(m, x, name@)),
            forall|x: u128| #[trigger] descendants_from(m, ws, 0).contains(x) ==> m.contains_key(x),
            first_where(ids@.subrange(i as int, ids@.len() as int), pred) == first_where(
                ids@,
                pred,
            ),
        decreases ids@.len() - i,
    {
        let x: u128 = ids[i];
        let ghost rest = ids@.subrange(i as int, ids@.len() as int);
        proof {
            assert(ids@.contains(x));
            assert(descendants_from(m, ws, 0).contains(x));
            assert(rest[0] == x);
            assert(rest.drop_first() =~= ids@.subrange(i + 1, ids@.len() as int));
        }
        let node = tree.get(x);
        let matches_name: bool = node.kind == ContainerKind::Stack && match &node.name {
            Some(n) => *n == *name,
            None => false,
        };
        if matches_name {
            return Some(x);
        }
        i = i + 1;
    }
    proof {
        assert(ids@.subrange(i as int, ids@.len() as int) =~= Seq::<u128>::empty());
    }
    None
}

/// What moving the window `w` into the stack named `name` leaves behind, where
/// the stack is `s` if it has to be made.
pub open spec fn moved_to_stack(m: Nodes, w: u128, name: Seq<char>, s: u128) -> Nodes {
    let ws = nearest(m, w, ContainerKind::Workspace)->0;
    match named_stack(m, ws, name) {
        Some(t) => if m[w].parent == Some(t) {
            m
        } else {
            relocated(m, w, t, m[t].children.len() as int)
        },
        None => stacked(m, s, Some(name), w),
    }
}

/// Moving `w` into the stack named `name`, made with the id `new_id` if need
/// be: what the command does to the tree `m`, which becomes `m2`, and what it
/// returns.
pub open spec fn move_to_stack_outcome(
    m: Nodes,
    w: u128,
    name: Seq<char>,
    new_id: u128,
    m2: Nodes,
    result: Result<StackChange, StackError>,
) -> bool {
    match result {
        Ok(change) => {
            let ws = nearest(m, w, ContainerKind::Workspace);
            &&& ws is Some
            &&& m2 == moved_to_stack(m, w, name, new_id)
            &&& match named_stack(m, ws->0, name) {
                Some(t) => if m[w].parent == Some(t) {
                    &&& change.redraw@ == Seq::<u128>::empty()
                    &&& change.sizes@ == Seq::<SizeChange>::empty()
                } else {
                    &&& change.redraw@ == stack_surroundings(m2, t)
                    &&& change.sizes@ == seq![SizeChange::Join { child: w, parent: t }]
                },
                None => {
                    &&& change.redraw@ == tiling_children(m2, new_id)
                    &&& change.sizes@ == seq![SizeChange::Wrap { stack: new_id, child: w }]
                },
            }
        },
        Err(e) => {
            &&& e == StackError::NoWorkspace
            &&& nearest(m, w, ContainerKind::Workspace) is None
            &&& m2 == m
        },
    }
}

/// Whether moving `w` into the stack named `name` makes that stack.
pub open spec fn move_makes_stack(m: Nodes, w: u128, name: Seq<char>) -> bool {
    nearest(m, w, ContainerKind::Workspace) matches Some(ws) && named_stack(m, ws, name) is None
}

/// Moves the tiling window `w` into the stack of its workspace that goes by
/// `name`, or into a new one by that name with the id `new_id`.
pub fn move_to_stack_with(tree: &mut Tree, w: u128, name: &String, new_id: u128) -> (result: Result<
    StackChange,
    StackError,
>)
    requires
        wf(old(tree)@),
        old(tree)@.contains_key(w),
        old(tree)@[w].kind == ContainerKind::TilingWindow,
        move_makes_stack(old(tree)@, w, name@) ==> !old(tree)@.contains_key(new_id),
    ensures
        wf(final(tree)@),
        move_to_stack_outcome(old(tree)@, w, name@, new_id, final(tree)@, result),
{
    let ghost m = tree@;
    let ws: u128 = match tree.nearest(w, ContainerKind::Workspace) {
        Some(ws) => ws,
        None => {
            return Err(StackError::NoWorkspace);
        },
    };
    proof {
        // A window is no workspace, so the workspace was found above it.
        assert(m[w].parent is Some);
        assert(node_linked(m, w));
    }
    match find_named_stack(tree, ws, name) {
        Some(t) => {
            let parent = tree.get(w).parent;
            if parent == Some(t) {
                return Ok(StackChange { redraw: Vec::new(), sizes: Vec::new() });
            }
            let last: usize = tree.get(t).children.len();
            tree.move_container_within_tree(w, t, last);
            let redraw = tree.stack_surroundings(t);
            let sizes: Vec<SizeChange> = vec![SizeChange::Join { child: w, parent: t }];
            proof {
                assert(sizes@ =~= seq![SizeChange::Join { child: w, parent: t }]);
            }
            Ok(StackChange { redraw, sizes })
        },
        None => {
            wrap_in_stack_container(tree, new_id, Some(name.clone()), w);
            let redraw = tree.tiling_children(new_id);
            let sizes: Vec<SizeChange> = vec![SizeChange::Wrap { stack: new_id, child: w }];
            proof {
                assert(sizes@ =~= seq![SizeChange::Wrap { stack: new_id, child: w }]);
            }
            Ok(StackChange { redraw, sizes })
        },
    }
}

/// The nearest tiling sibling of `id` in the given direction.
pub open spec fn tiling_neighbor(m: Nodes, id: u128, direction: Direction) -> Option<u128> {
    match m[id].parent {
        None => None,
        Some(p) => {
            let ids = m[p].children;
            let i = ids.index_of(id);
            let pred = takes_part_in_tiling(m);
            if direction == Direction::Up || direction == Direction::Left {
                last_where(ids.subrange(0, i), pred)
            } else {
                first_where(ids.subrange(i + 1, ids.len() as int), pred)
            }
        },
    }
}

fn find_tiling_neighbor(tree: &Tree, id: u128, direction: Direction) -> (result: Option<u128>)
    requires
        wf(tree@),
        tree@.contains_key(id),
    ensures
        result == tiling_neighbor(tree@, id, direction),
        result matches Some(x) ==> {
            &&& tree@.contains_key(x)
            &&& tree@[x].parent == tree@[id].parent
            &&& tree@[x].parent is Some
            &&& x != id
        },
{
    let ghost m = tree@;
    let p: u128 = match tree.get(id).parent {
        None => {
            return None;
        },
        Some(p) => p,
    };
    let ghost pred = takes_part_in_tiling(m);
    proof {
        lemma_parent_is_higher(m, id);
        assert(node_linked(m, p));
    }
    let ids = &tree.get(p).children;
    let at: usize = position(ids, id).unwrap();
    proof {
        lemma_index_of(ids@, id, at as int);
    }
    let backward: bool = direction == Direction::Up || direction == Direction::Left;
    if backward {
        let ghost span = ids@.subrange(0, at as int);
        let mut i: usize = at;
        while i > 0
            invariant
                i <= at < ids@.len(),
                m == tree@,
                wf(m),
                m.contains_key(p),
                ids@ == m[p].children,
                pred == takes_part_in_tiling(m),
                span == ids@.subrange(0, at as int),
                last_where(ids@.subrange(0, i as int), pred) == last_where(span, pred),
                m[id].parent == Some(p),
                ids@.index_of(id) == at,
                ids@[at as int] == id,
                ids@.no_duplicates(),
                backward,
                backward == (direction == Direction::Up || direction == Direction::Left),
            decreases i,
        {
            let x: u128 = ids[i - 1];
            proof {
                assert(m[p].children.contains(x));
                lemma_child_is_lower(m, p, x);
                let rest = ids@.subrange(0, i as int);
                assert(rest.last() == x);
                assert(rest.drop_last() =~= ids@.subrange(0, i - 1));
            }
            if tree.get(x).kind.is_tiling() {
                return Some(x);
            }
            i = i - 1;
        }
        proof {
            assert(ids@.subrange(0, 0) =~= Seq::<u128>::empty());
        }
        None
    } else {
        let ghost span = ids@.subrange(at + 1, ids@.len() as int);
        let n: usize = ids.len();
        let mut i: usize = at + 1;
        while i < n
            invariant
                at < i <= ids@.len(),
                n == ids@.len(),
                m == tree@,
                wf(m),
                m.contains_key(p),
                ids@ == m[p].children,
                pred == takes_part_in_tiling(m),
                span == ids@.subrange(at + 1, ids@.len() as int),
                first_where(ids@.subrange(i as int, ids@.len() as int), pred) == first_where(
                    span,
                    pred,
                ),
                m[id].parent == Some(p),
                ids@.index_of(id) == at,
                ids@[at as int] == id,
                ids@.no_duplicates(),
                !backward,
                backward == (direction == Direction::Up || direction == Direction::Left),
            decreases n - i,
        {
            let x: u128 = ids[i];
            proof {
                assert(m[p].children.contains(x));
                lemma_child_is_lower(m, p, x);
                let rest = ids@.subrange(i as int, ids@.len() as int);
                assert(rest[0] == x);
                assert(rest.drop_first() =~= ids@.subrange(i + 1, ids@.len() as int));
            }
            if tree.get(x).kind.is_tiling() {
                return Some(x);
            }
            i = i + 1;
        }
        proof {
            assert(ids@.subrange(i as int, ids@.len() as int) =~= Seq::<u128>::empty());
        }
        None
    }
}

/// The stack that a neighbor is absorbed into, and the tree that holds it: the
/// stack that `w` stands in, or a new one around it with the id `new_id`.
pub open spec fn with_stack_around(m: Nodes, w: u128, new_id: u128) -> (u128, Nodes) {
    match stack_of(m, w) {
        Some(s) => (s, m),
        None => (new_id, stacked(m, new_id, None, w)),
    }
}

/// The container whose siblings are the neighbors of `w`: the stack that it
/// stands in, or the window itself.
pub open spec fn pivot(m: Nodes, w: u128) -> u128 {
    match stack_of(m, w) {
        Some(s) => s,
        None => w,
    }
}

/// Pulling the neighbor of `w` in `direction` into its stack, made with the id
/// `new_id` if need be: what the command does to the tree `m`, which becomes
/// `m2`, and what it returns.
pub open spec fn absorb_outcome(
    m: Nodes,
    w: u128,
    direction: Direction,
    new_id: u128,
    m2: Nodes,
    result: Result<StackChange, StackError>,
) -> bool {
    let neighbor = tiling_neighbor(m, pivot(m, w), direction);
    let (s, m1) = with_stack_around(m, w, new_id);
    match result {
        Ok(change) => {
            &&& m[w].parent is Some
            &&& neighbor is Some
            &&& if m[neighbor->0].kind == ContainerKind::TilingWindow {
                &&& m2 == relocated(m1, neighbor->0, s, 0)
                &&& change.redraw@ == stack_surroundings(m2, s)
                &&& change.sizes@ == (match stack_of(m, w) {
                    Some(_) => seq![SizeChange::Join { child: neighbor->0, parent: s }],
                    None => seq![
                        SizeChange::Wrap { stack: new_id, child: w },
                        SizeChange::Join { child: neighbor->0, parent: s },
                    ],
                })
            } else {
                &&& m2 == m
                &&& change.redraw@ == Seq::<u128>::empty()
                &&& change.sizes@ == Seq::<SizeChange>::empty()
            }
        },
        Err(e) => {
            &&& m2 == m
            &&& if m[w].parent is None {
                e == StackError::NoParent
            } else {
                neighbor is None && e == StackError::NoNeighbor
            }
        },
    }
}

/// Whether pulling the neighbor of `w` in `direction` into a stack makes that
/// stack.
pub open spec fn absorb_makes_stack(m: Nodes, w: u128, direction: Direction) -> bool {
    &&& m[w].parent is Some
    &&& stack_of(m, w) is None
    &&& tiling_neighbor(m, w, direction) matches Some(x) && m[x].kind
        == ContainerKind::TilingWindow
}

/// Pulls the tiling neighbor in `direction` into the stack of the tiling window
/// `w`, which is made with the id `new_id` if there is none. A neighbor that is
/// not a window is left alone.
pub fn stack_absorb_neighbor_with(
    tree: &mut Tree,
    w: u128,
    direction: Direction,
    new_id: u128,
) -> (result: Result<StackChange, StackError>)
    requires
        wf(old(tree)@),
        old(tree)@.contains_key(w),
        old(tree)@[w].kind == ContainerKind::TilingWindow,
        absorb_makes_stack(old(tree)@, w, direction) ==> !old(tree)@.contains_key(new_id),
    ensures
        wf(final(tree)@),
        absorb_outcome(old(tree)@, w, direction, new_id, final(tree)@, result),
{
    let ghost m = tree@;
    proof {
        assert(node_linked(m, w));
    }
    if tree.get(w).parent.is_none() {
        return Err(StackError::NoParent);
    }
    let around = stack_of_exec(tree, w);
    let pivot: u128 = match around {
        Some(s) => s,
        None => w,
    };
    let neighbor: u128 = match find_tiling_neighbor(tree, pivot, direction) {
        Some(x) => x,
        None => {
            return Err(StackError::NoNeighbor);
        },
    };
    if tree.get(neighbor).kind != ContainerKind::TilingWindow {
        return Ok(StackChange { redraw: Vec::new(), sizes: Vec::new() });
    }
    let mut sizes: Vec<SizeChange> = Vec::new();
    let s: u128 = match around {
        Some(s) => s,
        None => {
            wrap_in_stack_container(tree, new_id, None, w);
            sizes.push(SizeChange::Wrap { stack: new_id, child: w });
            proof {
                lemma_stacked_facts(m, new_id, None, w, neighbor);
            }
            new_id
        },
    };
    proof {
        assert(node_linked(m, neighbor));
        assert(tree@ == with_stack_around(m, w, new_id).1);
        assert(neighbor != s);
        lemma_parent_is_higher(m, neighbor);
        assert(tree@.contains_key(neighbor));
        assert(node_linked(tree@, neighbor));
        assert(tree@[neighbor].parent is Some);
    }
    tree.move_container_within_tree(neighbor, s, 0);
    sizes.push(SizeChange::Join { child: neighbor, parent: s });
    let redraw = tree.stack_surroundings(s);
    proof {
        match stack_of(m, w) {
            Some(_) => {
                assert(sizes@ =~= seq![SizeChange::Join { child: neighbor, parent: s }]);
            },
            None => {
                assert(sizes@ =~= seq![
                    SizeChange::Wrap { stack: new_id, child: w },
                    SizeChange::Join { child: neighbor, parent: s },
                ]);
            },
        }
    }
    Ok(StackChange { redraw, sizes })
}

/// The tiling window other than `w` that was focused last on the workspace
/// `ws`.
pub open spec fn insert_target(m: Nodes, ws: u128, w: u128) -> Option<u128> {
    first_where(descendant_focus_order(m, ws), is_other_tiling_window(m, w))
}

fn find_insert_target(tree: &Tree, ws: u128, w: u128) -> (result: Option<u128>)
    requires
        wf(tree@),
        tree@.contains_key(ws),
    ensures
        result == insert_target(tree@, ws, w),
        result matches Some(x) ==> tree@.contains_key(x) && tree@[x].parent is Some && x != w
            && tree@[x].kind == ContainerKind::TilingWindow,
{
    let ghost m = tree@;
    let ghost pred = is_other_tiling_window(m, w);
    let ids = tree.descendant_focus_order(ws);
    proof {
        lemma_focus_leaves_contained(m, ws, 0);
        assert(ids@.subrange(0, ids@.len() as int) =~= ids@);
    }
    let mut i: usize = 0;
    while i < ids.len()
        invariant
            i <= ids@.len(),
            m == tree@,
            wf(m),
            ids@ == descendant_focus_order(m, ws),
            pred == is_other_tiling_window(m, w),
            forall|x: u128| #[trigger]
                focus_leaves_from(m, ws, 0).contains(x) ==> m.contains_key(x) && m[x].parent is Some,
            first_where(ids@.subrange(i as int, ids@.len() as int), pred) == first_where(
                ids@,
                pred,
            ),
        decreases ids@.len() - i,
    {
        let x: u128 = ids[i];
        let ghost rest = ids@.subrange(i as int, ids@.len() as int);
        proof {
            assert(ids@.contains(x));
            assert(focus_leaves_from(m, ws, 0).contains(x));
            assert(rest[0] == x);
            assert(rest.drop_first() =~= ids@.subrange(i + 1, ids@.len() as int));
        }
        if tree.get(x).kind == ContainerKind::TilingWindow && x != w {
            return Some(x);
        }
        i = i + 1;
    }
    proof {
        assert(ids@.subrange(i as int, ids@.len() as int) =~= Seq::<u128>::empty());
    }
    None
}

/// Moving `w` into a stack with another window, made with the id `new_id` if
/// need be: what the command does to the tree `m`, which becomes `m2`, and what
/// it returns.
pub open spec fn insert_outcome(
    m: Nodes,
    w: u128,
    new_id: u128,
    m2: Nodes,
    result: Result<StackChange, StackError>,
) -> bool {
    let ws = nearest(m, w, ContainerKind::Workspace);
    match result {
        Ok(change) => {
            &&& ws is Some
            &&& match insert_target(m, ws->0, w) {
                Some(t) => {
                    let (s, m1) = with_stack_around(m, t, new_id);
                    &&& m2 == relocated(m1, w, s, 0)
                    &&& change.redraw@ == stack_surroundings(m2, s)
                    &&& change.sizes@ == (match stack_of(m, t) {
                        Some(_) => seq![SizeChange::Join { child: w, parent: s }],
                        None => seq![
                            SizeChange::Wrap { stack: new_id, child: t },
                            SizeChange::Join { child: w, parent: s },
                        ],
                    })
                },
                None => {
                    &&& m2 == m
                    &&& change.redraw@ == Seq::<u128>::empty()
                    &&& change.sizes@ == Seq::<SizeChange>::empty()
                },
            }
        },
        Err(e) => {
            &&& ws is None
            &&& e == StackError::NoWorkspace
            &&& m2 == m
        },
    }
}

/// Whether moving `w` into a stack with another window makes that stack.
pub open spec fn insert_makes_stack(m: Nodes, w: u128) -> bool {
    nearest(m, w, ContainerKind::Workspace) matches Some(ws) && insert_target(m, ws, w) matches Some(
        t,
    ) && stack_of(m, t) is None
}

/// Moves the tiling window `w` into a stack with the tiling window of its
/// workspace that was focused last besides it. The stack is made with the id
/// `new_id` if that window stands in none. Nothing happens where `w` is alone.
pub fn stack_insert_with(tree: &mut Tree, w: u128, new_id: u128) -> (result: Result<
    StackChange,
    StackError,
>)
    requires
        wf(old(tree)@),
        old(tree)@.contains_key(w),
        old(tree)@[w].kind == ContainerKind::TilingWindow,
        insert_makes_stack(old(tree)@, w) ==> !old(tree)@.contains_key(new_id),
    ensures
        wf(final(tree)@),
        insert_outcome(old(tree)@, w, new_id, final(tree)@, result),
{
    let ghost m = tree@;
    let ws: u128 = match tree.nearest(w, ContainerKind::Workspace) {
        Some(ws) => ws,
        None => {
            return Err(StackError::NoWorkspace);
        },
    };
    proof {
        assert(m[w].parent is Some);
        assert(node_linked(m, w));
    }
    let target: u128 = match find_insert_target(tree, ws, w) {
        Some(t) => t,
        None => {
            return Ok(StackChange { redraw: Vec::new(), sizes: Vec::new() });
        },
    };
    let mut sizes: Vec<SizeChange> = Vec::new();
    let around = stack_of_exec(tree, target);
    let s: u128 = match around {
        Some(s) => s,
        None => {
            wrap_in_stack_container(tree, new_id, None, target);
            sizes.push(SizeChange::Wrap { stack: new_id, child: target });
            proof {
                lemma_stacked_facts(m, new_id, None, target, w);
            }
            new_id
        },
    };
    proof {
        assert(tree@ == with_stack_around(m, target, new_id).1);
        assert(tree@.contains_key(w));
        assert(node_linked(tree@, w));
        assert(tree@[w].parent is Some);
        assert(w != s);
    }
    tree.move_container_within_tree(w, s, 0);
    sizes.push(SizeChange::Join { child: w, parent: s });
    let redraw = tree.stack_surroundings(s);
    proof {
        match stack_of(m, target) {
            Some(_) => {
                assert(sizes@ =~= seq![SizeChange::Join { child: w, parent: s }]);
            },
            None => {
                assert(sizes@ =~= seq![
                    SizeChange::Wrap { stack: new_id, child: target },
                    SizeChange::Join { child: w, parent: s },
                ]);
            },
        }
    }
    Ok(StackChange { redraw, sizes })
}

/// The tiling children of `s` other than `w`.
pub open spec fn stack_siblings(m: Nodes, s: u128, w: u128) -> Seq<u128> {
    m[s].children.filter(tiles_beside(m, w))
}

/// The tree after `w` has left the stack `s` and taken its place among its
/// siblings, with the stack behind it, and its place in the focus order.
pub open spec fn put_before_stack(m: Nodes, w: u128, s: u128) -> Nodes {
    let p = m[s].parent->0;
    attached(
        detached(m, w),
        w,
        p,
        m[p].children.index_of(s),
        m[p].focus_order.index_of(s),
    )
}

/// The tree after `w` has left the stack `s`, which is taken out if at most one
/// window is left in it.
pub open spec fn ejected(m: Nodes, w: u128, s: u128) -> Nodes {
    if m[s].children.len() <= 2 {
        flattened(put_before_stack(m, w, s), s)
    } else {
        put_before_stack(m, w, s)
    }
}

/// How the shares change when `w` leaves the stack `s`.
pub open spec fn eject_sizes(m: Nodes, w: u128, s: u128) -> Seq<SizeChange> {
    seq![SizeChange::Eject { window: w, stack: s }] + stack_siblings(m, s, w).map_values(
        |c: u128| SizeChange::Divide { target: c },
    ) + (if m[s].children.len() <= 2 {
        scales(tiling_children(put_before_stack(m, w, s), s), s)
    } else {
        Seq::empty()
    })
}

fn siblings_in_stack(tree: &Tree, s: u128, w: u128) -> (result: Vec<u128>)
    requires
        wf(tree@),
        tree@.contains_key(s),
    ensures
        result@ == stack_siblings(tree@, s, w),
{
    let ghost m = tree@;
    let ghost pred = tiles_beside(m, w);
    let children = &tree.get(s).children;
    let mut result: Vec<u128> = Vec::new();
    let mut i: usize = 0;
    proof {
        reveal(Seq::filter);
    }
    while i < children.len()
        invariant
            i <= children@.len(),
            m == tree@,
            wf(m),
            m.contains_key(s),
            children@ == m[s].children,
            pred == tiles_beside(m, w),
            result@ == children@.subrange(0, i as int).filter(pred),
        decreases children@.len() - i,
    {
        let c: u128 = children[i];
        proof {
            assert(m[s].children.contains(c));
            lemma_child_is_lower(m, s, c);
            lemma_filter_step(children@, pred, i as int);
        }
        if c != w && tree.get(c).kind.is_tiling() {
            result.push(c);
        }
        i = i + 1;
    }
    proof {
        assert(children@.subrange(0, i as int) =~= children@);
    }
    result
}

/// Taking `w` out of its stack, or putting it into a new one with the id
/// `new_id`: what the command does to the tree `m`, which becomes `m2`, and
/// what it returns.
pub open spec fn toggle_outcome(
    m: Nodes,
    w: u128,
    new_id: u128,
    m2: Nodes,
    result: Result<StackChange, StackError>,
) -> bool {
    match result {
        Ok(change) => {
            &&& m[w].parent is Some
            &&& match stack_of(m, w) {
                Some(s) => {
                    &&& m[s].parent is Some
                    &&& m2 == ejected(m, w, s)
                    &&& change.redraw@ == seq![w] + stack_siblings(m, s, w)
                    &&& change.sizes@ == eject_sizes(m, w, s)
                },
                None => {
                    &&& m2 == stacked(m, new_id, None, w)
                    &&& change.redraw@ == tiling_children(m2, new_id)
                    &&& change.sizes@ == seq![
                        SizeChange::Wrap { stack: new_id, child: w },
                    ]
                },
            }
        },
        Err(e) => {
            &&& e == StackError::NoParent
            &&& m[w].parent is None || (stack_of(m, w) is Some && m[stack_of(
                m,
                w,
            )->0].parent is None)
            &&& m2 == m
        },
    }
}

/// Whether toggling `w` makes a stack.
pub open spec fn toggle_makes_stack(m: Nodes, w: u128) -> bool {
    m[w].parent is Some && stack_of(m, w) is None
}

/// Takes the tiling window `w` out of its stack, or puts it into a new one with
/// the id `new_id`.
///
/// A window that leaves a stack goes to where the stack stands. What is left of
/// the stack follows it, and is taken out of the tree unless two or more windows
/// remain.
pub fn toggle_stack_with(tree: &mut Tree, w: u128, new_id: u128) -> (result: Result<
    StackChange,
    StackError,
>)
    requires
        wf(old(tree)@),
        old(tree)@.contains_key(w),
        old(tree)@[w].kind == ContainerKind::TilingWindow,
        toggle_makes_stack(old(tree)@, w) ==> !old(tree)@.contains_key(new_id),
    ensures
        wf(final(tree)@),
        toggle_outcome(old(tree)@, w, new_id, final(tree)@, result),
{
    let ghost m = tree@;
    proof {
        assert(node_linked(m, w));
    }
    if tree.get(w).parent.is_none() {
        return Err(StackError::NoParent);
    }
    let s: u128 = match stack_of_exec(tree, w) {
        Some(s) => s,
        None => {
            wrap_in_stack_container(tree, new_id, None, w);
            let redraw = tree.tiling_children(new_id);
            let sizes: Vec<SizeChange> = vec![SizeChange::Wrap { stack: new_id, child: w }];
            proof {
                assert(sizes@ =~= seq![SizeChange::Wrap { stack: new_id, child: w }]);
            }
            return Ok(StackChange { redraw, sizes });
        },
    };
    let p: u128 = match tree.get(s).parent {
        Some(p) => p,
        None => {
            return Err(StackError::NoParent);
        },
    };
    proof {
        lemma_parent_is_higher(m, s);
        lemma_parent_is_higher(m, w);
        assert(node_linked(m, p));
        assert(node_linked(m, s));
        assert(m[p].focus_order.contains(s) <==> m[p].children.contains(s));
        lemma_detached_wf(m, w);
        crate::tree::lemma_without(m[s].children, w);
    }
    let at: usize = position(&tree.get(p).children, s).unwrap();
    let focus_at: usize = position(&tree.get(p).focus_order, s).unwrap();
    proof {
        lemma_index_of(m[p].children, s, at as int);
        lemma_index_of(m[p].focus_order, s, focus_at as int);
    }
    let siblings = siblings_in_stack(tree, s, w);
    let mut redraw: Vec<u128> = vec![w];
    let mut sizes: Vec<SizeChange> = vec![SizeChange::Eject { window: w, stack: s }];
    let ghost divides = siblings@.map_values(|c: u128| SizeChange::Divide { target: c });
    let mut k: usize = 0;
    while k < siblings.len()
        invariant
            k <= siblings@.len(),
            divides == siblings@.map_values(|c: u128| SizeChange::Divide { target: c }),
            redraw@ =~= seq![w] + siblings@.subrange(0, k as int),
            sizes@ =~= seq![SizeChange::Eject { window: w, stack: s }] + divides.subrange(
                0,
                k as int,
            ),
        decreases siblings@.len() - k,
    {
        redraw.push(siblings[k]);
        sizes.push(SizeChange::Divide { target: siblings[k] });
        k = k + 1;
    }
    proof {
        assert(siblings@.subrange(0, k as int) =~= siblings@);
        assert(divides.subrange(0, k as int) =~= divides);
    }
    tree.detach(w);
    proof {
        assert(s != p && w != p && w != s);
        assert(tree@[p] == m[p]);
        assert(tree@[s].children == crate::tree::without(m[s].children, w));
    }
    tree.attach(w, p, at, focus_at);
    proof {
        assert(tree@ == put_before_stack(m, w, s));
        assert(tree@[s].children.len() == m[s].children.len() - 1);
        assert(tree@[s].parent == Some(p));
    }
    if tree.get(s).children.len() <= 1 {
        let left = tree.tiling_children(s);
        push_scales(&left, s, &mut sizes);
        tree.flatten(s);
    }
    proof {
        assert(sizes@ =~= eject_sizes(m, w, s));
    }
    Ok(StackChange { redraw, sizes })
}

/// The tiling windows below `id`.
pub open spec fn tiling_windows_below(m: Nodes, id: u128) -> Seq<u128> {
    descendants(m, id).filter(is_tiling_window_of(m))
}

/// Gives the nearest workspace or split at or above `id` the layout `layout`.
/// Returns it, and the windows to be drawn again.
pub fn set_workspace_layout(tree: &mut Tree, id: u128, layout: WorkspaceLayout) -> (result: Result<
    (u128, Vec<u128>),
    StackError,
>)
    requires
        wf(old(tree)@),
        old(tree)@.contains_key(id),
    ensures
        wf(final(tree)@),
        match result {
            Ok((d, redraw)) => {
                &&& nearest_direction(old(tree)@, id) == Some(d)
                &&& final(tree)@ == old(tree)@.insert(d, old(tree)@[d].with_layout(layout))
                &&& redraw@ == tiling_windows_below(final(tree)@, d)
            },
            Err(e) => {
                &&& e == StackError::NoDirectionContainer
                &&& nearest_direction(old(tree)@, id) is None
                &&& final(tree)@ == old(tree)@
            },
        },
{
    let d: u128 = match tree.nearest_direction(id) {
        Some(d) => d,
        None => {
            return Err(StackError::NoDirectionContainer);
        },
    };
    tree.set_layout(d, layout);
    let ghost m = tree@;
    let ghost pred = is_tiling_window_of(m);
    let ids = tree.descendants(d);
    let mut redraw: Vec<u128> = Vec::new();
    proof {
        reveal(Seq::filter);
        lemma_descendants_contained(m, d, 0);
    }
    let mut i: usize = 0;
    while i < ids.len()
        invariant
            i <= ids@.len(),
            m == tree@,
            ids@ == descendants(m, d),
            pred == is_tiling_window_of(m),
            forall|x: u128| #[trigger] descendants_from(m, d, 0).contains(x) ==> m.contains_key(x),
            redraw@ == ids@.subrange(0, i as int).filter(pred),
        decreases ids@.len() - i,
    {
        let x: u128 = ids[i];
        proof {
            assert(descendants_from(m, d, 0).contains(x));
            lemma_filter_step(ids@, pred, i as int);
        }
        if tree.get(x).kind == ContainerKind::TilingWindow {
            redraw.push(x);
        }
        i = i + 1;
    }
    proof {
        assert(ids@.subrange(0, i as int) =~= ids@);
    }
    Ok((d, redraw))
}

/// Moves the tiling window `w` into the stack of its workspace that goes by
/// `name`, or into a new one by that name.
///
/// An id is drawn only for a new stack.
pub fn move_to_stack(tree: &mut Tree, w: u128, name: &String) -> (result: Result<
    StackChange,
    StackError,
>)
    requires
        wf(old(tree)@),
        old(tree)@.contains_key(w),
        old(tree)@[w].kind == ContainerKind::TilingWindow,
    ensures
        wf(final(tree)@),
        result is Ok <==> nearest(old(tree)@, w, ContainerKind::Workspace) is Some,
        exists|id: u128|
            (move_makes_stack(old(tree)@, w, name@) ==> is_fresh(old(tree)@, id)) && #[trigger]
            move_to_stack_outcome(old(tree)@, w, name@, id, final(tree)@, result),
{
    let ghost m = tree@;
    let makes_stack: bool = match tree.nearest(w, ContainerKind::Workspace) {
        Some(ws) => find_named_stack(tree, ws, name).is_none(),
        None => false,
    };
    let id: u128 = if makes_stack {
        fresh_id(tree)
    } else {
        w
    };
    let result = move_to_stack_with(tree, w, name, id);
    proof {
        assert(move_to_stack_outcome(m, w, name@, id, tree@, result));
    }
    result
}

/// Pulls the tiling neighbor in `direction` into the stack of the tiling window
/// `w`, or into a new one around the two.
///
/// An id is drawn only for a new stack.
pub fn stack_absorb_neighbor(tree: &mut Tree, w: u128, direction: Direction) -> (result: Result<
    StackChange,
    StackError,
>)
    requires
        wf(old(tree)@),
        old(tree)@.contains_key(w),
        old(tree)@[w].kind == ContainerKind::TilingWindow,
    ensures
        wf(final(tree)@),
        result is Ok <==> old(tree)@[w].parent is Some && tiling_neighbor(
            old(tree)@,
            pivot(old(tree)@, w),
            direction,
        ) is Some,
        exists|id: u128|
            (absorb_makes_stack(old(tree)@, w, direction) ==> is_fresh(old(tree)@, id))
                && #[trigger] absorb_outcome(
                old(tree)@,
                w,
                direction,
                id,
                final(tree)@,
                result,
            ),
{
    let ghost m = tree@;
    proof {
        assert(node_linked(m, w));
    }
    let makes_stack: bool = if tree.get(w).parent.is_none() {
        false
    } else {
        match stack_of_exec(tree, w) {
            Some(_) => false,
            None => match find_tiling_neighbor(tree, w, direction) {
                Some(x) => tree.get(x).kind == ContainerKind::TilingWindow,
                None => false,
            },
        }
    };
    let id: u128 = if makes_stack {
        fresh_id(tree)
    } else {
        w
    };
    let result = stack_absorb_neighbor_with(tree, w, direction, id);
    proof {
        assert(absorb_outcome(m, w, direction, id, tree@, result));
    }
    result
}

/// Moves the tiling window `w` into a stack with the tiling window of its
/// workspace that was focused last besides it.
///
/// An id is drawn only for a new stack.
pub fn stack_insert(tree: &mut Tree, w: u128) -> (result: Result<StackChange, StackError>)
    requires
        wf(old(tree)@),
        old(tree)@.contains_key(w),
        old(tree)@[w].kind == ContainerKind::TilingWindow,
    ensures
        wf(final(tree)@),
        result is Ok <==> nearest(old(tree)@, w, ContainerKind::Workspace) is Some,
        exists|id: u128|
            (insert_makes_stack(old(tree)@, w) ==> is_fresh(old(tree)@, id)) && #[trigger]
            insert_outcome(old(tree)@, w, id, final(tree)@, result),
{
    let ghost m = tree@;
    let makes_stack: bool = match tree.nearest(w, ContainerKind::Workspace) {
        Some(ws) => match find_insert_target(tree, ws, w) {
            Some(t) => stack_of_exec(tree, t).is_none(),
            None => false,
        },
        None => false,
    };
    let id: u128 = if makes_stack {
        fresh_id(tree)
    } else {
        w
    };
    let result = stack_insert_with(tree, w, id);
    proof {
        assert(insert_outcome(m, w, id, tree@, result));
    }
    result
}

/// Takes the tiling window `w` out of its stack, or puts it into a new one.
///
/// An id is drawn only for a new stack.
pub fn toggle_stack(tree: &mut Tree, w: u128) -> (result: Result<StackChange, StackError>)
    requires
        wf(old(tree)@),
        old(tree)@.contains_key(w),
        old(tree)@[w].kind == ContainerKind::TilingWindow,
    ensures
        wf(final(tree)@),
        result is Ok <==> old(tree)@[w].parent is Some && (stack_of(old(tree)@, w) matches Some(s)
            ==> old(tree)@[s].parent is Some),
        exists|id: u128|
            (toggle_makes_stack(old(tree)@, w) ==> is_fresh(old(tree)@, id)) && #[trigger]
            toggle_outcome(old(tree)@, w, id, final(tree)@, result),
{
    let ghost m = tree@;
    proof {
        assert(node_linked(m, w));
    }
    let makes_stack: bool = tree.get(w).parent.is_some() && stack_of_exec(tree, w).is_none();
    let id: u128 = if makes_stack {
        fresh_id(tree)
    } else {
        w
    };
    let result = toggle_stack_with(tree, w, id);
    proof {
        assert(toggle_outcome(m, w, id, tree@, result));
    }
    result
}

/// A step on leads from the focused child to the one behind it, and from the
/// last to the first; a step back leads the other way.
pub proof fn steps_lead_to_the_child_beside(m: Nodes, s: u128, i: int)
    requires
        wf(m),
        m.contains_key(s),
        0 <= i < m[s].children.len(),
        m[s].focus_order[0] == m[s].children[i],
    ensures
        i + 1 < m[s].children.len() ==> cycle_target(m, s, false) == m[s].children[i + 1],
        i + 1 == m[s].children.len() ==> cycle_target(m, s, false) == m[s].children[0],
        i > 0 ==> cycle_target(m, s, true) == m[s].children[i - 1],
        i == 0 ==> cycle_target(m, s, true) == m[s].children.last(),
{
    assert(node_linked(m, s));
    let n = m[s].children.len() as int;
    lemma_index_of(m[s].children, m[s].children[i], i);
    lemma_cycle_index(i, n, false);
    lemma_cycle_index(i, n, true);
}

/// A command on a stack is about the stack itself, one on a child of a stack
/// about that stack, and any other about none.
pub proof fn commands_find_their_stack(m: Nodes, subject: u128)
    ensures
        m[subject].kind == ContainerKind::Stack ==> subject_stack(m, subject) == Some(subject),
        m[subject].parent is Some && m[m[subject].parent->0].kind == ContainerKind::Stack ==> {
            &&& stack_of(m, subject) == m[subject].parent
            &&& m[subject].kind != ContainerKind::Stack ==> subject_stack(m, subject)
                == m[subject].parent
        },
        m[subject].parent is None || m[m[subject].parent->0].kind != ContainerKind::Stack ==> {
            &&& stack_of(m, subject) is None
            &&& m[subject].kind != ContainerKind::Stack ==> subject_stack(m, subject) is None
        },
{
}

/// When a container is taken out, the share of each of its children is scaled by
/// its own.
pub proof fn shares_are_scaled_one_by_one(ids: Seq<u128>, by: u128, i: int)
    ensures
        scales(ids, by).len() == ids.len(),
        0 <= i < ids.len() ==> scales(ids, by)[i] == (SizeChange::Scale { target: ids[i], by }),
{
}

/// A window that is put into a new stack is all that it holds, and the stack
/// stands where the window stood, under the name that it was given.
pub proof fn new_stacks_hold_one_window(m: Nodes, s: u128, name: Option<Seq<char>>, w: u128)
    requires
        wf(m),
        m.contains_key(w),
        m[w].parent is Some,
        !m.contains_key(s),
    ensures
        ({
            let t = stacked(m, s, name, w);
            let p = m[w].parent->0;
            &&& t[s].kind == ContainerKind::Stack
            &&& t[s].name == name
            &&& t[s].children == seq![w]
            &&& t[s].parent == Some(p)
            &&& t[w].parent == Some(s)
            &&& t[p].children == m[p].children.update(m[p].children.index_of(w), s)
        }),
{
    let p = m[w].parent->0;
    lemma_parent_is_higher(m, w);
    assert(node_linked(m, p));
    assert(node_linked(m, w));
    let i = m[p].children.index_of(w);
    let t = stacked(m, s, name, w);
    assert(p != s && p != w);
    assert(t[p].children =~= m[p].children.update(i, s));
}

} // verus!
