//! The windows of a part of the tree.

use vstd::prelude::*;

use crate::stack::{lemma_descendants_contained, lemma_filter_step};
use crate::tree::{descendants, descendants_from, wf, Nodes, Tree};

verus! {

/// Picks the windows.
pub open spec fn is_window_in(m: Nodes) -> spec_fn(u128) -> bool {
    |x: u128| m[x].kind.spec_is_window()
}

/// The windows below `id`, from the outside in.
pub open spec fn windows_below(m: Nodes, id: u128) -> Seq<u128> {
    descendants(m, id).filter(is_window_in(m))
}

/// Every window below `id` is in the tree, and is a window.
pub proof fn lemma_windows_below(m: Nodes, id: u128, i: int)
    requires
        wf(m),
        m.contains_key(id),
        0 <= i < windows_below(m, id).len(),
    ensures
        m.contains_key(windows_below(m, id)[i]),
        m[windows_below(m, id)[i]].kind.spec_is_window(),
{
    let all = descendants(m, id);
    let w = windows_below(m, id)[i];
    all.lemma_filter_pred(is_window_in(m), i);
    all.lemma_filter_contains_rev(is_window_in(m), w);
    lemma_descendants_contained(m, id, 0);
    assert(descendants_from(m, id, 0).contains(w));
}

impl Tree {
    /// The windows below `id`, from the outside in.
    pub fn windows_below(&self, id: u128) -> (result: Vec<u128>)
        requires
            wf(self@),
            self@.contains_key(id),
        ensures
            result@ == windows_below(self@, id),
    {
        let ghost m = self@;
        let ghost pred = is_window_in(m);
        let all = self.descendants(id);
        let mut result: Vec<u128> = Vec::new();
        let mut i: usize = 0;
        proof {
            reveal(Seq::filter);
            lemma_descendants_contained(m, id, 0);
        }
        while i < all.len()
            invariant
                i <= all@.len(),
                m == self@,
                all@ == descendants(m, id),
                pred == is_window_in(m),
                forall|x: u128| #[trigger]
                    descendants_from(m, id, 0).contains(x) ==> m.contains_key(x),
                result@ == all@.subrange(0, i as int).filter(pred),
            decreases all@.len() - i,
        {
            let x: u128 = all[i];
            proof {
                assert(descendants_from(m, id, 0).contains(x));
                lemma_filter_step(all@, pred, i as int);
            }
            if self.get(x).kind.is_window() {
                result.push(x);
            }
            i = i + 1;
        }
        proof {
            assert(all@.subrange(0, i as int) =~= all@);
        }
        result
    }

    /// The first of `windows` that has the given handle.
    pub fn window_with_handle(&self, windows: &Vec<u128>, handle: isize) -> (result: Option<u128>)
        requires
            forall|k: int| 0 <= k < windows@.len() ==> self@.contains_key(#[trigger] windows@[k]),
        ensures
            match result {
                Some(w) => exists|i: int|
                    0 <= i < windows@.len() && windows@[i] == w
                        && self@[#[trigger] windows@[i]].handle == handle && forall|k: int|
                        0 <= k < i ==> self@[#[trigger] windows@[k]].handle != handle,
                None => forall|k: int|
                    0 <= k < windows@.len() ==> self@[#[trigger] windows@[k]].handle != handle,
            },
    {
        let mut i: usize = 0;
        while i < windows.len()
            invariant
                i <= windows@.len(),
                forall|k: int|
                    0 <= k < windows@.len() ==> self@.contains_key(#[trigger] windows@[k]),
                forall|k: int| 0 <= k < i ==> self@[#[trigger] windows@[k]].handle != handle,
            decreases windows@.len() - i,
        {
            if self.get(windows[i]).handle == handle {
                return Some(windows[i]);
            }
            i = i + 1;
        }
        None
    }
}

/// The windows of a part of the tree are those of its containers that are
/// windows, tiled or not, in the order of the containers.
pub proof fn all_windows_are_listed(m: Nodes, id: u128, x: u128)
    ensures
        windows_below(m, id).contains(x) <==> descendants(m, id).contains(x) && (m[x].kind
            == crate::container::ContainerKind::TilingWindow || m[x].kind
            == crate::container::ContainerKind::NonTilingWindow),
        windows_below(m, id) == descendants(m, id).filter(
            |y: u128|
                m[y].kind == crate::container::ContainerKind::TilingWindow || m[y].kind
                    == crate::container::ContainerKind::NonTilingWindow,
        ),
{
    let all = descendants(m, id);
    let pred = is_window_in(m);
    let ws = windows_below(m, id);
    assert(pred =~= (|y: u128|
        m[y].kind == crate::container::ContainerKind::TilingWindow || m[y].kind
            == crate::container::ContainerKind::NonTilingWindow));
    if ws.contains(x) {
        let k = choose|k: int| 0 <= k < ws.len() && ws[k] == x;
        all.lemma_filter_pred(pred, k);
        all.lemma_filter_contains_rev(pred, x);
    }
    if all.contains(x) && pred(x) {
        let k = choose|k: int| 0 <= k < all.len() && all[k] == x;
        all.lemma_filter_contains(pred, k);
    }
}

} // verus!
