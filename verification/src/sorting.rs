//! Ordering and deduplication.

use itertools::Itertools;
use vstd::prelude::*;

verus! {

/// Whether `order` lists the positions of `keys` from the smallest key to the
/// largest, equal keys in the order they stand in.
pub open spec fn is_stable_order(keys: Seq<u64>, order: Seq<usize>) -> bool {
    &&& order.len() == keys.len()
    &&& forall|i: int| 0 <= i < order.len() ==> #[trigger] order[i] < keys.len()
    &&& forall|a: int, b: int|
        #![trigger order[a], order[b]]
        0 <= a < b < order.len() ==> {
            ||| keys[order[a] as int] < keys[order[b] as int]
            ||| keys[order[a] as int] == keys[order[b] as int] && order[a] < order[b]
        }
}

/// Whether position `i` comes before position `j` in the stable order of
/// `keys`.
pub open spec fn comes_before(keys: Seq<u64>, i: int, j: int) -> bool {
    keys[i] < keys[j] || (keys[i] == keys[j] && i < j)
}

/// The positions of `keys`, from the smallest key to the largest, equal keys in
/// the order they stand in.
pub fn stable_order(keys: &Vec<u64>) -> (order: Vec<usize>)
    ensures
        is_stable_order(keys@, order@),
        order@.no_duplicates(),
        forall|i: int| 0 <= i < keys@.len() ==> #[trigger] order@.contains(i as usize),
{
    let mut order: Vec<usize> = Vec::new();
    let mut k: usize = 0;
    while k < keys.len()
        invariant
            k <= keys@.len(),
            order@.len() == k,
            forall|i: int| 0 <= i < order@.len() ==> #[trigger] order@[i] < k,
            forall|a: int, b: int|
                #![trigger order@[a], order@[b]]
                0 <= a < b < order@.len() ==> comes_before(
                    keys@,
                    order@[a] as int,
                    order@[b] as int,
                ),
            forall|i: int| 0 <= i < k ==> #[trigger] order@.contains(i as usize),
        decreases keys@.len() - k,
    {
        let mut at: usize = order.len();
        while at > 0 && keys[order[at - 1]] > keys[k]
            invariant
                k < keys@.len(),
                at <= order@.len(),
                forall|i: int| 0 <= i < order@.len() ==> #[trigger] order@[i] < k,
                forall|i: int|
                    at <= i < order@.len() ==> keys@[#[trigger] order@[i] as int] > keys@[k as int],
            decreases at,
        {
            at = at - 1;
        }
        let ghost before = order@;
        proof {
            assert forall|a: int| 0 <= a < at implies keys@[#[trigger] before[a] as int]
                <= keys@[k as int] by {
                if a < at - 1 {
                    assert(comes_before(keys@, before[a] as int, before[at - 1] as int));
                }
            }
        }
        order.insert(at, k);
        proof {
            assert forall|a: int, b: int|
                #![trigger order@[a], order@[b]]
                0 <= a < b < order@.len() implies comes_before(
                keys@,
                order@[a] as int,
                order@[b] as int,
            ) by {
                let ia = if a < at {
                    a
                } else {
                    a - 1
                };
                let ib = if b < at {
                    b
                } else {
                    b - 1
                };
                if a == at {
                    assert(order@[b] == before[ib]);
                } else if b == at {
                    assert(order@[a] == before[ia]);
                } else {
                    assert(order@[a] == before[ia]);
                    assert(order@[b] == before[ib]);
                }
            }
            assert forall|i: int| 0 <= i < k + 1 implies #[trigger] order@.contains(
                i as usize,
            ) by {
                if i == k {
                    assert(order@[at as int] == k);
                } else {
                    assert(before.contains(i as usize));
                    let j = choose|j: int| 0 <= j < before.len() && before[j] == i as usize;
                    assert(order@[if j < at { j } else { j + 1 }] == i as usize);
                }
            }
        }
        k = k + 1;
    }
    proof {
        assert forall|a: int, b: int|
            0 <= a < order@.len() && 0 <= b < order@.len() && a != b implies order@[a]
            != order@[b] by {
            if a < b {
                assert(comes_before(keys@, order@[a] as int, order@[b] as int));
            } else {
                assert(comes_before(keys@, order@[b] as int, order@[a] as int));
            }
        }
        assert forall|a: int, b: int|
            #![trigger order@[a], order@[b]]
            0 <= a < b < order@.len() implies keys@[order@[a] as int] < keys@[order@[b] as int] || (
        keys@[order@[a] as int] == keys@[order@[b] as int] && order@[a] < order@[b]) by {
            assert(comes_before(keys@, order@[a] as int, order@[b] as int));
        }
    }
    order
}

proof fn lemma_same_prefix(keys: Seq<u64>, x: Seq<usize>, y: Seq<usize>, n: int)
    requires
        is_stable_order(keys, x),
        is_stable_order(keys, y),
        x.no_duplicates(),
        y.no_duplicates(),
        forall|i: int| 0 <= i < keys.len() ==> #[trigger] x.contains(i as usize),
        forall|i: int| 0 <= i < keys.len() ==> #[trigger] y.contains(i as usize),
        0 <= n <= keys.len(),
    ensures
        forall|i: int| 0 <= i < n ==> #[trigger] x[i] == y[i],
    decreases n,
{
    if n > 0 {
        let k = n - 1;
        lemma_same_prefix(keys, x, y, k);
        if x[k] != y[k] {
            assert(x[k] < keys.len() && y[k] < keys.len());
            assert(y.contains((x[k] as int) as usize));
            assert(x.contains((y[k] as int) as usize));
            let i = choose|i: int| 0 <= i < y.len() && y[i] == x[k];
            let j = choose|j: int| 0 <= j < x.len() && x[j] == y[k];
            assert(i > k) by {
                if i < k {
                    assert(x[i] == y[i]);
                }
            }
            assert(j > k) by {
                if j < k {
                    assert(x[j] == y[j]);
                }
            }
            assert(comes_before(keys, y[k] as int, y[i] as int));
            assert(comes_before(keys, x[k] as int, x[j] as int));
        }
    }
}

/// There is only one stable order of the same keys.
pub proof fn stable_order_is_unique(keys: Seq<u64>, x: Seq<usize>, y: Seq<usize>)
    requires
        is_stable_order(keys, x),
        is_stable_order(keys, y),
        x.no_duplicates(),
        y.no_duplicates(),
        forall|i: int| 0 <= i < keys.len() ==> #[trigger] x.contains(i as usize),
        forall|i: int| 0 <= i < keys.len() ==> #[trigger] y.contains(i as usize),
    ensures
        x == y,
{
    lemma_same_prefix(keys, x, y, keys.len() as int);
    assert(x =~= y);
}

/// `ids` with only the first of equal ones left.
pub open spec fn first_occurrences(ids: Seq<u128>) -> Seq<u128>
    decreases ids.len(),
{
    if ids.len() == 0 {
        Seq::empty()
    } else {
        let rest = first_occurrences(ids.drop_last());
        if rest.contains(ids.last()) {
            rest
        } else {
            rest.push(ids.last())
        }
    }
}

/// Drops every id that occurred before.
///
/// Calls `itertools::Itertools::unique_by` with the id itself as the key, and
/// collects what it yields: the first item of each key, in the order given.
#[verifier::external_body]
pub(crate) fn unique_ids(ids: Vec<u128>) -> (result: Vec<u128>)
    ensures
        result@ == first_occurrences(ids@),
{
    ids.into_iter().unique_by(|id| *id).collect()
}

pub proof fn lemma_first_occurrences(ids: Seq<u128>)
    ensures
        first_occurrences(ids).no_duplicates(),
        forall|x: u128| #[trigger] first_occurrences(ids).contains(x) <==> ids.contains(x),
    decreases ids.len(),
{
    if ids.len() > 0 {
        let d = ids.drop_last();
        lemma_first_occurrences(d);
        let rest = first_occurrences(d);
        let f = first_occurrences(ids);
        assert forall|x: u128| #[trigger] f.contains(x) <==> ids.contains(x) by {
            if f.contains(x) {
                let k = choose|k: int| 0 <= k < f.len() && f[k] == x;
                if k < rest.len() {
                    assert(rest[k] == x);
                    assert(rest.contains(x));
                    let j = choose|j: int| 0 <= j < d.len() && d[j] == x;
                    assert(ids[j] == x);
                } else {
                    assert(ids[ids.len() - 1] == x);
                }
            }
            if ids.contains(x) {
                let j = choose|j: int| 0 <= j < ids.len() && ids[j] == x;
                if j < d.len() {
                    assert(d[j] == x);
                    assert(rest.contains(x));
                }
                if rest.contains(x) {
                    let k = choose|k: int| 0 <= k < rest.len() && rest[k] == x;
                    assert(f[k] == x);
                } else {
                    assert(f[rest.len() as int] == x);
                }
            }
        }
        if !rest.contains(ids.last()) {
            assert forall|a: int, b: int|
                0 <= a < f.len() && 0 <= b < f.len() && a != b implies f[a] != f[b] by {
                if a == rest.len() {
                    assert(rest.contains(rest[b]));
                }
                if b == rest.len() {
                    assert(rest.contains(rest[a]));
                }
            }
        }
    }
}

/// What comes first in a stable order has the smaller key, or the same key and
/// the earlier place.
pub proof fn smaller_keys_come_first(keys: Seq<u64>, order: Seq<usize>, a: int, b: int)
    requires
        is_stable_order(keys, order),
        0 <= a < b < order.len(),
    ensures
        order.len() == keys.len(),
        order[a] < keys.len() && order[b] < keys.len(),
        keys[order[a] as int] <= keys[order[b] as int],
        keys[order[a] as int] == keys[order[b] as int] ==> order[a] < order[b],
{
}

/// What is listed more than once stays where it is listed first.
pub proof fn repetitions_are_left_out(ids: Seq<u128>, id: u128)
    ensures
        first_occurrences(Seq::empty()) == Seq::<u128>::empty(),
        ids.contains(id) ==> first_occurrences(ids.push(id)) == first_occurrences(ids),
        !ids.contains(id) ==> first_occurrences(ids.push(id)) == first_occurrences(ids).push(id),
{
    assert(ids.push(id).drop_last() =~= ids);
    lemma_first_occurrences(ids);
}

} // verus!
