//! The order of workspaces.

use vstd::prelude::*;

use crate::text::{comes_before, lemma_text_less_irreflexive, lemma_text_less_total,
    lemma_text_less_transitive, parse_u32, parsed_u32, text_less};

verus! {

/// The texts that a list of strings stands for.
pub open spec fn texts(v: Seq<String>) -> Seq<Seq<char>> {
    v.map_values(|s: String| s@)
}

/// The first place of `name` in `names`, from `i` on.
pub open spec fn first_index(names: Seq<Seq<char>>, name: Seq<char>, i: int) -> Option<int>
    decreases names.len() - i,
{
    if i < 0 || i >= names.len() {
        None
    } else if names[i] == name {
        Some(i)
    } else {
        first_index(names, name, i + 1)
    }
}

pub proof fn lemma_first_index(names: Seq<Seq<char>>, name: Seq<char>, i: int)
    requires
        0 <= i <= names.len(),
    ensures
        match first_index(names, name, i) {
            Some(k) => i <= k < names.len() && names[k] == name && forall|j: int|
                i <= j < k ==> names[j] != name,
            None => forall|j: int| i <= j < names.len() ==> names[j] != name,
        },
    decreases names.len() - i,
{
    if i < names.len() && names[i] != name {
        lemma_first_index(names, name, i + 1);
    }
}

/// The place of a workspace among the configured ones; those that are not
/// configured come last.
pub open spec fn index_rank(configured: Seq<Seq<char>>, name: Seq<char>) -> int {
    match first_index(configured, name, 0) {
        Some(i) => i,
        None => usize::MAX as int,
    }
}

/// The number that a name stands for; those that stand for none come last.
pub open spec fn number_rank(name: Seq<char>) -> int {
    match parsed_u32(name) {
        Some(n) => n as int,
        None => u32::MAX as int,
    }
}

/// Whether the workspace `a` comes before the workspace `b`: by their places in
/// the configuration, then by their numbers, then by their names.
pub open spec fn name_less(configured: Seq<Seq<char>>, a: Seq<char>, b: Seq<char>) -> bool {
    let ia = index_rank(configured, a);
    let ib = index_rank(configured, b);
    let na = number_rank(a);
    let nb = number_rank(b);
    if ia != ib {
        ia < ib
    } else if na != nb {
        na < nb
    } else {
        text_less(a, b)
    }
}

pub proof fn lemma_name_less_transitive(
    configured: Seq<Seq<char>>,
    a: Seq<char>,
    b: Seq<char>,
    c: Seq<char>,
)
    requires
        name_less(configured, a, b),
        name_less(configured, b, c),
    ensures
        name_less(configured, a, c),
{
    if text_less(a, b) && text_less(b, c) {
        lemma_text_less_transitive(a, b, c);
    }
}

pub proof fn lemma_name_less_total(configured: Seq<Seq<char>>, a: Seq<char>, b: Seq<char>)
    ensures
        name_less(configured, a, b) || name_less(configured, b, a) || a == b,
        !(name_less(configured, a, b) && name_less(configured, b, a)),
        a == b ==> !name_less(configured, a, b),
{
    lemma_text_less_irreflexive(a);
    if text_less(a, b) && text_less(b, a) {
        lemma_text_less_transitive(a, b, a);
    }
    if !text_less(a, b) && !text_less(b, a) {
        lemma_text_less_total(a, b);
    }
}

/// Whether the workspace at `i` stands before that at `j` in the order of their
/// names, workspaces of the same name in the order given.
pub open spec fn name_precedes(
    configured: Seq<Seq<char>>,
    names: Seq<Seq<char>>,
    i: int,
    j: int,
) -> bool {
    name_less(configured, names[i], names[j]) || (names[i] == names[j] && i < j)
}

/// Whether `order` lists the places of `names` in the order of the names.
pub open spec fn is_name_order(
    configured: Seq<Seq<char>>,
    names: Seq<Seq<char>>,
    order: Seq<usize>,
) -> bool {
    &&& order.len() == names.len()
    &&& order.no_duplicates()
    &&& forall|i: int| 0 <= i < order.len() ==> #[trigger] order[i] < names.len()
    &&& forall|i: int| 0 <= i < names.len() ==> #[trigger] order.contains(i as usize)
    &&& forall|a: int, b: int|
        #![trigger order[a], order[b]]
        0 <= a < b < order.len() ==> name_precedes(
            configured,
            names,
            order[a] as int,
            order[b] as int,
        )
}

/// What `names` becomes when listed in the order `order`.
pub open spec fn reordered<T>(items: Seq<T>, order: Seq<usize>) -> Seq<T> {
    Seq::new(order.len(), |i: int| items[order[i] as int])
}

/// The first place of `name` in `names`.
pub fn index_of_name(names: &Vec<String>, name: &String) -> (result: Option<usize>)
    ensures
        match result {
            Some(i) => first_index(texts(names@), name@, 0) == Some(i as int) && i < names@.len(),
            None => first_index(texts(names@), name@, 0) is None,
        },
{
    let mut i: usize = 0;
    while i < names.len()
        invariant
            i <= names@.len(),
            first_index(texts(names@), name@, i as int) == first_index(texts(names@), name@, 0),
        decreases names@.len() - i,
    {
        if names[i] == *name {
            return Some(i);
        }
        i = i + 1;
    }
    None
}

/// What workspaces are ordered by before their names.
#[derive(Clone, Copy, Debug, PartialEq, Eq, Structural)]
struct NameRank {
    index: usize,
    number: u32,
}

fn name_rank(configured: &Vec<String>, name: &String) -> (result: NameRank)
    ensures
        result.index == index_rank(texts(configured@), name@),
        result.number == number_rank(name@),
{
    let index: usize = match index_of_name(configured, name) {
        Some(i) => i,
        None => usize::MAX,
    };
    let number: u32 = match parse_u32(name.as_str()) {
        Some(n) => n,
        None => u32::MAX,
    };
    NameRank { index, number }
}

/// Whether the workspace `a` comes before the workspace `b`.
pub fn is_name_less(configured: &Vec<String>, a: &String, b: &String) -> (result: bool)
    ensures
        result == name_less(texts(configured@), a@, b@),
{
    let ra = name_rank(configured, a);
    let rb = name_rank(configured, b);
    if ra.index != rb.index {
        ra.index < rb.index
    } else if ra.number != rb.number {
        ra.number < rb.number
    } else {
        comes_before(a.as_str(), b.as_str())
    }
}

proof fn lemma_precedes_transitive(
    configured: Seq<Seq<char>>,
    names: Seq<Seq<char>>,
    i: int,
    j: int,
    k: int,
)
    requires
        name_precedes(configured, names, i, j),
        name_precedes(configured, names, j, k),
    ensures
        name_precedes(configured, names, i, k),
{
    if name_less(configured, names[i], names[j]) && name_less(configured, names[j], names[k]) {
        lemma_name_less_transitive(configured, names[i], names[j], names[k]);
    }
}

/// The places of `names`, in the order of the names.
pub fn name_order(configured: &Vec<String>, names: &Vec<String>) -> (order: Vec<usize>)
    ensures
        is_name_order(texts(configured@), texts(names@), order@),
{
    let ghost cfg = texts(configured@);
    let ghost all = texts(names@);
    let mut order: Vec<usize> = Vec::new();
    let mut k: usize = 0;
    while k < names.len()
        invariant
            k <= names@.len(),
            cfg == texts(configured@),
            all == texts(names@),
            order@.len() == k,
            forall|i: int| 0 <= i < order@.len() ==> #[trigger] order@[i] < k,
            forall|a: int, b: int|
                #![trigger order@[a], order@[b]]
                0 <= a < b < order@.len() ==> name_precedes(
                    cfg,
                    all,
                    order@[a] as int,
                    order@[b] as int,
                ),
            forall|i: int| 0 <= i < k ==> #[trigger] order@.contains(i as usize),
        decreases names@.len() - k,
    {
        let mut at: usize = order.len();
        while at > 0 && is_name_less(configured, &names[k], &names[order[at - 1]])
            invariant
                k < names@.len(),
                cfg == texts(configured@),
                all == texts(names@),
                at <= order@.len(),
                forall|i: int| 0 <= i < order@.len() ==> #[trigger] order@[i] < k,
                forall|i: int|
                    at <= i < order@.len() ==> name_less(
                        cfg,
                        all[k as int],
                        all[#[trigger] order@[i] as int],
                    ),
            decreases at,
        {
            at = at - 1;
        }
        let ghost before = order@;
        proof {
            assert forall|a: int| 0 <= a < at implies name_precedes(
                cfg,
                all,
                #[trigger] before[a] as int,
                k as int,
            ) by {
                let last = before[at - 1] as int;
                lemma_name_less_total(cfg, all[k as int], all[last]);
                assert(name_precedes(cfg, all, last, k as int));
                if a < at - 1 {
                    assert(name_precedes(cfg, all, before[a] as int, before[at - 1] as int));
                    lemma_precedes_transitive(cfg, all, before[a] as int, last, k as int);
                }
            }
        }
        order.insert(at, k);
        proof {
            assert forall|a: int, b: int|
                #![trigger order@[a], order@[b]]
                0 <= a < b < order@.len() implies name_precedes(
                cfg,
                all,
                order@[a] as int,
                order@[b] as int,
            ) by {
                let ia = if a < at {
                    a
                } else {
                    a - 1
                };
                let ib = if b < at {
                    b
                } else {
                    b - 1
                };
                if a == at {
                    assert(order@[b] == before[ib]);
                } else if b == at {
                    assert(order@[a] == before[ia]);
                } else {
                    assert(order@[a] == before[ia]);
                    assert(order@[b] == before[ib]);
                }
            }
            assert forall|i: int| 0 <= i < k + 1 implies #[trigger] order@.contains(
                i as usize,
            ) by {
                if i == k {
                    assert(order@[at as int] == k);
                } else {
                    assert(before.contains(i as usize));
                    let j = choose|j: int| 0 <= j < before.len() && before[j] == i as usize;
                    assert(order@[if j < at { j } else { j + 1 }] == i as usize);
                }
            }
        }
        k = k + 1;
    }
    proof {
        assert forall|a: int, b: int|
            0 <= a < order@.len() && 0 <= b < order@.len() && a != b implies order@[a]
            != order@[b] by {
            let (x, y) = if a < b {
                (a, b)
            } else {
                (b, a)
            };
            assert(name_precedes(cfg, all, order@[x] as int, order@[y] as int));
            lemma_name_less_total(cfg, all[order@[x] as int], all[order@[y] as int]);
        }
    }
    order
}

/// `names` without those that repeat the one before.
pub open spec fn deduped(names: Seq<Seq<char>>) -> Seq<Seq<char>>
    decreases names.len(),
{
    if names.len() <= 1 {
        names
    } else {
        let rest = deduped(names.drop_last());
        if names[names.len() - 2] == names.last() {
            rest
        } else {
            rest.push(names.last())
        }
    }
}

/// `names` in their order, without those that repeat the one before.
pub fn sorted_and_deduped(configured: &Vec<String>, names: &Vec<String>) -> (result: Vec<String>)
    ensures
        exists|order: Seq<usize>| #[trigger]
            is_name_order(texts(configured@), texts(names@), order) && texts(result@) == deduped(
                reordered(texts(names@), order),
            ),
{
    let order = name_order(configured, names);
    let ghost all = texts(names@);
    let ghost sorted = reordered(all, order@);
    let mut result: Vec<String> = Vec::new();
    let mut i: usize = 0;
    while i < order.len()
        invariant
            i <= order@.len() == names@.len(),
            is_name_order(texts(configured@), all, order@),
            all == texts(names@),
            sorted == reordered(all, order@),
            texts(result@) == deduped(sorted.subrange(0, i as int)),
        decreases order@.len() - i,
    {
        proof {
            let next = sorted.subrange(0, i + 1);
            assert(next.drop_last() =~= sorted.subrange(0, i as int));
            assert(next.last() == sorted[i as int]);
            if i == 0 {
                assert(next =~= seq![sorted[0]]);
                assert(sorted.subrange(0, 0) =~= Seq::<Seq<char>>::empty());
                assert(result@.len() == texts(result@).len());
            } else {
                assert(next[i - 1] == sorted[i - 1]);
            }
        }
        let ghost before = result@;
        if i == 0 || names[order[i - 1]] != names[order[i]] {
            result.push(names[order[i]].clone());
            proof {
                assert(texts(result@) =~= texts(before).push(sorted[i as int]));
                if i == 0 {
                    assert(texts(result@) =~= sorted.subrange(0, 1));
                }
            }
        }
        i = i + 1;
    }
    proof {
        assert(sorted.subrange(0, i as int) =~= sorted);
    }
    result
}

/// Whether each of `names` comes before all that follow it.
pub open spec fn is_strictly_sorted(configured: Seq<Seq<char>>, names: Seq<Seq<char>>) -> bool {
    forall|a: int, b: int|
        #![trigger names[a], names[b]]
        0 <= a < b < names.len() ==> name_less(configured, names[a], names[b])
}

proof fn lemma_deduped(configured: Seq<Seq<char>>, names: Seq<Seq<char>>)
    requires
        forall|a: int, b: int|
            #![trigger names[a], names[b]]
            0 <= a < b < names.len() ==> names[a] == names[b] || name_less(
                configured,
                names[a],
                names[b],
            ),
    ensures
        is_strictly_sorted(configured, deduped(names)),
        forall|x: Seq<char>| #[trigger] deduped(names).contains(x) <==> names.contains(x),
        names.len() > 0 ==> deduped(names).len() > 0 && deduped(names).last() == names.last(),
    decreases names.len(),
{
    let d = names.drop_last();
    let w = deduped(names);
    if names.len() > 1 {
        lemma_deduped(configured, d);
        let rest = deduped(d);
        let n = names.len() as int;
        let skipped = names[n - 2] == names.last();
        assert(d.last() == names[n - 2]);
        assert forall|x: Seq<char>| #[trigger] w.contains(x) <==> names.contains(x) by {
            if w.contains(x) {
                let k = choose|k: int| 0 <= k < w.len() && w[k] == x;
                if k < rest.len() {
                    assert(rest[k] == x);
                    assert(rest.contains(x));
                    let j = choose|j: int| 0 <= j < d.len() && d[j] == x;
                    assert(names[j] == x);
                } else {
                    assert(names[n - 1] == x);
                }
            }
            if names.contains(x) {
                let j = choose|j: int| 0 <= j < names.len() && names[j] == x;
                if j < n - 1 {
                    assert(d[j] == x);
                } else if skipped {
                    assert(d[n - 2] == x);
                }
                if j < n - 1 || skipped {
                    assert(d.contains(x));
                    assert(rest.contains(x));
                    let k = choose|k: int| 0 <= k < rest.len() && rest[k] == x;
                    assert(w[k] == x);
                } else {
                    assert(w[rest.len() as int] == x);
                }
            }
        }
        assert forall|a: int, b: int|
            #![trigger w[a], w[b]]
            0 <= a < b < w.len() implies name_less(configured, w[a], w[b]) by {
            if b < rest.len() {
                assert(rest[a] == w[a] && rest[b] == w[b]);
            } else {
                let last = names[n - 2];
                assert(name_less(configured, last, names[n - 1]));
                assert(rest[a] == w[a]);
                if a < rest.len() - 1 {
                    assert(name_less(configured, rest[a], rest[rest.len() - 1]));
                    lemma_name_less_transitive(configured, w[a], last, w[b]);
                }
            }
        }
    }
}

/// Names in their order, freed of repetitions, hold each name that was given
/// exactly once, and each comes before all that follow it.
pub proof fn sorted_names_are_complete(
    configured: Seq<Seq<char>>,
    names: Seq<Seq<char>>,
    order: Seq<usize>,
)
    requires
        is_name_order(configured, names, order),
    ensures
        is_strictly_sorted(configured, deduped(reordered(names, order))),
        deduped(reordered(names, order)).no_duplicates(),
        forall|x: Seq<char>| #[trigger]
            deduped(reordered(names, order)).contains(x) <==> names.contains(x),
{
    let s = reordered(names, order);
    assert forall|a: int, b: int|
        #![trigger s[a], s[b]]
        0 <= a < b < s.len() implies s[a] == s[b] || name_less(configured, s[a], s[b]) by {
        assert(name_precedes(configured, names, order[a] as int, order[b] as int));
    }
    lemma_deduped(configured, s);
    let w = deduped(s);
    assert forall|a: int, b: int| 0 <= a < w.len() && 0 <= b < w.len() && a != b implies w[a]
        != w[b] by {
        if a < b {
            lemma_name_less_total(configured, w[a], w[b]);
        } else {
            lemma_name_less_total(configured, w[b], w[a]);
        }
    }
    assert forall|x: Seq<char>| #[trigger] s.contains(x) <==> names.contains(x) by {
        if s.contains(x) {
            let j = choose|j: int| 0 <= j < s.len() && s[j] == x;
            assert(names[order[j] as int] == x);
        }
        if names.contains(x) && !s.contains(x) {
            let j = choose|j: int| 0 <= j < names.len() && names[j] == x;
            lemma_order_covers(configured, names, order, j);
            let q = choose|q: int| 0 <= q < order.len() && order[q] as int == j;
            assert(s[q] == x);
        }
    }
    assert forall|x: Seq<char>| #[trigger] w.contains(x) <==> names.contains(x) by {
        assert(w.contains(x) <==> s.contains(x));
    }
}

proof fn lemma_order_covers(
    configured: Seq<Seq<char>>,
    names: Seq<Seq<char>>,
    order: Seq<usize>,
    j: int,
)
    requires
        is_name_order(configured, names, order),
        0 <= j < names.len(),
    ensures
        exists|q: int| 0 <= q < order.len() && order[q] as int == j,
{
    assert(order.contains(j as usize));
    let q = choose|q: int| 0 <= q < order.len() && order[q] == j as usize;
    // The places listed are as many as the names and all different, so the
    // number of names is one that a place can have.
    if j > usize::MAX {
        lemma_too_many_places(order);
    }
    assert(order[q] as int == j);
}

proof fn lemma_too_many_places(order: Seq<usize>)
    requires
        order.no_duplicates(),
    ensures
        order.len() <= usize::MAX + 1,
{
    let all = order.map_values(|u: usize| u as int);
    assert(all.no_duplicates()) by {
        assert forall|a: int, b: int| 0 <= a < all.len() && 0 <= b < all.len() && a != b implies all[a]
            != all[b] by {
            assert(order[a] != order[b]);
        }
    }
    all.unique_seq_to_set();
    let bound = vstd::set_lib::set_int_range(0, usize::MAX + 1);
    vstd::set_lib::lemma_int_range(0, usize::MAX + 1);
    assert(all.to_set().subset_of(bound)) by {
        assert forall|x: int| all.to_set().contains(x) implies bound.contains(x) by {
            let k = choose|k: int| 0 <= k < all.len() && all[k] == x;
            assert(all[k] == order[k] as int);
        }
    }
    vstd::set_lib::lemma_len_subset(all.to_set(), bound);
}

/// Configured workspaces come in the order of the configuration.
pub proof fn configured_names_keep_their_order(configured: Seq<Seq<char>>, i: int, j: int)
    requires
        0 <= i < j < configured.len() <= usize::MAX,
        configured.no_duplicates(),
    ensures
        name_less(configured, configured[i], configured[j]),
        !name_less(configured, configured[j], configured[i]),
{
    lemma_first_index(configured, configured[i], 0);
    lemma_first_index(configured, configured[j], 0);
}

/// Of two workspaces that are not configured, the one with the lower number
/// comes first, one with a number comes before one without, and without numbers
/// their names decide.
pub proof fn other_names_go_by_their_numbers(
    configured: Seq<Seq<char>>,
    a: Seq<char>,
    b: Seq<char>,
)
    requires
        !configured.contains(a),
        !configured.contains(b),
    ensures
        parsed_u32(a) is Some && parsed_u32(b) is Some && parsed_u32(a)->0 < parsed_u32(b)->0
            ==> name_less(configured, a, b),
        parsed_u32(a) is Some && parsed_u32(a)->0 < u32::MAX && parsed_u32(b) is None ==> name_less(
            configured,
            a,
            b,
        ),
        parsed_u32(a) == parsed_u32(b) ==> (name_less(configured, a, b) <==> text_less(a, b)),
{
    lemma_first_index(configured, a, 0);
    lemma_first_index(configured, b, 0);
    if first_index(configured, a, 0) is Some {
        assert(configured[first_index(configured, a, 0)->0] == a);
    }
    if first_index(configured, b, 0) is Some {
        assert(configured[first_index(configured, b, 0)->0] == b);
    }
}

/// In order, no workspace comes before one that should come before it, those
/// with the same name stay as they were, and each stands there exactly once.
pub proof fn orders_are_sorted_and_complete(
    configured: Seq<Seq<char>>,
    names: Seq<Seq<char>>,
    order: Seq<usize>,
    a: int,
    b: int,
    k: int,
)
    requires
        is_name_order(configured, names, order),
    ensures
        0 <= a < b < order.len() ==> {
            &&& !name_less(configured, names[order[b] as int], names[order[a] as int])
            &&& names[order[a] as int] == names[order[b] as int] ==> order[a] < order[b]
            &&& order[a] != order[b]
        },
        order.len() == names.len(),
        0 <= a < order.len() ==> reordered(names, order)[a] == names[order[a] as int]
            && 0 <= order[a] < names.len(),
        reordered(names, order).len() == names.len(),
        0 <= k < names.len() ==> exists|q: int| 0 <= q < order.len() && #[trigger] order[q] == k,
{
    if 0 <= a < b < order.len() {
        assert(name_precedes(configured, names, order[a] as int, order[b] as int));
        lemma_name_less_total(configured, names[order[a] as int], names[order[b] as int]);
    }
    if 0 <= k < names.len() {
        lemma_order_covers(configured, names, order, k);
        let q = choose|q: int| 0 <= q < order.len() && order[q] as int == k;
        assert(order[q] == k);
    }
}

} // verus!
