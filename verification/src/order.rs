//! Stable ordering by name.

use vstd::prelude::*;

use crate::collections::{before, lemma_before_irreflexive, lemma_before_total, lemma_before_transitive, text_before};

verus! {

/// Whether entry `a` comes before entry `b`: by name, and by position where the
/// names are equal.
pub open spec fn comes_before(names: Seq<Seq<char>>, a: int, b: int) -> bool {
    text_before(names[a], names[b]) || (names[a] == names[b] && a < b)
}

/// Whether `order` lists every position of `names` once, in the order of the
/// names, and in the order of the positions where names are equal.
pub open spec fn is_stable_order(order: Seq<usize>, names: Seq<Seq<char>>) -> bool {
    &&& order.len() == names.len()
    &&& forall|i: int| 0 <= i < order.len() ==> 0 <= #[trigger] order[i] < names.len()
    &&& forall|i: int, j: int|
        0 <= i < j < order.len() ==> comes_before(
            names,
            #[trigger] order[i] as int,
            #[trigger] order[j] as int,
        )
    &&& forall|k: usize| k < names.len() ==> #[trigger] order.contains(k)
}

proof fn lemma_comes_before_transitive(names: Seq<Seq<char>>, a: int, b: int, c: int)
    requires
        comes_before(names, a, b),
        comes_before(names, b, c),
    ensures
        comes_before(names, a, c),
{
    if text_before(names[a], names[b]) && text_before(names[b], names[c]) {
        lemma_before_transitive(names[a], names[b], names[c]);
    }
}

/// The order of the first `n` positions.
spec fn is_partial_order(order: Seq<usize>, names: Seq<Seq<char>>, n: int) -> bool {
    &&& order.len() == n
    &&& n <= names.len()
    &&& forall|i: int| 0 <= i < order.len() ==> 0 <= #[trigger] order[i] < n
    &&& forall|i: int, j: int|
        0 <= i < j < order.len() ==> comes_before(
            names,
            #[trigger] order[i] as int,
            #[trigger] order[j] as int,
        )
    &&& forall|k: usize| k < n ==> #[trigger] order.contains(k)
}

/// One more position put in its place.
proof fn lemma_insert(order: Seq<usize>, names: Seq<Seq<char>>, n: int, p: int)
    requires
        is_partial_order(order, names, n),
        n < names.len(),
        n <= usize::MAX,
        0 <= p <= order.len(),
        forall|i: int| 0 <= i < p ==> !text_before(names[n], names[#[trigger] order[i] as int]),
        p < order.len() ==> text_before(names[n], names[order[p] as int]),
    ensures
        is_partial_order(order.insert(p, n as usize), names, n + 1),
{
    let more = order.insert(p, n as usize);
    assert forall|i: int| 0 <= i < more.len() implies 0 <= #[trigger] more[i] < n + 1 by {
        if i < p {
            assert(more[i] == order[i]);
        } else if i > p {
            assert(more[i] == order[i - 1]);
        }
    }
    assert forall|i: int| 0 <= i < p implies comes_before(
        names,
        #[trigger] order[i] as int,
        n,
    ) by {
        lemma_before_total(names[order[i] as int], names[n]);
    }
    assert forall|i: int| p <= i < order.len() implies comes_before(
        names,
        n,
        #[trigger] order[i] as int,
    ) by {
        if i > p {
            lemma_comes_before_transitive(names, n, order[p] as int, order[i] as int);
        }
    }
    assert forall|i: int, j: int| 0 <= i < j < more.len() implies comes_before(
        names,
        #[trigger] more[i] as int,
        #[trigger] more[j] as int,
    ) by {
        let a = if i < p {
            i
        } else {
            i - 1
        };
        let b = if j < p {
            j
        } else {
            j - 1
        };
        if i != p {
            assert(more[i] == order[a]);
        }
        if j != p {
            assert(more[j] == order[b]);
        }
    }
    assert forall|k: usize| k < n + 1 implies #[trigger] more.contains(k) by {
        if k == n {
            assert(more[p] == k);
        } else {
            assert(order.contains(k));
            let i = choose|i: int| 0 <= i < order.len() && order[i] == k;
            if i < p {
                assert(more[i] == k);
            } else {
                assert(more[i + 1] == k);
            }
        }
    }
}

/// The positions of `names` in the order of the names; entries with equal names
/// keep their order.
pub fn stable_order(names: &[&str]) -> (r: Vec<usize>)
    ensures
        is_stable_order(r@, names.deep_view()),
{
    let ghost all = names.deep_view();
    let mut r: Vec<usize> = Vec::new();
    let mut n: usize = 0;
    while n < names.len()
        invariant
            n <= names.len(),
            all == names.deep_view(),
            is_partial_order(r@, all, n as int),
        decreases names.len() - n,
    {
        let mut p: usize = r.len();
        assert(all[n as int] == names[n as int]@);
        while p > 0
            invariant
                p <= r.len(),
                n < names.len(),
                all == names.deep_view(),
                is_partial_order(r@, all, n as int),
                all[n as int] == names[n as int]@,
                p < r.len() ==> text_before(all[n as int], all[r@[p as int] as int]),
            ensures
                p <= r.len(),
                forall|i: int|
                    0 <= i < p ==> !text_before(all[n as int], all[#[trigger] r@[i] as int]),
                p < r.len() ==> text_before(all[n as int], all[r@[p as int] as int]),
            decreases p,
        {
            assert(all[r@[p - 1] as int] == names[r@[p - 1] as int]@);
            if !before(names[n], names[r[p - 1]]) {
                proof {
                    let last = r@[p - 1] as int;
                    assert forall|i: int| 0 <= i < p implies !text_before(
                        all[n as int],
                        all[#[trigger] r@[i] as int],
                    ) by {
                        if i < p - 1 {
                            assert(comes_before(all, r@[i] as int, r@[p - 1] as int));
                            let x = all[r@[i] as int];
                            if text_before(all[n as int], x) && text_before(x, all[last]) {
                                lemma_before_transitive(all[n as int], x, all[last]);
                            }
                        }
                    }
                }
                break;
            }
            p -= 1;
        }
        proof {
            lemma_insert(r@, all, n as int, p as int);
        }
        r.insert(p, n);
        n += 1;
    }
    r
}

/// The stable order is the only one: two lists that are one are equal.
pub proof fn law_stable_order_is_unique(a: Seq<usize>, b: Seq<usize>, names: Seq<Seq<char>>)
    requires
        is_stable_order(a, names),
        is_stable_order(b, names),
    ensures
        a == b,
{
    assert forall|i: int| 0 <= i < a.len() implies a[i] == b[i] by {
        lemma_same_rank(a, b, names, i);
    }
    assert(a =~= b);
}

proof fn lemma_same_rank(a: Seq<usize>, b: Seq<usize>, names: Seq<Seq<char>>, i: int)
    requires
        is_stable_order(a, names),
        is_stable_order(b, names),
        0 <= i < a.len(),
    ensures
        a[i] == b[i],
    decreases i,
{
    assert forall|k: int| 0 <= k < i implies a[k] == b[k] by {
        lemma_same_rank(a, b, names, k);
    }
    if a[i] != b[i] {
        assert(b.contains(a[i]));
        let p = choose|p: int| 0 <= p < b.len() && b[p] == a[i];
        assert(a.contains(b[i]));
        let q = choose|q: int| 0 <= q < a.len() && a[q] == b[i];
        lemma_order_irreflexive(names, a[i] as int);
        lemma_order_irreflexive(names, b[i] as int);
        if p < i {
            assert(a[p] == b[p]);
            assert(comes_before(names, a[p] as int, a[i] as int));
        }
        if q < i {
            assert(a[q] == b[q]);
            assert(comes_before(names, b[q] as int, b[i] as int));
        }
        assert(p > i && q > i);
        assert(comes_before(names, b[i] as int, b[p] as int));
        assert(comes_before(names, a[i] as int, a[q] as int));
        lemma_comes_before_transitive(names, a[i] as int, b[i] as int, a[i] as int);
    }
}

proof fn lemma_order_irreflexive(names: Seq<Seq<char>>, a: int)
    ensures
        !comes_before(names, a, a),
{
    lemma_before_irreflexive(names[a]);
}

} // verus!
