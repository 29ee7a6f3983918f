//! Stable sorting of positions.

use vstd::prelude::*;

verus! {

/// `le` compares any two of the first `len` positions, and does so transitively.
pub open spec fn total_preorder(le: spec_fn(int, int) -> bool, len: nat) -> bool {
    &&& forall|a: int, b: int|
        #![trigger le(a, b)]
        0 <= a < len && 0 <= b < len ==> le(a, b) || le(b, a)
    &&& forall|a: int, b: int, c: int|
        #![trigger le(a, b), le(b, c)]
        0 <= a < len && 0 <= b < len && 0 <= c < len && le(a, b) && le(b, c) ==> le(a, c)
}

/// Whether `a` stands before `b` in a stable sort by `le`.
pub open spec fn sorts_before(le: spec_fn(int, int) -> bool, a: int, b: int) -> bool {
    le(a, b) && (le(b, a) ==> a < b)
}

/// `order` holds the first `len` positions, each once, stably sorted by `le`.
pub open spec fn is_ranking(order: Seq<int>, len: nat, le: spec_fn(int, int) -> bool) -> bool {
    &&& order.len() == len
    &&& forall|i: int| 0 <= i < len ==> 0 <= #[trigger] order[i] < len
    &&& forall|i: int, j: int|
        #![trigger order[i], order[j]]
        0 <= i < j < len ==> order[i] != order[j] && sorts_before(le, order[i], order[j])
}

/// The integers that a vector of indices holds.
pub open spec fn positions(order: Seq<usize>) -> Seq<int> {
    order.map_values(|k: usize| k as int)
}

/// A ranking leaves no position out.
pub proof fn lemma_ranking_covers(order: Seq<int>, len: nat, le: spec_fn(int, int) -> bool, k: int)
    requires
        is_ranking(order, len, le),
        0 <= k < len,
    ensures
        order.contains(k),
{
    let range = vstd::set_lib::set_int_range(0, len as int);
    vstd::set_lib::lemma_int_range(0, len as int);
    assert(order.no_duplicates());
    order.unique_seq_to_set();
    assert(order.to_set().subset_of(range)) by {
        assert forall|x: int| order.to_set().contains(x) implies range.contains(x) by {
            let i = choose|i: int| 0 <= i < order.len() && order[i] == x;
            assert(0 <= order[i] < len);
        }
    }
    vstd::set_lib::lemma_subset_equality(order.to_set(), range);
    assert(order.to_set().contains(k));
}

/// There is only one ranking.
pub proof fn lemma_ranking_unique(
    a: Seq<int>,
    b: Seq<int>,
    len: nat,
    le: spec_fn(int, int) -> bool,
)
    requires
        is_ranking(a, len, le),
        is_ranking(b, len, le),
    ensures
        a == b,
{
    lemma_ranking_unique_to(a, b, len, le, len as int);
    assert(a =~= b);
}

proof fn lemma_ranking_unique_to(
    a: Seq<int>,
    b: Seq<int>,
    len: nat,
    le: spec_fn(int, int) -> bool,
    to: int,
)
    requires
        is_ranking(a, len, le),
        is_ranking(b, len, le),
        0 <= to <= len,
    ensures
        forall|i: int| 0 <= i < to ==> a[i] == b[i],
    decreases to,
{
    if to > 0 {
        lemma_ranking_unique_to(a, b, len, le, to - 1);
        let x = a[to - 1];
        let y = b[to - 1];
        if x != y {
            lemma_ranking_covers(b, len, le, x);
            let i = choose|i: int| 0 <= i < b.len() && b[i] == x;
            lemma_ranking_covers(a, len, le, y);
            let j = choose|j: int| 0 <= j < a.len() && a[j] == y;
            if i < to - 1 {
                assert(a[i] == b[i]);
            }
            if j < to - 1 {
                assert(a[j] == b[j]);
            }
            assert(sorts_before(le, b[to - 1], b[i]));
            assert(sorts_before(le, a[to - 1], a[j]));
        }
    }
}

/// There is a ranking.
pub proof fn lemma_ranking_exists(len: nat, le: spec_fn(int, int) -> bool)
    requires
        total_preorder(le, len),
    ensures
        exists|order: Seq<int>| is_ranking(order, len, le),
    decreases len,
{
    if len == 0 {
        assert(is_ranking(Seq::empty(), len, le));
    } else {
        let last = len - 1;
        let fewer = last as nat;
        lemma_ranking_exists(fewer, le);
        let before = choose|order: Seq<int>| is_ranking(order, fewer, le);
        let at = lemma_insertion_from(before, fewer, le, last, last);
        let now = before.insert(at, last);
        assert forall|i: int| 0 <= i < len implies 0 <= #[trigger] now[i] < len by {
            if i < at {
                assert(now[i] == before[i]);
            } else if i > at {
                assert(now[i] == before[i - 1]);
            }
        }
        assert forall|i: int, j: int|
            #![trigger now[i], now[j]]
            0 <= i < j < len implies now[i] != now[j] && sorts_before(le, now[i], now[j]) by {
            let p = if i < at {
                i
            } else {
                i - 1
            };
            let q = if j < at {
                j
            } else {
                j - 1
            };
            if i != at {
                assert(now[i] == before[p]);
            }
            if j != at {
                assert(now[j] == before[q]);
            }
            if j == at {
                assert(le(before[i], last));
            } else if i == at {
                assert(!le(before[q], last));
                assert(le(before[q], last) || le(last, before[q]));
            }
        }
        assert(is_ranking(now, len, le));
    }
}

/// Where the position `k`, after all in `before`, is put among them.
proof fn lemma_insertion_from(
    before: Seq<int>,
    len: nat,
    le: spec_fn(int, int) -> bool,
    k: int,
    from: int,
) -> (at: int)
    requires
        is_ranking(before, len, le),
        k == len,
        total_preorder(le, len + 1),
        0 <= from <= len,
        forall|i: int| from <= i < len ==> !le(#[trigger] before[i], k),
    ensures
        0 <= at <= len,
        forall|i: int| 0 <= i < at ==> le(#[trigger] before[i], k),
        forall|i: int| at <= i < len ==> !le(#[trigger] before[i], k),
    decreases from,
{
    if from > 0 && !le(before[from - 1], k) {
        lemma_insertion_from(before, len, le, k, from - 1)
    } else {
        assert forall|i: int| 0 <= i < from implies le(#[trigger] before[i], k) by {
            if i < from - 1 {
                assert(sorts_before(le, before[i], before[from - 1]));
                assert(le(before[i], before[from - 1]));
                assert(le(before[from - 1], k));
            }
        }
        from
    }
}

/// The items at the places in `order`.
pub open spec fn arranged<T>(items: Seq<T>, order: Seq<int>) -> Seq<T> {
    Seq::new(order.len(), |k: int| items[order[k]])
}

/// `order` holds the first `len` places, each once.
pub open spec fn is_permutation(order: Seq<int>, len: nat) -> bool {
    &&& order.len() == len
    &&& order.no_duplicates()
    &&& forall|i: int| 0 <= i < len ==> 0 <= #[trigger] order[i] < len
}

proof fn lemma_permutation_covers(order: Seq<int>, len: nat, k: int)
    requires
        is_permutation(order, len),
        0 <= k < len,
    ensures
        order.contains(k),
{
    let range = vstd::set_lib::set_int_range(0, len as int);
    vstd::set_lib::lemma_int_range(0, len as int);
    order.unique_seq_to_set();
    assert forall|x: int| order.to_set().contains(x) implies range.contains(x) by {
        let i = choose|i: int| 0 <= i < order.len() && order[i] == x;
        assert(0 <= order[i] < len);
    }
    vstd::set_lib::lemma_subset_equality(order.to_set(), range);
    assert(order.to_set().contains(k));
}

/// Putting items in another order neither adds nor loses any.
pub proof fn lemma_permuted_multiset<T>(items: Seq<T>, order: Seq<int>)
    requires
        is_permutation(order, items.len()),
    ensures
        arranged(items, order).to_multiset() == items.to_multiset(),
    decreases items.len(),
{
    let placed = arranged(items, order);
    if items.len() == 0 {
        assert(placed =~= items);
    } else {
        let last = items.len() - 1;
        lemma_permutation_covers(order, items.len(), last);
        let at = choose|i: int| 0 <= i < order.len() && order[i] == last;
        let fewer = order.remove(at);
        let rest = items.drop_last();
        assert forall|i: int| 0 <= i < fewer.len() implies 0 <= #[trigger] fewer[i] < last by {
            let p = if i < at {
                i
            } else {
                i + 1
            };
            assert(fewer[i] == order[p]);
            assert(order[p] != order[at]);
        }
        assert forall|i: int, j: int|
            0 <= i < fewer.len() && 0 <= j < fewer.len() && i != j implies fewer[i]
            != fewer[j] by {
            let p = if i < at {
                i
            } else {
                i + 1
            };
            let q = if j < at {
                j
            } else {
                j + 1
            };
            assert(fewer[i] == order[p]);
            assert(fewer[j] == order[q]);
        }
        lemma_permuted_multiset(rest, fewer);
        assert(arranged(rest, fewer) =~= placed.remove(at)) by {
            assert forall|i: int| 0 <= i < fewer.len() implies #[trigger] arranged(
                rest,
                fewer,
            )[i] == placed.remove(at)[i] by {
                let p = if i < at {
                    i
                } else {
                    i + 1
                };
                assert(fewer[i] == order[p]);
                assert(0 <= fewer[i] < last);
            }
        }
        vstd::seq_lib::to_multiset_remove(placed, at);
        assert(items =~= rest.push(items[last]));
        vstd::seq_lib::to_multiset_build(rest, items[last]);
        assert(placed[at] == items[last]);
        placed.to_multiset_ensures();
        assert(placed.contains(placed[at]));
        assert(placed.to_multiset().count(placed[at]) > 0);
        assert(placed.to_multiset() =~= placed.to_multiset().remove(placed[at]).insert(
            placed[at],
        ));
    }
}

/// A ranking holds every place once.
pub proof fn lemma_ranking_permutes(order: Seq<int>, len: nat, le: spec_fn(int, int) -> bool)
    requires
        is_ranking(order, len, le),
    ensures
        is_permutation(order, len),
{
    assert forall|i: int, j: int|
        0 <= i < order.len() && 0 <= j < order.len() && i != j implies order[i] != order[j] by {
        if i < j {
            assert(order[i] != order[j]);
        } else {
            assert(order[j] != order[i]);
        }
    }
}

/// The first `len` positions, stably sorted by `not_after`, which computes `le`.
pub(crate) fn rank<F: Fn(usize, usize) -> bool>(
    len: usize,
    not_after: F,
    Ghost(le): Ghost<spec_fn(int, int) -> bool>,
) -> (order: Vec<usize>)
    requires
        total_preorder(le, len as nat),
        forall|a: usize, b: usize| a < len && b < len ==> call_requires(not_after, (a, b)),
        forall|a: usize, b: usize, answer: bool|
            a < len && b < len && call_ensures(not_after, (a, b), answer) ==> answer == le(
                a as int,
                b as int,
            ),
    ensures
        is_ranking(positions(order@), len as nat, le),
{
    let mut order: Vec<usize> = Vec::new();
    let mut k: usize = 0;
    while k < len
        invariant
            k <= len,
            total_preorder(le, len as nat),
            forall|a: usize, b: usize| a < len && b < len ==> call_requires(not_after, (a, b)),
            forall|a: usize, b: usize, answer: bool|
                a < len && b < len && call_ensures(not_after, (a, b), answer) ==> answer == le(
                    a as int,
                    b as int,
                ),
            is_ranking(positions(order@), k as nat, le),
        decreases len - k,
    {
        let ghost sorted = positions(order@);
        let mut at: usize = order.len();
        assert forall|i: int| 0 <= i < k implies 0 <= #[trigger] order@[i] < k by {
            assert(sorted[i] == order@[i] as int);
        }
        while at > 0 && !not_after(order[at - 1], k)
            invariant
                at <= order@.len(),
                order@.len() == k,
                k < len,
                total_preorder(le, len as nat),
                forall|a: usize, b: usize| a < len && b < len ==> call_requires(not_after, (a, b)),
                forall|a: usize, b: usize, answer: bool|
                    a < len && b < len && call_ensures(not_after, (a, b), answer) ==> answer == le(
                        a as int,
                        b as int,
                    ),
                sorted == positions(order@),
                is_ranking(sorted, k as nat, le),
                forall|i: int| at <= i < k ==> !le(#[trigger] sorted[i], k as int),
                forall|i: int| 0 <= i < k ==> 0 <= #[trigger] order@[i] < k,
            decreases at,
        {
            assert(sorted[at - 1] == order@[at - 1] as int);
            at -= 1;
        }
        assert(at > 0 ==> le(sorted[at - 1], k as int)) by {
            if at > 0 {
                assert(sorted[at - 1] == order@[at - 1] as int);
            }
        }
        order.insert(at, k);
        proof {
            let now = positions(order@);
            assert(now =~= sorted.insert(at as int, k as int));
            assert(le(k as int, k as int));
            assert forall|i: int, j: int|
                #![trigger now[i], now[j]]
                0 <= i < j < k + 1 implies now[i] != now[j] && sorts_before(le, now[i], now[j]) by {
                let p = if i < at {
                    i
                } else {
                    i - 1
                };
                let q = if j < at {
                    j
                } else {
                    j - 1
                };
                if i != at && j != at {
                    assert(now[i] == sorted[p]);
                    assert(now[j] == sorted[q]);
                } else if j == at {
                    assert(now[i] == sorted[i]);
                    if i < at - 1 {
                        assert(sorts_before(le, sorted[i], sorted[at - 1]));
                    }
                    assert(le(sorted[i], k as int));
                } else {
                    assert(now[j] == sorted[q]);
                    assert(!le(sorted[q], k as int));
                    assert(le(sorted[q], k as int) || le(k as int, sorted[q]));
                }
            }
            assert forall|i: int| 0 <= i < k + 1 implies 0 <= #[trigger] now[i] < k + 1 by {
                if i < at {
                    assert(now[i] == sorted[i]);
                } else if i > at {
                    assert(now[i] == sorted[i - 1]);
                }
            }
        }
        k += 1;
    }
    order
}

} // verus!
