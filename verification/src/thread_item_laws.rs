//! What holds of every list of threads.

use crate::forest::{has_top, ends_at, climb};
use crate::preorder::{
    at_depth, depth_below, lemma_listing, lemma_listing_append, lemma_listing_depth,
    lemma_listing_reaches, lemma_siblings_in_order, listed_nodes, listing, lists, lists_once,
    precedes,
};
use crate::ranking::{
    arranged, is_permutation, is_ranking, lemma_permuted_multiset, lemma_ranking_exists,
    lemma_ranking_permutes, sorts_before, total_preorder,
};
use crate::record_order::nanos_or_first;
use crate::review_comment::{CommentKeyView, StoredReviewComment};
use crate::thread_items::{
    arranged_comments, by_time, entry_items, lemma_comment_order, lemma_thread_links_ok, listed_items,
    places_below, ranked_comments, referred, reply_parent, roots_below, thread_items, thread_links,
    thread_listing, thread_starts, time_order, told_order, ThreadItemView, MAX_THREAD_DEPTH,
};
use vstd::prelude::*;

verus! {

/// The comments that are shown, in the order in which they are.
pub open spec fn shown_comments(items: Seq<ThreadItemView>) -> Seq<StoredReviewComment>
    decreases items.len(),
{
    if items.len() == 0 {
        Seq::empty()
    } else {
        let before = shown_comments(items.drop_last());
        match items.last() {
            ThreadItemView::Comment { comment, .. } => before.push(comment),
            ThreadItemView::Composer { .. } => before,
        }
    }
}

/// How many replies are being written.
pub open spec fn composer_count(items: Seq<ThreadItemView>) -> nat
    decreases items.len(),
{
    if items.len() == 0 {
        0
    } else {
        let before = composer_count(items.drop_last());
        match items.last() {
            ThreadItemView::Comment { .. } => before,
            ThreadItemView::Composer { .. } => before + 1,
        }
    }
}

proof fn lemma_shown_append(a: Seq<ThreadItemView>, b: Seq<ThreadItemView>)
    ensures
        shown_comments(a + b) == shown_comments(a) + shown_comments(b),
        composer_count(a + b) == composer_count(a) + composer_count(b),
    decreases b.len(),
{
    if b.len() == 0 {
        assert(a + b =~= a);
        assert(shown_comments(a) + shown_comments(b) =~= shown_comments(a));
    } else {
        lemma_shown_append(a, b.drop_last());
        assert((a + b).drop_last() =~= a + b.drop_last());
        assert((a + b).last() == b.last());
        assert(shown_comments(a + b) =~= shown_comments(a) + shown_comments(b));
    }
}

proof fn lemma_entry_items(
    ranked: Seq<StoredReviewComment>,
    pending: Option<int>,
    entry: (int, nat),
)
    ensures
        shown_comments(entry_items(ranked, pending, entry)) == seq![ranked[entry.0]],
        composer_count(entry_items(ranked, pending, entry)) == if pending == Some(entry.0) {
            1nat
        } else {
            0nat
        },
{
    reveal_with_fuel(shown_comments, 3);
    reveal_with_fuel(composer_count, 3);
    let items = entry_items(ranked, pending, entry);
    if pending == Some(entry.0) {
        assert(items.drop_last() =~= seq![items[0]]);
        assert(items.drop_last().drop_last() =~= Seq::empty());
    } else {
        assert(items.drop_last() =~= Seq::empty());
    }
    assert(shown_comments(items) =~= seq![ranked[entry.0]]);
}

proof fn lemma_listed_items(
    ranked: Seq<StoredReviewComment>,
    pending: Option<int>,
    entries: Seq<(int, nat)>,
)
    requires
        lists_once(entries),
    ensures
        shown_comments(listed_items(ranked, pending, entries)) == arranged_comments(
            ranked,
            entries.map_values(|entry: (int, nat)| entry.0),
        ),
        composer_count(listed_items(ranked, pending, entries)) == match pending {
            Some(place) => if lists(entries, place) {
                1nat
            } else {
                0nat
            },
            None => 0nat,
        },
    decreases entries.len(),
{
    let nodes = entries.map_values(|entry: (int, nat)| entry.0);
    if entries.len() == 0 {
        assert(arranged_comments(ranked, nodes) =~= Seq::empty());
    } else {
        let rest = entries.drop_last();
        let last = entries.last();
        assert forall|i: int, j: int| 0 <= i < j < rest.len() implies (#[trigger] rest[i]).0
            != (#[trigger] rest[j]).0 by {
            assert(rest[i] == entries[i]);
            assert(rest[j] == entries[j]);
        }
        lemma_listed_items(ranked, pending, rest);
        lemma_entry_items(ranked, pending, last);
        lemma_shown_append(
            listed_items(ranked, pending, rest),
            entry_items(ranked, pending, last),
        );
        assert(shown_comments(listed_items(ranked, pending, entries)) =~= arranged_comments(
            ranked,
            nodes,
        ));
        if let Some(place) = pending {
            if lists(rest, place) {
                let i = choose|i: int| 0 <= i < rest.len() && (#[trigger] rest[i]).0 == place;
                assert(entries[i].0 == place);
                assert(entries[entries.len() - 1].0 != place);
            }
            if lists(entries, place) {
                let i = choose|i: int| 0 <= i < entries.len() && (#[trigger] entries[i]).0 == place;
                if i < rest.len() {
                    assert(rest[i].0 == place);
                }
            }
            if last.0 == place {
                assert(entries[entries.len() - 1].0 == place);
            }
        }
    }
}

proof fn lemma_ranked(comments: Seq<StoredReviewComment>)
    ensures
        ranked_comments(comments).len() == comments.len(),
        ranked_comments(comments).to_multiset() == comments.to_multiset(),
{
    let le = told_order(comments);
    let len = comments.len();
    assert forall|a: int, b: int|
        #![trigger le(a, b)]
        0 <= a < len && 0 <= b < len implies le(a, b) || le(b, a) by {
        lemma_comment_order(comments[a], comments[b], comments[b]);
    }
    assert forall|a: int, b: int, c: int|
        #![trigger le(a, b), le(b, c)]
        0 <= a < len && 0 <= b < len && 0 <= c < len && le(a, b) && le(b, c) implies le(a, c) by {
        lemma_comment_order(comments[a], comments[b], comments[c]);
    }
    lemma_ranking_exists(len, le);
    let order = choose|order: Seq<int>| is_ranking(order, len, le);
    assert(is_ranking(order, len, le));
    lemma_ranking_permutes(order, len, le);
    lemma_permuted_multiset(comments, order);
    assert(arranged_comments(comments, order) =~= arranged(comments, order));
}

proof fn lemma_starts_list_all(ranked: Seq<StoredReviewComment>, k: int)
    requires
        0 <= k < ranked.len(),
    ensures
        lists(thread_starts(ranked), k),
        lists(thread_listing(ranked), k),
{
    let starts = thread_starts(ranked);
    let roots = roots_below(thread_links(ranked), ranked.len() as int);
    assert(starts[roots.len() + k].0 == k);
    lemma_thread_links_ok(ranked);
    lemma_listing(thread_links(ranked), MAX_THREAD_DEPTH as nat, starts, Set::empty());
    assert(lists(starts, k));
}

proof fn lemma_listing_permutes(ranked: Seq<StoredReviewComment>)
    ensures
        lists_once(thread_listing(ranked)),
        is_permutation(
            thread_listing(ranked).map_values(|entry: (int, nat)| entry.0),
            ranked.len(),
        ),
{
    let entries = thread_listing(ranked);
    let nodes = entries.map_values(|entry: (int, nat)| entry.0);
    lemma_thread_links_ok(ranked);
    lemma_listing(
        thread_links(ranked),
        MAX_THREAD_DEPTH as nat,
        thread_starts(ranked),
        Set::empty(),
    );
    assert forall|i: int| 0 <= i < nodes.len() implies 0 <= #[trigger] nodes[i] < ranked.len() by {
        assert(entries[i].0 == nodes[i]);
        assert(lists(entries, nodes[i]));
    }
    assert forall|i: int, j: int|
        0 <= i < nodes.len() && 0 <= j < nodes.len() && i != j implies nodes[i] != nodes[j] by {
        assert(entries[i].0 == nodes[i]);
        assert(entries[j].0 == nodes[j]);
    }
    assert(nodes.no_duplicates());
    nodes.unique_seq_to_set();
    let range = vstd::set_lib::set_int_range(0, ranked.len() as int);
    vstd::set_lib::lemma_int_range(0, ranked.len() as int);
    assert(nodes.to_set() =~= range) by {
        assert forall|x: int| nodes.to_set().contains(x) == range.contains(x) by {
            if nodes.to_set().contains(x) {
                let i = choose|i: int| 0 <= i < nodes.len() && nodes[i] == x;
                assert(0 <= nodes[i] < ranked.len());
            }
            if range.contains(x) {
                lemma_starts_list_all(ranked, x);
                let i = choose|i: int| 0 <= i < entries.len() && (#[trigger] entries[i]).0 == x;
                assert(nodes[i] == x);
                assert(nodes.contains(x));
            }
        }
    }
}

/// Every comment is shown, each as many times as it was handed in, and no other is.
pub proof fn every_comment_is_shown_once(
    comments: Seq<StoredReviewComment>,
    reference: Option<CommentKeyView>,
)
    ensures
        shown_comments(thread_items(comments, reference)).to_multiset() == comments.to_multiset(),
{
    let ranked = ranked_comments(comments);
    let pending = referred(ranked, reference);
    let entries = thread_listing(ranked);
    let shown = listed_items(ranked, pending, entries);
    let nodes = entries.map_values(|entry: (int, nat)| entry.0);
    lemma_ranked(comments);
    lemma_listing_permutes(ranked);
    lemma_listed_items(ranked, pending, entries);
    lemma_permuted_multiset(ranked, nodes);
    assert(arranged_comments(ranked, nodes) =~= arranged(ranked, nodes));
    let items = thread_items(comments, reference);
    if reference is Some && pending is None {
        assert(items.drop_last() =~= shown);
    }
}

/// A reply that is being written is shown once, and only where one is being written.
pub proof fn reply_in_writing_is_shown_once(
    comments: Seq<StoredReviewComment>,
    reference: Option<CommentKeyView>,
)
    ensures
        composer_count(thread_items(comments, reference)) == if reference is Some {
            1nat
        } else {
            0nat
        },
{
    let ranked = ranked_comments(comments);
    let pending = referred(ranked, reference);
    let entries = thread_listing(ranked);
    let shown = listed_items(ranked, pending, entries);
    lemma_listing_permutes(ranked);
    lemma_listed_items(ranked, pending, entries);
    let items = thread_items(comments, reference);
    if reference is Some && pending is None {
        assert(items.drop_last() =~= shown);
    }
    if let Some(place) = pending {
        let key = reference->0;
        assert(exists|at: int| crate::review_comment::is_only_at(ranked, key, at));
        assert(0 <= place < ranked.len());
        lemma_starts_list_all(ranked, place);
    }
}

proof fn lemma_roots_below(links: Seq<Option<int>>, to: int, k: int)
    requires
        0 <= to <= links.len(),
    ensures
        roots_below(links, to).contains(k) == (0 <= k < to && links[k] is None),
    decreases to,
{
    if to > 0 {
        lemma_roots_below(links, to - 1, k);
        let before = roots_below(links, to - 1);
        let now = roots_below(links, to);
        if links[to - 1] is None {
            assert(now[now.len() - 1] == to - 1);
            if before.contains(k) {
                let i = choose|i: int| 0 <= i < before.len() && before[i] == k;
                assert(now[i] == k);
            }
            if now.contains(k) && k != to - 1 {
                let i = choose|i: int| 0 <= i < now.len() && now[i] == k;
                assert(before[i] == k);
            }
        }
    }
}

/// Below a root, a reply is shown after the comment it replies to, one step deeper until the
/// depth no longer grows; a root itself is not indented.
pub proof fn reply_follows_its_parent(ranked: Seq<StoredReviewComment>, i: int)
    requires
        0 <= i < thread_listing(ranked).len(),
        has_top(thread_links(ranked), thread_listing(ranked)[i].0),
    ensures
        ({
            let entries = thread_listing(ranked);
            match reply_parent(ranked, entries[i].0) {
                Some(parent) => exists|j: int|
                    0 <= j < i && (#[trigger] entries[j]).0 == parent && entries[i].1
                        == depth_below(entries[j].1, MAX_THREAD_DEPTH as nat),
                None => entries[i].1 == 0,
            }
        }),
{
    let links = thread_links(ranked);
    let limit = MAX_THREAD_DEPTH as nat;
    let entries = thread_listing(ranked);
    let roots = roots_below(links, ranked.len() as int);
    let first = at_depth(roots, 0);
    let second = at_depth(places_below(ranked.len() as int), 0);
    lemma_thread_links_ok(ranked);
    assert(thread_starts(ranked) =~= first + second);
    lemma_listing_append(links, limit, first, second, Set::empty());
    let upper = listing(links, limit, first, Set::empty());
    let marked = Set::<int>::empty().union(listed_nodes(upper));
    let lower = listing(links, limit, second, marked);
    let node = entries[i].0;
    lemma_listing(links, limit, thread_starts(ranked), Set::empty());
    assert(lists(entries, node));
    assert forall|k: int| #[trigger] lists(first, k) implies 0 <= k < links.len() && links[k] is None
        && roots.contains(k) by {
        let r = choose|r: int| 0 <= r < first.len() && (#[trigger] first[r]).0 == k;
        assert(roots[r] == k);
        lemma_roots_below(links, links.len() as int, k);
    }
    // What has a root is listed below it, before the rest.
    let top = choose|top: int| ends_at(links, node, top);
    assert(ends_at(links, node, top));
    let n = choose|n: nat| #[trigger] climb(links, node, n) == Some(top);
    crate::forest::lemma_climb_in_range(links, node, n);
    lemma_roots_below(links, links.len() as int, top);
    let r = choose|r: int| 0 <= r < roots.len() && roots[r] == top;
    assert(first[r].0 == top);
    assert(lists(first, top));
    lemma_listing_reaches(links, limit, first, node);
    assert(lists(upper, node));
    let u = choose|u: int| 0 <= u < upper.len() && (#[trigger] upper[u]).0 == node;
    assert(entries[u] == upper[u]);
    if u != i {
        if u < i {
            assert(entries[u].0 != entries[i].0);
        } else {
            assert(entries[i].0 != entries[u].0);
        }
    }
    lemma_listing_depth(links, limit, first, Set::empty(), i);
    if first.contains(upper[i]) {
        let s = choose|s: int| 0 <= s < first.len() && first[s] == upper[i];
        assert(lists(first, node));
        assert(links[node] is None);
    } else {
        let j = choose|j: int|
            0 <= j < i && links[upper[i].0] == Some((#[trigger] upper[j]).0) && upper[i].1
                == depth_below(upper[j].1, limit);
        assert(entries[j] == upper[j]);
    }
    if links[node] is None && !first.contains(upper[i]) {
        assert(false);
    }
}

/// Below a root, replies to the same comment are shown in the order in which they are told.
pub proof fn siblings_are_shown_in_order(
    ranked: Seq<StoredReviewComment>,
    parent: int,
    x: int,
    y: int,
)
    requires
        0 <= x < y < ranked.len(),
        reply_parent(ranked, x) == Some(parent),
        reply_parent(ranked, y) == Some(parent),
        has_top(thread_links(ranked), parent),
    ensures
        precedes(thread_listing(ranked), x, y),
{
    let links = thread_links(ranked);
    let limit = MAX_THREAD_DEPTH as nat;
    let entries = thread_listing(ranked);
    let roots = roots_below(links, ranked.len() as int);
    let first = at_depth(roots, 0);
    let second = at_depth(places_below(ranked.len() as int), 0);
    lemma_thread_links_ok(ranked);
    assert(thread_starts(ranked) =~= first + second);
    lemma_listing_append(links, limit, first, second, Set::empty());
    let upper = listing(links, limit, first, Set::empty());
    assert forall|k: int| #[trigger] lists(first, k) implies 0 <= k < links.len() && links[k] is None by {
        let r = choose|r: int| 0 <= r < first.len() && (#[trigger] first[r]).0 == k;
        assert(roots[r] == k);
        assert(roots.contains(k));
        lemma_roots_below(links, links.len() as int, k);
    }
    assert(links[x] == Some(parent));
    assert(links[y] == Some(parent));
    let top = choose|top: int| ends_at(links, parent, top);
    assert(ends_at(links, parent, top));
    let n = choose|n: nat| #[trigger] climb(links, parent, n) == Some(top);
    crate::forest::lemma_climb_in_range(links, parent, n);
    lemma_roots_below(links, links.len() as int, top);
    let r = choose|r: int| 0 <= r < roots.len() && roots[r] == top;
    assert(first[r].0 == top);
    assert(lists(first, top));
    lemma_listing_reaches(links, limit, first, parent);
    lemma_siblings_in_order(links, limit, first, parent, x, y);
    let (i, j) = choose|i: int, j: int|
        0 <= i < j < upper.len() && (#[trigger] upper[i]).0 == x && (#[trigger] upper[j]).0 == y;
    assert(entries[i] == upper[i]);
    assert(entries[j] == upper[j]);
}

/// The comments of a hunk come in the order of their times: none is left out or added, an earlier
/// one comes before a later one, and those of one time keep the order in which they were stored.
pub proof fn comments_come_in_order_of_time(comments: Seq<StoredReviewComment>)
    ensures
        by_time(comments).to_multiset() == comments.to_multiset(),
        forall|i: int, j: int|
            #![trigger by_time(comments)[i], by_time(comments)[j]]
            0 <= i < j < by_time(comments).len() ==> nanos_or_first(
                by_time(comments)[i].created_at@,
            ) <= nanos_or_first(by_time(comments)[j].created_at@),
        exists|order: Seq<int>| #[trigger]
            is_ranking(order, comments.len(), time_order(comments)) && by_time(comments)
                == arranged_comments(comments, order),
{
    let le = time_order(comments);
    assert(total_preorder(le, comments.len()));
    lemma_ranking_exists(comments.len(), le);
    let order = choose|order: Seq<int>| is_ranking(order, comments.len(), le);
    lemma_ranking_permutes(order, comments.len(), le);
    lemma_permuted_multiset(comments, order);
    assert(by_time(comments) =~= arranged(comments, order));
    assert forall|i: int, j: int|
        #![trigger by_time(comments)[i], by_time(comments)[j]]
        0 <= i < j < by_time(comments).len() implies nanos_or_first(
        by_time(comments)[i].created_at@,
    ) <= nanos_or_first(by_time(comments)[j].created_at@) by {
        assert(sorts_before(le, order[i], order[j]));
    }
}

} // verus!
