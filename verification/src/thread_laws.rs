//! What holds of the threads that comment records form.

use crate::comment::StackReviewCommentRecord;
use crate::forest::{
    climb, cycle_member, ends_at, has_top, lemma_climb_in_range, lemma_no_top_has_cycle,
    lemma_parent_shares_end, reaches, top_of,
};
use crate::preorder::{
    depth_below, lemma_listing, lemma_listing_depth, lemma_listing_reaches, lemma_siblings_in_order,
    listing, lists,
};
use crate::record_order::{
    distinct_ids, is_ranked, lemma_ranked_exists, lemma_ranked_unique, ranked_records,
    record_precedes,
};
use crate::text::{lemma_text_le_reflexive, lemma_text_le_total, lemma_text_le_transitive, text_le};
use crate::thread_index::{
    as_roots, canonical_member, comment_threads, has_record, is_canonical_member, is_placement,
    key_for, lemma_canonical_unique, lemma_reply_links_ok, record_keys, reply_link, reply_links,
    thread_key_of, thread_members, thread_roots, thread_roots_below, threads_below, ThreadView,
};
use crate::thread_key::ThreadKeyView;
use vstd::prelude::*;

verus! {

type Records = Seq<StackReviewCommentRecord>;

proof fn lemma_least_exists(records: Records, among: spec_fn(int) -> bool, to: int) -> (least: int)
    requires
        exists|k: int| 0 <= k < to && #[trigger] among(k),
    ensures
        0 <= least < to,
        among(least),
        forall|k: int|
            0 <= k < to && #[trigger] among(k) ==> text_le(records[least].id@, records[k].id@),
    decreases to,
{
    let last = to - 1;
    lemma_text_le_reflexive(records[last].id@);
    if exists|k: int| 0 <= k < last && #[trigger] among(k) {
        let least = lemma_least_exists(records, among, last);
        lemma_text_le_total(records[least].id@, records[last].id@);
        if among(last) && text_le(records[last].id@, records[least].id@) {
            assert forall|k: int| 0 <= k < to && #[trigger] among(k) implies text_le(
                records[last].id@,
                records[k].id@,
            ) by {
                if k < last {
                    lemma_text_le_transitive(
                        records[last].id@,
                        records[least].id@,
                        records[k].id@,
                    );
                }
            }
            last
        } else {
            least
        }
    } else {
        let k = choose|k: int| 0 <= k < to && #[trigger] among(k);
        assert(k == last);
        last
    }
}

proof fn lemma_cycle_in_range(storage_key: Seq<char>, records: Records, k: int, member: int)
    requires
        0 <= k < records.len(),
        reaches(reply_links(storage_key, records), k, member),
    ensures
        0 <= member < records.len(),
{
    let links = reply_links(storage_key, records);
    lemma_reply_links_ok(storage_key, records);
    let n = choose|n: nat| #[trigger] climb(links, k, n) == Some(member);
    lemma_climb_in_range(links, k, n);
}

/// A circle of replies has a record that names it.
proof fn lemma_canonical_exists(storage_key: Seq<char>, records: Records, k: int)
    requires
        0 <= k < records.len(),
        !has_top(reply_links(storage_key, records), k),
    ensures
        is_canonical_member(
            storage_key,
            records,
            k,
            canonical_member(storage_key, records, k),
        ),
        0 <= canonical_member(storage_key, records, k) < records.len(),
{
    let links = reply_links(storage_key, records);
    lemma_reply_links_ok(storage_key, records);
    lemma_no_top_has_cycle(links, k);
    let among = |member: int| cycle_member(links, k, member);
    let some = choose|member: int| cycle_member(links, k, member);
    lemma_cycle_in_range(storage_key, records, k, some);
    assert(among(some));
    let least = lemma_least_exists(records, among, records.len() as int);
    assert forall|other: int| #[trigger] cycle_member(links, k, other) implies text_le(
        records[least].id@,
        records[other].id@,
    ) by {
        lemma_cycle_in_range(storage_key, records, k, other);
        assert(among(other));
    }
    assert(is_canonical_member(storage_key, records, k, least));
    lemma_cycle_in_range(
        storage_key,
        records,
        k,
        canonical_member(storage_key, records, k),
    );
}

/// A reply within a partition belongs to the thread of what it replies to.
pub proof fn reply_shares_thread(storage_key: Seq<char>, records: Records, k: int, parent: int)
    requires
        distinct_ids(records),
        0 <= k < records.len(),
        reply_link(storage_key, records, k) == Some(parent),
    ensures
        thread_key_of(storage_key, records, k) == thread_key_of(storage_key, records, parent),
{
    let links = reply_links(storage_key, records);
    lemma_reply_links_ok(storage_key, records);
    assert(links[k] == Some(parent));
    lemma_parent_shares_end(links, k, parent);
    if !has_top(links, k) {
        lemma_canonical_exists(storage_key, records, k);
        let member = canonical_member(storage_key, records, k);
        assert(is_canonical_member(storage_key, records, parent, member));
        lemma_canonical_unique(storage_key, records, parent, member);
    }
}

/// Whatever following replies from a record comes by belongs to its thread.
pub proof fn ancestors_share_thread(storage_key: Seq<char>, records: Records, k: int, to: int)
    requires
        distinct_ids(records),
        0 <= k < records.len(),
        reaches(reply_links(storage_key, records), k, to),
    ensures
        0 <= to < records.len(),
        thread_key_of(storage_key, records, k) == thread_key_of(storage_key, records, to),
{
    let links = reply_links(storage_key, records);
    let n = choose|n: nat| #[trigger] climb(links, k, n) == Some(to);
    lemma_ancestors_share(storage_key, records, k, to, n);
}

proof fn lemma_ancestors_share(
    storage_key: Seq<char>,
    records: Records,
    k: int,
    to: int,
    n: nat,
)
    requires
        distinct_ids(records),
        0 <= k < records.len(),
        climb(reply_links(storage_key, records), k, n) == Some(to),
    ensures
        0 <= to < records.len(),
        thread_key_of(storage_key, records, k) == thread_key_of(storage_key, records, to),
    decreases n,
{
    let links = reply_links(storage_key, records);
    lemma_reply_links_ok(storage_key, records);
    lemma_climb_in_range(links, k, n);
    if n > 0 {
        let below = climb(links, k, (n - 1) as nat)->0;
        lemma_ancestors_share(storage_key, records, k, below, (n - 1) as nat);
        reply_shares_thread(storage_key, records, below, to);
    }
}

/// Whether record `k` begins the listing of the thread `key`.
spec fn begins(storage_key: Seq<char>, records: Records, key: ThreadKeyView, k: int) -> bool {
    thread_key_of(storage_key, records, k) == key && (if key.kind is Cycle {
        records[k].id@ == key.id
    } else {
        reply_link(storage_key, records, k) is None
    })
}

proof fn lemma_thread_roots(
    storage_key: Seq<char>,
    records: Records,
    key: ThreadKeyView,
    to: int,
    k: int,
)
    requires
        0 <= to,
    ensures
        thread_roots_below(storage_key, records, key, to).contains(k) == (0 <= k < to && begins(
            storage_key,
            records,
            key,
            k,
        )),
    decreases to,
{
    if to > 0 {
        lemma_thread_roots(storage_key, records, key, to - 1, k);
        let before = thread_roots_below(storage_key, records, key, to - 1);
        if begins(storage_key, records, key, to - 1) {
            let now = before.push(to - 1);
            if before.contains(k) {
                let i = choose|i: int| 0 <= i < before.len() && before[i] == k;
                assert(now[i] == k);
            }
            if k == to - 1 {
                assert(now[before.len() as int] == k);
            }
            if now.contains(k) {
                let i = choose|i: int| 0 <= i < now.len() && now[i] == k;
                if i < before.len() {
                    assert(before[i] == k);
                }
            }
        }
    }
}

proof fn lemma_roots_listed(nodes: Seq<int>, node: int)
    ensures
        lists(as_roots(nodes), node) == nodes.contains(node),
{
    let entries = as_roots(nodes);
    if nodes.contains(node) {
        let i = choose|i: int| 0 <= i < nodes.len() && nodes[i] == node;
        assert(entries[i].0 == node);
    }
    if lists(entries, node) {
        let i = choose|i: int| 0 <= i < entries.len() && (#[trigger] entries[i]).0 == node;
        assert(nodes[i] == node);
    }
}

/// The records listed under a thread are those that belong to it.
proof fn lemma_thread_listing(storage_key: Seq<char>, records: Records, key: ThreadKeyView, k: int)
    requires
        distinct_ids(records),
        0 <= k < records.len(),
    ensures
        lists(
            listing(
                reply_links(storage_key, records),
                0,
                as_roots(thread_roots(storage_key, records, key)),
                Set::empty(),
            ),
            k,
        ) == (thread_key_of(storage_key, records, k) == key),
{
    let links = reply_links(storage_key, records);
    let roots = thread_roots(storage_key, records, key);
    let pending = as_roots(roots);
    lemma_reply_links_ok(storage_key, records);
    assert forall|from: int| #[trigger] lists(pending, from) implies 0 <= from < links.len()
        && begins(storage_key, records, key, from) by {
        lemma_roots_listed(roots, from);
        lemma_thread_roots(storage_key, records, key, records.len() as int, from);
    }
    lemma_listing_reaches(links, 0, pending, k);
    if lists(listing(links, 0, pending, Set::empty()), k) {
        let from = choose|from: int| #[trigger] lists(pending, from) && reaches(links, k, from);
        ancestors_share_thread(storage_key, records, k, from);
    }
    if thread_key_of(storage_key, records, k) == key {
        let from = if has_top(links, k) {
            top_of(links, k)
        } else {
            canonical_member(storage_key, records, k)
        };
        if has_top(links, k) {
            assert(ends_at(links, k, from));
        } else {
            lemma_canonical_exists(storage_key, records, k);
        }
        ancestors_share_thread(storage_key, records, k, from);
        assert(links[from] == reply_link(storage_key, records, from));
        assert(begins(storage_key, records, key, from));
        lemma_thread_roots(storage_key, records, key, records.len() as int, from);
        lemma_roots_listed(roots, from);
        assert(lists(pending, from));
    }
}

/// A thread lists the records that belong to it, all of them, and each once.
pub proof fn thread_lists_its_records(
    storage_key: Seq<char>,
    records: Records,
    key: ThreadKeyView,
)
    requires
        distinct_ids(records),
    ensures
        thread_members(storage_key, records, key).no_duplicates(),
        forall|id: Seq<char>| #[trigger]
            thread_members(storage_key, records, key).contains(id) == (exists|k: int|
                0 <= k < records.len() && (#[trigger] records[k]).id@ == id && thread_key_of(
                    storage_key,
                    records,
                    k,
                ) == key),
{
    let links = reply_links(storage_key, records);
    let pending = as_roots(thread_roots(storage_key, records, key));
    let entries = listing(links, 0, pending, Set::empty());
    let members = thread_members(storage_key, records, key);
    lemma_reply_links_ok(storage_key, records);
    lemma_listing(links, 0, pending, Set::empty());
    assert forall|i: int| 0 <= i < entries.len() implies 0 <= (#[trigger] entries[i]).0
        < records.len() by {
        assert(lists(entries, entries[i].0));
    }
    assert forall|i: int, j: int| 0 <= i < members.len() && 0 <= j < members.len() && i
        != j implies members[i] != members[j] by {
        assert(members[i] == records[entries[i].0].id@);
        assert(members[j] == records[entries[j].0].id@);
        if i < j {
            assert(entries[i].0 != entries[j].0);
        } else {
            assert(entries[j].0 != entries[i].0);
        }
    }
    assert forall|id: Seq<char>| #[trigger] members.contains(id) == (exists|k: int|
        0 <= k < records.len() && (#[trigger] records[k]).id@ == id && thread_key_of(
            storage_key,
            records,
            k,
        ) == key) by {
        if members.contains(id) {
            let i = choose|i: int| 0 <= i < members.len() && members[i] == id;
            let k = entries[i].0;
            assert(lists(entries, k));
            lemma_thread_listing(storage_key, records, key, k);
            assert(records[k].id@ == id);
        }
        if exists|k: int|
            0 <= k < records.len() && (#[trigger] records[k]).id@ == id && thread_key_of(
                storage_key,
                records,
                k,
            ) == key {
            let k = choose|k: int|
                0 <= k < records.len() && (#[trigger] records[k]).id@ == id && thread_key_of(
                    storage_key,
                    records,
                    k,
                ) == key;
            lemma_thread_listing(storage_key, records, key, k);
            let i = choose|i: int| 0 <= i < entries.len() && (#[trigger] entries[i]).0 == k;
            assert(members[i] == id);
        }
    }
}

/// The thread that is shown at the place of record `k`.
spec fn thread_at(storage_key: Seq<char>, records: Records, k: int) -> ThreadView {
    let key = thread_key_of(storage_key, records, k);
    ThreadView {
        key,
        placement: records[k].id@,
        members: thread_members(storage_key, records, key),
    }
}

/// The places of the threads among the first `to` records.
proof fn lemma_threads_placed(storage_key: Seq<char>, records: Records, to: int) -> (places: Seq<
    int,
>)
    requires
        0 <= to <= records.len(),
    ensures
        places.len() == threads_below(storage_key, records, to).len(),
        forall|i: int|
            0 <= i < places.len() ==> 0 <= #[trigger] places[i] < to && is_placement(
                storage_key,
                records,
                places[i],
            ) && threads_below(storage_key, records, to)[i] == thread_at(
                storage_key,
                records,
                places[i],
            ),
        forall|i: int, j: int|
            #![trigger places[i], places[j]]
            0 <= i < j < places.len() ==> places[i] < places[j],
        forall|k: int|
            0 <= k < to && #[trigger] is_placement(storage_key, records, k) ==> places.contains(k),
    decreases to,
{
    if to == 0 {
        Seq::empty()
    } else {
        let before = lemma_threads_placed(storage_key, records, to - 1);
        let k = to - 1;
        if is_placement(storage_key, records, k) {
            let places = before.push(k);
            let threads = threads_below(storage_key, records, to);
            assert(threads =~= threads_below(storage_key, records, k).push(
                thread_at(storage_key, records, k),
            ));
            assert forall|i: int| 0 <= i < places.len() implies 0 <= #[trigger] places[i] < to
                && is_placement(storage_key, records, places[i]) && threads[i] == thread_at(
                storage_key,
                records,
                places[i],
            ) by {
                if i < before.len() {
                    assert(places[i] == before[i]);
                }
            }
            assert forall|j: int|
                0 <= j < to && #[trigger] is_placement(storage_key, records, j) implies places.contains(
                j,
            ) by {
                if j < k {
                    let i = choose|i: int| 0 <= i < before.len() && before[i] == j;
                    assert(places[i] == j);
                } else {
                    assert(places[before.len() as int] == j);
                }
            }
            places
        } else {
            before
        }
    }
}

/// Each thread is shown at one place.
proof fn lemma_placement_unique(storage_key: Seq<char>, records: Records, a: int, b: int)
    requires
        distinct_ids(records),
        0 <= a < b < records.len(),
        is_placement(storage_key, records, a),
        is_placement(storage_key, records, b),
    ensures
        thread_key_of(storage_key, records, a) != thread_key_of(storage_key, records, b),
{
}

/// Each thread is shown at some place.
proof fn lemma_placement_exists(storage_key: Seq<char>, records: Records, k: int) -> (place: int)
    requires
        distinct_ids(records),
        0 <= k < records.len(),
    ensures
        0 <= place < records.len(),
        is_placement(storage_key, records, place),
        thread_key_of(storage_key, records, place) == thread_key_of(storage_key, records, k),
    decreases k,
{
    let key = thread_key_of(storage_key, records, k);
    if key.kind is Normal {
        let links = reply_links(storage_key, records);
        let top = top_of(links, k);
        assert(ends_at(links, k, top));
        ancestors_share_thread(storage_key, records, k, top);
        top
    } else if is_placement(storage_key, records, k) {
        k
    } else {
        let j = choose|j: int|
            0 <= j < k && #[trigger] thread_key_of(storage_key, records, j) == key;
        lemma_placement_exists(storage_key, records, j)
    }
}

/// Every record belongs to exactly one of the threads, and every thread has a record.
pub proof fn every_record_has_one_thread(storage_key: Seq<char>, records: Records, k: int)
    requires
        distinct_ids(records),
        0 <= k < records.len(),
    ensures
        exists|i: int|
            0 <= i < comment_threads(storage_key, records).len() && (#[trigger] comment_threads(
                storage_key,
                records,
            )[i]).members.contains(records[k].id@),
        forall|i: int|
            0 <= i < comment_threads(storage_key, records).len() ==> ((#[trigger] comment_threads(
                storage_key,
                records,
            )[i]).members.contains(records[k].id@) == (comment_threads(storage_key, records)[i].key
                == thread_key_of(storage_key, records, k))),
        forall|i: int, j: int|
            0 <= i < j < comment_threads(storage_key, records).len() ==> (#[trigger] comment_threads(
                storage_key,
                records,
            )[i]).key != (#[trigger] comment_threads(storage_key, records)[j]).key,
{
    let threads = comment_threads(storage_key, records);
    let places = lemma_threads_placed(storage_key, records, records.len() as int);
    assert forall|i: int| 0 <= i < threads.len() implies ((#[trigger] threads[i]).members.contains(
        records[k].id@,
    ) == (threads[i].key == thread_key_of(storage_key, records, k))) by {
        assert(threads[i] == thread_at(storage_key, records, places[i]));
        thread_lists_its_records(storage_key, records, threads[i].key);
        assert(records[k].id@ == records[k].id@);
    }
    let place = lemma_placement_exists(storage_key, records, k);
    assert(places.contains(place));
    let i = choose|i: int| 0 <= i < places.len() && places[i] == place;
    assert(threads[i] == thread_at(storage_key, records, places[i]));
    assert(threads[i].members.contains(records[k].id@));
    assert forall|i: int, j: int| 0 <= i < j < threads.len() implies (#[trigger] threads[i]).key
        != (#[trigger] threads[j]).key by {
        assert(places[i] < places[j]);
        assert(threads[i] == thread_at(storage_key, records, places[i]));
        assert(threads[j] == thread_at(storage_key, records, places[j]));
        lemma_placement_unique(storage_key, records, places[i], places[j]);
    }
}

/// Threads come in the order of the records at whose places they are shown, and each is shown at
/// the place of one of its own records.
pub proof fn threads_come_in_order(storage_key: Seq<char>, records: Records, i: int, j: int)
    requires
        is_ranked(records, records),
        distinct_ids(records),
        0 <= i < j < comment_threads(storage_key, records).len(),
    ensures
        exists|a: int, b: int|
            0 <= a < b < records.len() && (#[trigger] records[a]).id@ == comment_threads(
                storage_key,
                records,
            )[i].placement && (#[trigger] records[b]).id@ == comment_threads(
                storage_key,
                records,
            )[j].placement && record_precedes(records[a], records[b]),
        comment_threads(storage_key, records)[i].members.contains(
            comment_threads(storage_key, records)[i].placement,
        ),
{
    let places = lemma_threads_placed(storage_key, records, records.len() as int);
    let threads = comment_threads(storage_key, records);
    assert(places[i] < places[j]);
    assert(threads[i] == thread_at(storage_key, records, places[i]));
    assert(threads[j] == thread_at(storage_key, records, places[j]));
    assert(records[places[i]].id@ == threads[i].placement);
    assert(records[places[j]].id@ == threads[j].placement);
    thread_lists_its_records(storage_key, records, threads[i].key);
}

/// The threads, and the thread of each record, do not depend on the order in which the records
/// are given.
pub proof fn threads_ignore_input_order(storage_key: Seq<char>, a: Records, b: Records)
    requires
        distinct_ids(a),
        distinct_ids(b),
        forall|record: StackReviewCommentRecord| #[trigger] a.contains(record) == b.contains(record),
    ensures
        ranked_records(a) == ranked_records(b),
        record_keys(storage_key, ranked_records(a)) == record_keys(storage_key, ranked_records(b)),
        comment_threads(storage_key, ranked_records(a)) == comment_threads(
            storage_key,
            ranked_records(b),
        ),
{
    lemma_ranked_exists(a);
    lemma_ranked_exists(b);
    let x = ranked_records(a);
    assert(is_ranked(b, x)) by {
        assert forall|record: StackReviewCommentRecord| #[trigger] x.contains(record)
            == b.contains(record) by {
            assert(x.contains(record) == a.contains(record));
        }
    }
    lemma_ranked_unique(b, x, ranked_records(b));
}

/// The index finds each record's thread, and nothing for an id that no record has.
pub proof fn every_record_is_indexed(storage_key: Seq<char>, records: Records, id: Seq<char>)
    requires
        distinct_ids(records),
    ensures
        match key_for(record_keys(storage_key, records), id) {
            Some(key) => exists|k: int|
                0 <= k < records.len() && (#[trigger] records[k]).id@ == id && key == thread_key_of(
                    storage_key,
                    records,
                    k,
                ),
            None => !has_record(records, id),
        },
{
    let entries = record_keys(storage_key, records);
    lemma_key_for(entries, id);
    match key_for(entries, id) {
        Some(key) => {
            let k = choose|k: int| 0 <= k < entries.len() && #[trigger] entries[k] == (id, key);
            assert(records[k].id@ == id);
        },
        None => {
            if has_record(records, id) {
                let k = choose|k: int| 0 <= k < records.len() && (#[trigger] records[k]).id@ == id;
                assert(entries[k].0 == id);
            }
        },
    }
}

proof fn lemma_key_for(entries: Seq<(Seq<char>, ThreadKeyView)>, id: Seq<char>)
    ensures
        match key_for(entries, id) {
            Some(key) => exists|k: int| 0 <= k < entries.len() && #[trigger] entries[k] == (id, key),
            None => forall|k: int| 0 <= k < entries.len() ==> (#[trigger] entries[k]).0 != id,
        },
    decreases entries.len(),
{
    if entries.len() > 0 {
        let rest = entries.drop_first();
        if entries[0].0 == id {
            assert(entries[0] == (id, entries[0].1));
        } else {
            lemma_key_for(rest, id);
            match key_for(rest, id) {
                Some(key) => {
                    let k = choose|k: int| 0 <= k < rest.len() && #[trigger] rest[k] == (id, key);
                    assert(entries[k + 1] == (id, key));
                },
                None => {
                    assert forall|k: int| 0 <= k < entries.len() implies (#[trigger] entries[k]).0
                        != id by {
                        if k > 0 {
                            assert(rest[k - 1] == entries[k]);
                        }
                    }
                },
            }
        }
    }
}

/// The place of a record in the list of its thread.
pub open spec fn listed_at(members: Seq<Seq<char>>, i: int, record: StackReviewCommentRecord) -> bool {
    0 <= i < members.len() && members[i] == record.id@
}

proof fn lemma_roots_begin(storage_key: Seq<char>, records: Records, key: ThreadKeyView, node: int)
    requires
        lists(as_roots(thread_roots(storage_key, records, key)), node),
    ensures
        0 <= node < records.len(),
        begins(storage_key, records, key, node),
{
    lemma_roots_listed(thread_roots(storage_key, records, key), node);
    lemma_thread_roots(storage_key, records, key, records.len() as int, node);
}

/// A reply is listed behind what it replies to, but for the record that a circle is named by,
/// with which the list of that thread begins.
pub proof fn replies_are_listed_behind(
    storage_key: Seq<char>,
    records: Records,
    key: ThreadKeyView,
    k: int,
    parent: int,
    i: int,
)
    requires
        distinct_ids(records),
        0 <= k < records.len(),
        reply_link(storage_key, records, k) == Some(parent),
        listed_at(thread_members(storage_key, records, key), i, records[k]),
        !(key.kind is Cycle && key.id == records[k].id@),
    ensures
        exists|j: int|
            j < i && #[trigger] listed_at(
                thread_members(storage_key, records, key),
                j,
                records[parent],
            ),
{
    let links = reply_links(storage_key, records);
    let pending = as_roots(thread_roots(storage_key, records, key));
    let entries = listing(links, 0, pending, Set::empty());
    let members = thread_members(storage_key, records, key);
    lemma_reply_links_ok(storage_key, records);
    lemma_listing(links, 0, pending, Set::empty());
    let node = entries[i].0;
    assert(members[i] == records[node].id@);
    assert(lists(entries, node));
    assert(node == k) by {
        if node < k {
            assert(records[node].id@ != records[k].id@);
        } else if k < node {
            assert(records[k].id@ != records[node].id@);
        }
    }
    lemma_listing_depth(links, 0, pending, Set::empty(), i);
    if pending.contains(entries[i]) {
        let r = choose|r: int| 0 <= r < pending.len() && pending[r] == entries[i];
        assert(pending[r].0 == node);
        assert(lists(pending, node));
        lemma_roots_begin(storage_key, records, key, node);
    } else {
        let j = choose|j: int|
            0 <= j < i && links[entries[i].0] == Some((#[trigger] entries[j]).0) && entries[i].1
                == depth_below(entries[j].1, 0);
        assert(links[k] == Some(parent));
        assert(members[j] == records[entries[j].0].id@);
        assert(listed_at(members, j, records[parent]));
    }
}

/// Replies to the same record are listed in the order of the records, wherever following replies
/// ends.
pub proof fn siblings_are_listed_in_order(
    storage_key: Seq<char>,
    records: Records,
    parent: int,
    x: int,
    y: int,
)
    requires
        distinct_ids(records),
        0 <= x < y < records.len(),
        reply_link(storage_key, records, x) == Some(parent),
        reply_link(storage_key, records, y) == Some(parent),
        has_top(reply_links(storage_key, records), parent),
    ensures
        exists|i: int, j: int|
            i < j && #[trigger] listed_at(
                thread_members(storage_key, records, thread_key_of(storage_key, records, parent)),
                i,
                records[x],
            ) && #[trigger] listed_at(
                thread_members(storage_key, records, thread_key_of(storage_key, records, parent)),
                j,
                records[y],
            ),
{
    let links = reply_links(storage_key, records);
    let key = thread_key_of(storage_key, records, parent);
    let pending = as_roots(thread_roots(storage_key, records, key));
    let entries = listing(links, 0, pending, Set::empty());
    let members = thread_members(storage_key, records, key);
    lemma_reply_links_ok(storage_key, records);
    assert(links[x] == Some(parent));
    assert(links[y] == Some(parent));
    assert(0 <= parent < records.len());
    lemma_thread_listing(storage_key, records, key, parent);
    assert forall|n: int| #[trigger] lists(pending, n) implies links[n] is None by {
        lemma_roots_begin(storage_key, records, key, n);
        assert(links[n] == reply_link(storage_key, records, n));
    }
    lemma_siblings_in_order(links, 0, pending, parent, x, y);
    let (i, j) = choose|i: int, j: int|
        0 <= i < j < entries.len() && (#[trigger] entries[i]).0 == x && (#[trigger] entries[j]).0
            == y;
    assert(members[i] == records[entries[i].0].id@);
    assert(members[j] == records[entries[j].0].id@);
    assert(listed_at(members, i, records[x]));
    assert(listed_at(members, j, records[y]));
}

} // verus!
