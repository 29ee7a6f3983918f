//! The threads that comment records form through their replies.

use crate::comment::StackReviewCommentRecord;
use crate::debug_text::{debug_quoted, quote_for_debug};
use crate::forest::{ascend, cycle_member, has_top, links_of, links_ok, reaches, top_of, Ascent};
use crate::preorder::{entries_of, listing, preorder, roots_of};
use crate::record_order::{
    arranged, distinct_ids, find_duplicate, is_first_duplicate, rank_records, ranked_records,
};
use crate::text::{
    lemma_text_le_antisymmetric, lemma_text_le_reflexive, lemma_text_le_total,
    lemma_text_le_transitive, same_text, text_le, text_not_after,
};
use crate::thread_key::{
    comment_thread_partition, partition_of, CommentThreadKey, ThreadKeyView, ThreadKind,
};
use vstd::prelude::*;
use vstd::string::*;

verus! {

type Records = Seq<StackReviewCommentRecord>;

/// A thread of comments.
#[derive(Clone, Debug, PartialEq, Eq)]
pub struct CommentThread {
    pub key: CommentThreadKey,
    /// The record at whose place the thread is shown.
    pub placement_record_id: String,
    /// The records of the thread, replies behind what they reply to.
    pub member_record_ids: Vec<String>,
}

/// A thread as plain values.
#[verifier::ext_equal]
pub struct ThreadView {
    pub key: ThreadKeyView,
    pub placement: Seq<char>,
    pub members: Seq<Seq<char>>,
}

/// The views of some texts.
pub open spec fn text_views(texts: Seq<String>) -> Seq<Seq<char>> {
    texts.map_values(|text: String| text@)
}

impl View for CommentThread {
    type V = ThreadView;

    open spec fn view(&self) -> ThreadView {
        ThreadView {
            key: self.key@,
            placement: self.placement_record_id@,
            members: text_views(self.member_record_ids@),
        }
    }
}

/// The views of some threads.
pub open spec fn thread_views(threads: Seq<CommentThread>) -> Seq<ThreadView> {
    threads.map_values(|thread: CommentThread| thread@)
}

/// Whether a record with this id is among `records`.
pub open spec fn has_record(records: Records, id: Seq<char>) -> bool {
    exists|k: int| 0 <= k < records.len() && (#[trigger] records[k]).id@ == id
}

/// The position of the record with this id.
pub open spec fn record_at(records: Records, id: Seq<char>) -> int {
    choose|k: int| 0 <= k < records.len() && (#[trigger] records[k]).id@ == id
}

/// The record that record `k` replies to, where it is there and in the same partition.
pub open spec fn reply_link(storage_key: Seq<char>, records: Records, k: int) -> Option<int> {
    match records[k].reply_to {
        Some(parent) => if has_record(records, parent@) && partition_of(
            storage_key,
            records[record_at(records, parent@)],
        ) == partition_of(storage_key, records[k]) {
            Some(record_at(records, parent@))
        } else {
            None
        },
        None => None,
    }
}

/// What each record replies to.
pub open spec fn reply_links(storage_key: Seq<char>, records: Records) -> Seq<Option<int>> {
    Seq::new(records.len(), |k: int| reply_link(storage_key, records, k))
}

/// Whether record `member` lies on the circle of replies above record `k` and has the least id
/// there.
pub open spec fn is_canonical_member(
    storage_key: Seq<char>,
    records: Records,
    k: int,
    member: int,
) -> bool {
    let links = reply_links(storage_key, records);
    &&& cycle_member(links, k, member)
    &&& forall|other: int| #[trigger]
        cycle_member(links, k, other) ==> text_le(records[member].id@, records[other].id@)
}

/// The record with the least id on the circle of replies above record `k`.
pub open spec fn canonical_member(storage_key: Seq<char>, records: Records, k: int) -> int {
    choose|member: int| is_canonical_member(storage_key, records, k, member)
}

/// The thread of record `k`. Following replies within the partition ends at a record that replies
/// to nothing, to a record that is not there or to one of another partition, or it runs into a
/// circle.
pub open spec fn thread_key_of(storage_key: Seq<char>, records: Records, k: int) -> ThreadKeyView {
    let links = reply_links(storage_key, records);
    let partition = partition_of(storage_key, records[k]);
    if has_top(links, k) {
        let top = top_of(links, k);
        match records[top].reply_to {
            None => ThreadKeyView { kind: ThreadKind::Normal, partition, id: records[top].id@ },
            Some(parent) => if has_record(records, parent@) {
                ThreadKeyView { kind: ThreadKind::BoundaryViolation, partition, id: parent@ }
            } else {
                ThreadKeyView { kind: ThreadKind::MissingParent, partition, id: parent@ }
            },
        }
    } else {
        ThreadKeyView {
            kind: ThreadKind::Cycle,
            partition,
            id: records[canonical_member(storage_key, records, k)].id@,
        }
    }
}

/// Whether a thread is shown at the place of record `k`: at that of its root, or of its earliest
/// record where it has no single root.
pub open spec fn is_placement(storage_key: Seq<char>, records: Records, k: int) -> bool {
    let key = thread_key_of(storage_key, records, k);
    if key.kind is Normal {
        records[k].id@ == key.id
    } else {
        forall|j: int| 0 <= j < k ==> #[trigger] thread_key_of(storage_key, records, j) != key
    }
}

/// The records among the first `to` that begin the listing of the thread `key`: its records that
/// reply to none of it or, where all do, the one that names the circle.
pub open spec fn thread_roots_below(
    storage_key: Seq<char>,
    records: Records,
    key: ThreadKeyView,
    to: int,
) -> Seq<int>
    decreases to,
{
    if to <= 0 {
        Seq::empty()
    } else {
        let k = to - 1;
        let before = thread_roots_below(storage_key, records, key, k);
        if thread_key_of(storage_key, records, k) == key && (if key.kind is Cycle {
            records[k].id@ == key.id
        } else {
            reply_link(storage_key, records, k) is None
        }) {
            before.push(k)
        } else {
            before
        }
    }
}

/// The records that begin the listing of the thread `key`.
pub open spec fn thread_roots(
    storage_key: Seq<char>,
    records: Records,
    key: ThreadKeyView,
) -> Seq<int> {
    thread_roots_below(storage_key, records, key, records.len() as int)
}

/// Some records at depth zero.
pub open spec fn as_roots(nodes: Seq<int>) -> Seq<(int, nat)> {
    nodes.map_values(|node: int| (node, 0nat))
}

/// The ids of listed records.
pub open spec fn listed_ids(records: Records, entries: Seq<(int, nat)>) -> Seq<Seq<char>> {
    entries.map_values(|entry: (int, nat)| records[entry.0].id@)
}

/// The records of the thread `key`, replies behind what they reply to and in the records' order.
pub open spec fn thread_members(
    storage_key: Seq<char>,
    records: Records,
    key: ThreadKeyView,
) -> Seq<Seq<char>> {
    listed_ids(
        records,
        listing(
            reply_links(storage_key, records),
            0,
            as_roots(thread_roots(storage_key, records, key)),
            Set::empty(),
        ),
    )
}

/// The threads that are shown at the places of the first `to` records.
pub open spec fn threads_below(storage_key: Seq<char>, records: Records, to: int) -> Seq<ThreadView>
    decreases to,
{
    if to <= 0 {
        Seq::empty()
    } else {
        let k = to - 1;
        let before = threads_below(storage_key, records, k);
        if is_placement(storage_key, records, k) {
            let key = thread_key_of(storage_key, records, k);
            before.push(
                ThreadView {
                    key,
                    placement: records[k].id@,
                    members: thread_members(storage_key, records, key),
                },
            )
        } else {
            before
        }
    }
}

/// The threads that records in their order form, in the order of the records at whose places they
/// are shown.
pub open spec fn comment_threads(storage_key: Seq<char>, records: Records) -> Seq<ThreadView> {
    threads_below(storage_key, records, records.len() as int)
}

/// Each record's id and thread.
pub open spec fn record_keys(storage_key: Seq<char>, records: Records) -> Seq<
    (Seq<char>, ThreadKeyView),
> {
    Seq::new(records.len(), |k: int| (records[k].id@, thread_key_of(storage_key, records, k)))
}

pub proof fn lemma_reply_links_ok(storage_key: Seq<char>, records: Records)
    ensures
        links_ok(reply_links(storage_key, records)),
{
    let links = reply_links(storage_key, records);
    assert forall|k: int| #![trigger links[k]] 0 <= k < links.len() implies match links[k] {
        Some(parent) => 0 <= parent < links.len(),
        None => true,
    } by {
        assert(links[k] == reply_link(storage_key, records, k));
    }
}

proof fn lemma_record_at(records: Records, k: int)
    requires
        distinct_ids(records),
        0 <= k < records.len(),
    ensures
        has_record(records, records[k].id@),
        record_at(records, records[k].id@) == k,
{
    let at = record_at(records, records[k].id@);
    assert(records[at].id@ == records[k].id@);
}

/// The place in `order` of the record with this id.
fn find_record(records: &[StackReviewCommentRecord], order: &Vec<usize>, id: &str) -> (found: Option<
    usize,
>)
    requires
        forall|k: int| 0 <= k < order@.len() ==> #[trigger] order@[k] < records@.len(),
        distinct_ids(arranged(records@, order@)),
    ensures
        match found {
            Some(k) => k < order@.len() && has_record(arranged(records@, order@), id@) && record_at(
                arranged(records@, order@),
                id@,
            ) == k,
            None => !has_record(arranged(records@, order@), id@),
        },
{
    let ghost recs = arranged(records@, order@);
    let mut k: usize = 0;
    while k < order.len()
        invariant
            k <= order@.len(),
            recs == arranged(records@, order@),
            distinct_ids(recs),
            forall|k: int| 0 <= k < order@.len() ==> #[trigger] order@[k] < records@.len(),
            forall|j: int| 0 <= j < k ==> (#[trigger] recs[j]).id@ != id@,
        decreases order.len() - k,
    {
        assert(recs[k as int] == records@[order@[k as int] as int]);
        if same_text(records[order[k]].id.as_str(), id) {
            proof {
                lemma_record_at(recs, k as int);
            }
            return Some(k);
        }
        k += 1;
    }
    None
}

/// What each record replies to within its partition.
fn link_replies(
    storage_key: &str,
    records: &[StackReviewCommentRecord],
    order: &Vec<usize>,
) -> (parents: Vec<Option<usize>>)
    requires
        forall|k: int| 0 <= k < order@.len() ==> #[trigger] order@[k] < records@.len(),
        distinct_ids(arranged(records@, order@)),
    ensures
        links_of(parents@) == reply_links(storage_key@, arranged(records@, order@)),
{
    let ghost recs = arranged(records@, order@);
    let mut parents: Vec<Option<usize>> = Vec::new();
    let mut k: usize = 0;
    while k < order.len()
        invariant
            k <= order@.len(),
            parents@.len() == k,
            recs == arranged(records@, order@),
            distinct_ids(recs),
            forall|k: int| 0 <= k < order@.len() ==> #[trigger] order@[k] < records@.len(),
            forall|j: int|
                0 <= j < k ==> #[trigger] links_of(parents@)[j] == reply_link(
                    storage_key@,
                    recs,
                    j,
                ),
        decreases order.len() - k,
    {
        let record = &records[order[k]];
        assert(recs[k as int] == *record);
        let link: Option<usize> = match &record.reply_to {
            Some(parent) => match find_record(records, order, parent.as_str()) {
                Some(at) => {
                    assert(recs[at as int] == records@[order@[at as int] as int]);
                    let theirs = comment_thread_partition(storage_key, &records[order[at]]);
                    let ours = comment_thread_partition(storage_key, record);
                    if theirs.same(&ours) {
                        Some(at)
                    } else {
                        None
                    }
                },
                None => None,
            },
            None => None,
        };
        let ghost before = parents@;
        parents.push(link);
        proof {
            assert forall|j: int| 0 <= j < k + 1 implies #[trigger] links_of(parents@)[j]
                == reply_link(storage_key@, recs, j) by {
                if j < k {
                    assert(links_of(before)[j] == links_of(parents@)[j]);
                }
            }
        }
        k += 1;
    }
    assert(links_of(parents@) =~= reply_links(storage_key@, recs));
    parents
}

/// Which of `members` has the least id.
fn least_member(
    records: &[StackReviewCommentRecord],
    order: &Vec<usize>,
    members: &Vec<usize>,
) -> (least: usize)
    requires
        forall|k: int| 0 <= k < order@.len() ==> #[trigger] order@[k] < records@.len(),
        members@.len() > 0,
        forall|i: int| 0 <= i < members@.len() ==> #[trigger] members@[i] < order@.len(),
    ensures
        members@.contains(least),
        least < order@.len(),
        forall|i: int|
            0 <= i < members@.len() ==> text_le(
                arranged(records@, order@)[least as int].id@,
                arranged(records@, order@)[#[trigger] members@[i] as int].id@,
            ),
{
    let ghost recs = arranged(records@, order@);
    let mut least: usize = members[0];
    proof {
        lemma_text_le_reflexive(recs[least as int].id@);
    }
    let mut i: usize = 1;
    while i < members.len()
        invariant
            1 <= i <= members@.len(),
            recs == arranged(records@, order@),
            forall|k: int| 0 <= k < order@.len() ==> #[trigger] order@[k] < records@.len(),
            forall|i: int| 0 <= i < members@.len() ==> #[trigger] members@[i] < order@.len(),
            members@.contains(least),
            least < order@.len(),
            forall|j: int|
                0 <= j < i ==> text_le(
                    recs[least as int].id@,
                    recs[#[trigger] members@[j] as int].id@,
                ),
        decreases members.len() - i,
    {
        let other: usize = members[i];
        assert(recs[least as int] == records@[order@[least as int] as int]);
        assert(recs[other as int] == records@[order@[other as int] as int]);
        if !text_not_after(records[order[least]].id.as_str(), records[order[other]].id.as_str()) {
            proof {
                lemma_text_le_total(recs[least as int].id@, recs[other as int].id@);
                lemma_text_le_reflexive(recs[other as int].id@);
                assert forall|j: int| 0 <= j < i + 1 implies text_le(
                    recs[other as int].id@,
                    recs[#[trigger] members@[j] as int].id@,
                ) by {
                    if j < i {
                        lemma_text_le_transitive(
                            recs[other as int].id@,
                            recs[least as int].id@,
                            recs[members@[j] as int].id@,
                        );
                    }
                }
            }
            least = other;
        }
        i += 1;
    }
    least
}

/// There is one record on a circle with the least id.
pub proof fn lemma_canonical_unique(
    storage_key: Seq<char>,
    records: Records,
    k: int,
    member: int,
)
    requires
        distinct_ids(records),
        0 <= k < records.len(),
        is_canonical_member(storage_key, records, k, member),
    ensures
        canonical_member(storage_key, records, k) == member,
        0 <= member < records.len(),
{
    let links = reply_links(storage_key, records);
    lemma_reply_links_ok(storage_key, records);
    let chosen = canonical_member(storage_key, records, k);
    assert(is_canonical_member(storage_key, records, k, chosen));
    lemma_text_le_antisymmetric(records[member].id@, records[chosen].id@);
    lemma_reached_in_range(links, k, member);
    lemma_reached_in_range(links, k, chosen);
}

proof fn lemma_reached_in_range(links: Seq<Option<int>>, k: int, to: int)
    requires
        links_ok(links),
        0 <= k < links.len(),
        reaches(links, k, to),
    ensures
        0 <= to < links.len(),
{
    let n = choose|n: nat| #[trigger] crate::forest::climb(links, k, n) == Some(to);
    crate::forest::lemma_climb_in_range(links, k, n);
}

/// The thread of record `k`.
fn thread_key(
    storage_key: &str,
    records: &[StackReviewCommentRecord],
    order: &Vec<usize>,
    parents: &Vec<Option<usize>>,
    k: usize,
) -> (key: CommentThreadKey)
    requires
        forall|k: int| 0 <= k < order@.len() ==> #[trigger] order@[k] < records@.len(),
        distinct_ids(arranged(records@, order@)),
        k < order@.len(),
        links_of(parents@) == reply_links(storage_key@, arranged(records@, order@)),
    ensures
        key@ == thread_key_of(storage_key@, arranged(records@, order@), k as int),
{
    let ghost recs = arranged(records@, order@);
    let ghost links = reply_links(storage_key@, recs);
    proof {
        lemma_reply_links_ok(storage_key@, recs);
        assert(links_of(parents@).len() == parents@.len());
    }
    assert(recs[k as int] == records@[order@[k as int] as int]);
    let partition = comment_thread_partition(storage_key, &records[order[k]]);
    match ascend(parents, k) {
        Ascent::Top(top) => {
            assert(recs[top as int] == records@[order@[top as int] as int]);
            let record = &records[order[top]];
            match &record.reply_to {
                None => CommentThreadKey::Normal { partition, root_record_id: record.id.clone() },
                Some(parent) => match find_record(records, order, parent.as_str()) {
                    Some(_) => CommentThreadKey::BoundaryViolation {
                        partition,
                        foreign_parent_id: parent.clone(),
                    },
                    None => CommentThreadKey::MissingParent {
                        partition,
                        missing_parent_id: parent.clone(),
                    },
                },
            }
        },
        Ascent::Cycle(members) => {
            let least: usize = least_member(records, order, &members);
            proof {
                let i = choose|i: int| 0 <= i < members@.len() && members@[i] == least;
                assert(members@[i] == least as int);
                assert(cycle_member(links, k as int, least as int));
                assert forall|other: int| #[trigger]
                    cycle_member(links, k as int, other) implies text_le(
                    recs[least as int].id@,
                    recs[other].id@,
                ) by {
                    let j = choose|j: int| 0 <= j < members@.len() && #[trigger] members@[j] == other;
                }
                lemma_canonical_unique(storage_key@, recs, k as int, least as int);
                assert(recs[least as int] == records@[order@[least as int] as int]);
            }
            CommentThreadKey::Cycle {
                partition,
                canonical_member_id: records[order[least]].id.clone(),
            }
        },
    }
}

/// Whether record `k` begins the listing of the thread `key`.
fn begins_thread(
    records: &[StackReviewCommentRecord],
    order: &Vec<usize>,
    parents: &Vec<Option<usize>>,
    keys: &Vec<CommentThreadKey>,
    key: &CommentThreadKey,
    k: usize,
    Ghost(storage_key): Ghost<Seq<char>>,
) -> (begins: bool)
    requires
        forall|k: int| 0 <= k < order@.len() ==> #[trigger] order@[k] < records@.len(),
        k < order@.len(),
        keys@.len() == order@.len(),
        keys@[k as int]@ == thread_key_of(storage_key, arranged(records@, order@), k as int),
        links_of(parents@) == reply_links(storage_key, arranged(records@, order@)),
    ensures
        begins == (thread_key_of(storage_key, arranged(records@, order@), k as int) == key@ && (
        if key@.kind is Cycle {
            arranged(records@, order@)[k as int].id@ == key@.id
        } else {
            reply_link(storage_key, arranged(records@, order@), k as int) is None
        })),
{
    let ghost recs = arranged(records@, order@);
    assert(recs[k as int] == records@[order@[k as int] as int]);
    assert(links_of(parents@).len() == parents@.len());
    assert(links_of(parents@).len() == reply_links(storage_key, recs).len());
    assert(links_of(parents@)[k as int] == reply_link(storage_key, recs, k as int));
    if !keys[k].same(key) {
        return false;
    }
    match key {
        CommentThreadKey::Cycle { canonical_member_id, .. } => same_text(
            records[order[k]].id.as_str(),
            canonical_member_id.as_str(),
        ),
        _ => parents[k].is_none(),
    }
}

/// The records of the thread `key`, replies behind what they reply to.
fn ordered_comment_thread_members(
    records: &[StackReviewCommentRecord],
    order: &Vec<usize>,
    parents: &Vec<Option<usize>>,
    keys: &Vec<CommentThreadKey>,
    key: &CommentThreadKey,
    Ghost(storage_key): Ghost<Seq<char>>,
) -> (members: Vec<String>)
    requires
        forall|k: int| 0 <= k < order@.len() ==> #[trigger] order@[k] < records@.len(),
        keys@.len() == order@.len(),
        forall|k: int|
            0 <= k < keys@.len() ==> (#[trigger] keys@[k])@ == thread_key_of(
                storage_key,
                arranged(records@, order@),
                k,
            ),
        links_of(parents@) == reply_links(storage_key, arranged(records@, order@)),
    ensures
        text_views(members@) == thread_members(storage_key, arranged(records@, order@), key@),
{
    let ghost recs = arranged(records@, order@);
    let ghost links = reply_links(storage_key, recs);
    proof {
        lemma_reply_links_ok(storage_key, recs);
        assert(links_of(parents@).len() == parents@.len());
    }
    let mut roots: Vec<usize> = Vec::new();
    let mut k: usize = 0;
    assert(roots_of(roots@) =~= as_roots(thread_roots_below(storage_key, recs, key@, 0)));
    while k < order.len()
        invariant
            k <= order@.len(),
            recs == arranged(records@, order@),
            forall|k: int| 0 <= k < order@.len() ==> #[trigger] order@[k] < records@.len(),
            keys@.len() == order@.len(),
            parents@.len() == order@.len(),
            forall|k: int|
                0 <= k < keys@.len() ==> (#[trigger] keys@[k])@ == thread_key_of(
                    storage_key,
                    recs,
                    k,
                ),
            links_of(parents@) == reply_links(storage_key, recs),
            forall|i: int| 0 <= i < roots@.len() ==> #[trigger] roots@[i] < parents@.len(),
            roots_of(roots@) == as_roots(thread_roots_below(storage_key, recs, key@, k as int)),
        decreases order.len() - k,
    {
        assert(keys@[k as int]@ == thread_key_of(storage_key, recs, k as int));
        let ghost below = thread_roots_below(storage_key, recs, key@, k as int);
        if begins_thread(records, order, parents, keys, key, k, Ghost(storage_key)) {
            proof {
                assert(roots_of(roots@.push(k)) =~= roots_of(roots@).push((k as int, 0nat)));
                assert(as_roots(below.push(k as int)) =~= as_roots(below).push((k as int, 0nat)));
            }
            roots.push(k);
        }
        k += 1;
    }
    let entries = preorder(parents, &roots, 0);
    let ghost listed = listing(
        links,
        0,
        as_roots(thread_roots(storage_key, recs, key@)),
        Set::empty(),
    );
    assert(entries_of(entries@) == listed);
    let mut members: Vec<String> = Vec::new();
    let mut i: usize = 0;
    while i < entries.len()
        invariant
            i <= entries@.len(),
            members@.len() == i,
            recs == arranged(records@, order@),
            parents@.len() == order@.len(),
            forall|k: int| 0 <= k < order@.len() ==> #[trigger] order@[k] < records@.len(),
            forall|i: int| 0 <= i < entries@.len() ==> (#[trigger] entries@[i]).0 < parents@.len(),
            forall|j: int|
                0 <= j < i ==> (#[trigger] members@[j])@ == recs[entries@[j].0 as int].id@,
        decreases entries.len() - i,
    {
        let k: usize = entries[i].0;
        assert(entries@[i as int].0 < parents@.len());
        assert(recs[k as int] == records@[order@[k as int] as int]);
        members.push(records[order[k]].id.clone());
        i += 1;
    }
    assert(text_views(members@) =~= listed_ids(recs, listed)) by {
        assert forall|j: int| 0 <= j < members@.len() implies text_views(members@)[j] == listed_ids(
            recs,
            listed,
        )[j] by {
            assert(members@[j]@ == recs[entries@[j].0 as int].id@);
            assert(listed[j] == entries_of(entries@)[j]);
        }
    }
    members
}

/// Whether the thread of record `k` is shown at its place.
fn placed_here(
    records: &[StackReviewCommentRecord],
    order: &Vec<usize>,
    keys: &Vec<CommentThreadKey>,
    k: usize,
    Ghost(storage_key): Ghost<Seq<char>>,
) -> (here: bool)
    requires
        forall|k: int| 0 <= k < order@.len() ==> #[trigger] order@[k] < records@.len(),
        keys@.len() == order@.len(),
        forall|k: int|
            0 <= k < keys@.len() ==> (#[trigger] keys@[k])@ == thread_key_of(
                storage_key,
                arranged(records@, order@),
                k,
            ),
        k < order@.len(),
    ensures
        here == is_placement(storage_key, arranged(records@, order@), k as int),
{
    let ghost recs = arranged(records@, order@);
    assert(recs[k as int] == records@[order@[k as int] as int]);
    assert(keys@[k as int]@ == thread_key_of(storage_key, recs, k as int));
    match &keys[k] {
        CommentThreadKey::Normal { root_record_id, .. } => {
            return same_text(records[order[k]].id.as_str(), root_record_id.as_str());
        },
        _ => {},
    }
    let mut j: usize = 0;
    while j < k
        invariant
            j <= k < order@.len(),
            recs == arranged(records@, order@),
            keys@.len() == order@.len(),
            forall|k: int|
                0 <= k < keys@.len() ==> (#[trigger] keys@[k])@ == thread_key_of(
                    storage_key,
                    recs,
                    k,
                ),
            !(thread_key_of(storage_key, recs, k as int).kind is Normal),
            forall|i: int|
                0 <= i < j ==> #[trigger] thread_key_of(storage_key, recs, i) != thread_key_of(
                    storage_key,
                    recs,
                    k as int,
                ),
        decreases k - j,
    {
        assert(keys@[j as int]@ == thread_key_of(storage_key, recs, j as int));
        assert(keys@[k as int]@ == thread_key_of(storage_key, recs, k as int));
        if keys[j].same(&keys[k]) {
            return false;
        }
        j += 1;
    }
    true
}

/// Two records that are indexed together have the same id.
#[derive(Clone, Debug, PartialEq, Eq)]
pub struct DuplicateRecordError {
    pub record_id: String,
}

impl DuplicateRecordError {
    /// The error in words.
    pub fn message(&self) -> (message: String)
        ensures
            message@ == "duplicate Stack Review comment record id "@ + debug_quoted(
                self.record_id@,
            ),
    {
        let quoted = quote_for_debug(self.record_id.as_str());
        "duplicate Stack Review comment record id ".to_owned().concat(quoted.as_str())
    }
}

/// The threads of some records, and the thread of each record.
#[derive(Clone, Debug)]
pub struct CommentThreadIndex {
    thread_key_by_record_id: Vec<(String, CommentThreadKey)>,
    threads: Vec<CommentThread>,
}

impl Default for CommentThreadIndex {
    fn default() -> (index: Self)
        ensures
            index.keys() == Seq::<(Seq<char>, ThreadKeyView)>::empty(),
            index.thread_seq() == Seq::<ThreadView>::empty(),
    {
        let index = CommentThreadIndex { thread_key_by_record_id: Vec::new(), threads: Vec::new() };
        assert(index.keys() =~= Seq::<(Seq<char>, ThreadKeyView)>::empty());
        assert(index.thread_seq() =~= Seq::<ThreadView>::empty());
        index
    }
}

/// The thread that the first entry for `id` gives.
pub open spec fn key_for(entries: Seq<(Seq<char>, ThreadKeyView)>, id: Seq<char>) -> Option<
    ThreadKeyView,
>
    decreases entries.len(),
{
    if entries.len() == 0 {
        None
    } else if entries[0].0 == id {
        Some(entries[0].1)
    } else {
        key_for(entries.drop_first(), id)
    }
}

/// The first thread with this key.
pub open spec fn thread_with(threads: Seq<ThreadView>, key: ThreadKeyView) -> Option<ThreadView>
    decreases threads.len(),
{
    if threads.len() == 0 {
        None
    } else if threads[0].key == key {
        Some(threads[0])
    } else {
        thread_with(threads.drop_first(), key)
    }
}

/// The view of a thread key that may be absent.
pub open spec fn opt_key_view(key: Option<&CommentThreadKey>) -> Option<ThreadKeyView> {
    match key {
        Some(key) => Some(key@),
        None => None,
    }
}

/// The view of a thread that may be absent.
pub open spec fn opt_thread_view(thread: Option<&CommentThread>) -> Option<ThreadView> {
    match thread {
        Some(thread) => Some(thread@),
        None => None,
    }
}

impl CommentThreadIndex {
    /// Each indexed record's id and thread.
    pub closed spec fn keys(&self) -> Seq<(Seq<char>, ThreadKeyView)> {
        self.thread_key_by_record_id@.map_values(
            |entry: (String, CommentThreadKey)| (entry.0@, entry.1@),
        )
    }

    /// The threads.
    pub closed spec fn thread_seq(&self) -> Seq<ThreadView> {
        thread_views(self.threads@)
    }

    /// The threads of `records`, which are kept under `storage_key`. Fails where two have the
    /// same id.
    pub fn new(storage_key: &str, records: &[StackReviewCommentRecord]) -> (index: Result<
        Self,
        DuplicateRecordError,
    >)
        ensures
            match index {
                Ok(index) => {
                    &&& distinct_ids(records@)
                    &&& index.keys() == record_keys(storage_key@, ranked_records(records@))
                    &&& index.thread_seq() == comment_threads(
                        storage_key@,
                        ranked_records(records@),
                    )
                },
                Err(error) => exists|at: int| #[trigger]
                    is_first_duplicate(records@, at) && error.record_id@ == records@[at].id@,
            },
    {
        match find_duplicate(records) {
            Some(at) => {
                assert(is_first_duplicate(records@, at as int));
                return Err(DuplicateRecordError { record_id: records[at].id.clone() });
            },
            None => {},
        }
        let order = rank_records(records);
        let ghost recs = arranged(records@, order@);
        let parents = link_replies(storage_key, records, &order);
        let mut keys: Vec<CommentThreadKey> = Vec::new();
        let mut thread_key_by_record_id: Vec<(String, CommentThreadKey)> = Vec::new();
        let mut k: usize = 0;
        while k < order.len()
            invariant
                k <= order@.len(),
                recs == arranged(records@, order@),
                distinct_ids(recs),
                forall|k: int| 0 <= k < order@.len() ==> #[trigger] order@[k] < records@.len(),
                links_of(parents@) == reply_links(storage_key@, recs),
                keys@.len() == k,
                thread_key_by_record_id@.len() == k,
                forall|j: int|
                    0 <= j < k ==> (#[trigger] keys@[j])@ == thread_key_of(storage_key@, recs, j),
                forall|j: int|
                    0 <= j < k ==> (#[trigger] thread_key_by_record_id@[j]).0@ == recs[j].id@
                        && thread_key_by_record_id@[j].1@ == thread_key_of(storage_key@, recs, j),
            decreases order.len() - k,
        {
            let key = thread_key(storage_key, records, &order, &parents, k);
            assert(recs[k as int] == records@[order@[k as int] as int]);
            thread_key_by_record_id.push((records[order[k]].id.clone(), key.copied()));
            keys.push(key);
            k += 1;
        }
        let mut threads: Vec<CommentThread> = Vec::new();
        let mut k: usize = 0;
        assert(thread_views(threads@) =~= threads_below(storage_key@, recs, 0));
        while k < order.len()
            invariant
                k <= order@.len(),
                recs == arranged(records@, order@),
                forall|k: int| 0 <= k < order@.len() ==> #[trigger] order@[k] < records@.len(),
                links_of(parents@) == reply_links(storage_key@, recs),
                keys@.len() == order@.len(),
                forall|j: int|
                    0 <= j < keys@.len() ==> (#[trigger] keys@[j])@ == thread_key_of(
                        storage_key@,
                        recs,
                        j,
                    ),
                thread_views(threads@) == threads_below(storage_key@, recs, k as int),
            decreases order.len() - k,
        {
            if placed_here(records, &order, &keys, k, Ghost(storage_key@)) {
                assert(recs[k as int] == records@[order@[k as int] as int]);
                assert(keys@[k as int]@ == thread_key_of(storage_key@, recs, k as int));
                let member_record_ids = ordered_comment_thread_members(
                    records,
                    &order,
                    &parents,
                    &keys,
                    &keys[k],
                    Ghost(storage_key@),
                );
                let thread = CommentThread {
                    key: keys[k].copied(),
                    placement_record_id: records[order[k]].id.clone(),
                    member_record_ids,
                };
                assert(thread_views(threads@.push(thread)) =~= thread_views(threads@).push(thread@));
                threads.push(thread);
            }
            k += 1;
        }
        let index = CommentThreadIndex { thread_key_by_record_id, threads };
        proof {
            assert(index.keys() =~= record_keys(storage_key@, recs)) by {
                assert forall|j: int| 0 <= j < order@.len() implies index.keys()[j] == record_keys(
                    storage_key@,
                    recs,
                )[j] by {
                    assert(thread_key_by_record_id@[j].0@ == recs[j].id@);
                }
            }
        }
        Ok(index)
    }

    /// The thread of the record with this id.
    pub fn thread_key_for(&self, record_id: &str) -> (key: Option<&CommentThreadKey>)
        ensures
            opt_key_view(key) == key_for(self.keys(), record_id@),
    {
        let mut i: usize = 0;
        assert(self.keys().skip(0) =~= self.keys());
        while i < self.thread_key_by_record_id.len()
            invariant
                i <= self.thread_key_by_record_id@.len(),
                self.keys().len() == self.thread_key_by_record_id@.len(),
                key_for(self.keys(), record_id@) == key_for(
                    self.keys().skip(i as int),
                    record_id@,
                ),
            decreases self.thread_key_by_record_id.len() - i,
        {
            let entry = &self.thread_key_by_record_id[i];
            let ghost rest = self.keys().skip(i as int);
            assert(rest[0] == (entry.0@, entry.1@));
            assert(rest.drop_first() =~= self.keys().skip(i + 1));
            if same_text(entry.0.as_str(), record_id) {
                return Some(&entry.1);
            }
            i += 1;
        }
        None
    }

    /// The thread with this key.
    pub fn thread(&self, key: &CommentThreadKey) -> (thread: Option<&CommentThread>)
        ensures
            opt_thread_view(thread) == thread_with(self.thread_seq(), key@),
    {
        let mut i: usize = 0;
        assert(self.thread_seq().skip(0) =~= self.thread_seq());
        while i < self.threads.len()
            invariant
                i <= self.threads@.len(),
                self.thread_seq().len() == self.threads@.len(),
                thread_with(self.thread_seq(), key@) == thread_with(
                    self.thread_seq().skip(i as int),
                    key@,
                ),
            decreases self.threads.len() - i,
        {
            let ghost rest = self.thread_seq().skip(i as int);
            assert(rest[0] == self.threads@[i as int]@);
            assert(rest.drop_first() =~= self.thread_seq().skip(i + 1));
            if self.threads[i].key.same(key) {
                return Some(&self.threads[i]);
            }
            i += 1;
        }
        None
    }

    /// The threads, in the order in which they are shown.
    pub fn threads(&self) -> (threads: &[CommentThread])
        ensures
            thread_views(threads@) == self.thread_seq(),
    {
        self.threads.as_slice()
    }
}

} // verus!
