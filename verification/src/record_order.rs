//! The order in which comment records are told: by time, then by id.

use crate::comment::StackReviewCommentRecord;
use crate::ranking::{is_ranking, lemma_ranking_covers, positions, rank};
use crate::text::{
    lemma_text_le_antisymmetric, lemma_text_le_total, lemma_text_le_transitive, same_text, text_le,
    text_not_after,
};
use vstd::prelude::*;
use vstd::string::*;

verus! {

/// The Unix time, in nanoseconds, that the `time` crate reads from an RFC 3339 text.
pub uninterp spec fn rfc3339_nanos(text: Seq<char>) -> Option<i128>;

/// Calls [`time::OffsetDateTime::parse`] with the well-known description `Rfc3339` and
/// [`time::OffsetDateTime::unix_timestamp_nanos`] on what it reads. The outcome depends on the
/// text alone; which texts are read, and as what, is left to the crate.
#[verifier::external_body]
pub(crate) fn read_rfc3339_nanos(text: &str) -> (nanos: Option<i128>)
    ensures
        nanos == rfc3339_nanos(text@),
{
    time::OffsetDateTime::parse(text, &time::format_description::well_known::Rfc3339)
        .map(|timestamp| timestamp.unix_timestamp_nanos())
        .ok()
}

/// The time of a text, before all others where it cannot be read.
pub open spec fn nanos_or_first(text: Seq<char>) -> i128 {
    match rfc3339_nanos(text) {
        Some(nanos) => nanos,
        None => i128::MIN,
    }
}

/// The time of a text, before all others where it cannot be read.
pub fn timestamp_nanos(text: &str) -> (nanos: i128)
    ensures
        nanos == nanos_or_first(text@),
{
    match read_rfc3339_nanos(text) {
        Some(nanos) => nanos,
        None => i128::MIN,
    }
}

/// Whether `a` does not come after `b`: by the time of creation, then by the id.
pub open spec fn record_le(a: StackReviewCommentRecord, b: StackReviewCommentRecord) -> bool {
    let x = nanos_or_first(a.created_at@);
    let y = nanos_or_first(b.created_at@);
    x < y || (x == y && text_le(a.id@, b.id@))
}

/// Whether `a` comes before `b`.
pub open spec fn record_precedes(a: StackReviewCommentRecord, b: StackReviewCommentRecord) -> bool {
    record_le(a, b) && a.id@ != b.id@
}

/// No two records have the same id.
pub open spec fn distinct_ids(records: Seq<StackReviewCommentRecord>) -> bool {
    forall|i: int, j: int|
        #![trigger records[i], records[j]]
        0 <= i < j < records.len() ==> records[i].id@ != records[j].id@
}

/// `ranked` holds the same records as `records`, each before those that come after it.
pub open spec fn is_ranked(
    records: Seq<StackReviewCommentRecord>,
    ranked: Seq<StackReviewCommentRecord>,
) -> bool {
    &&& forall|record: StackReviewCommentRecord| #[trigger]
        ranked.contains(record) == records.contains(record)
    &&& forall|i: int, j: int|
        #![trigger ranked[i], ranked[j]]
        0 <= i < j < ranked.len() ==> record_precedes(ranked[i], ranked[j])
}

/// The records in order.
pub open spec fn ranked_records(records: Seq<StackReviewCommentRecord>) -> Seq<
    StackReviewCommentRecord,
> {
    choose|ranked: Seq<StackReviewCommentRecord>| is_ranked(records, ranked)
}

proof fn lemma_record_order(
    a: StackReviewCommentRecord,
    b: StackReviewCommentRecord,
    c: StackReviewCommentRecord,
)
    ensures
        record_le(a, b) || record_le(b, a),
        record_le(a, b) && record_le(b, c) ==> record_le(a, c),
        record_le(a, b) && record_le(b, a) ==> a.id@ == b.id@,
{
    lemma_text_le_total(a.id@, b.id@);
    if text_le(a.id@, b.id@) && text_le(b.id@, c.id@) {
        lemma_text_le_transitive(a.id@, b.id@, c.id@);
    }
    if text_le(a.id@, b.id@) && text_le(b.id@, a.id@) {
        lemma_text_le_antisymmetric(a.id@, b.id@);
    }
}

/// There is one way to put records in order.
pub proof fn lemma_ranked_unique(
    records: Seq<StackReviewCommentRecord>,
    a: Seq<StackReviewCommentRecord>,
    b: Seq<StackReviewCommentRecord>,
)
    requires
        is_ranked(records, a),
        is_ranked(records, b),
    ensures
        a == b,
{
    lemma_ranked_agree(records, a, b, a.len() as int);
    lemma_ranked_agree(records, b, a, b.len() as int);
    assert(a =~= b);
}

proof fn lemma_ranked_agree(
    records: Seq<StackReviewCommentRecord>,
    a: Seq<StackReviewCommentRecord>,
    b: Seq<StackReviewCommentRecord>,
    to: int,
)
    requires
        is_ranked(records, a),
        is_ranked(records, b),
        0 <= to <= a.len(),
    ensures
        to <= b.len(),
        forall|i: int| 0 <= i < to ==> a[i] == b[i],
    decreases to,
{
    if to > 0 {
        lemma_ranked_agree(records, a, b, to - 1);
        let x = a[to - 1];
        assert(a.contains(x));
        assert(records.contains(x));
        assert(b.contains(x));
        let i = choose|i: int| 0 <= i < b.len() && b[i] == x;
        if i < to - 1 {
            assert(a[i] == b[i]);
            assert(record_precedes(a[i], a[to - 1]));
        } else if i > to - 1 {
            let y = b[to - 1];
            assert(b.contains(y));
            assert(records.contains(y));
            assert(a.contains(y));
            let j = choose|j: int| 0 <= j < a.len() && a[j] == y;
            assert(record_precedes(b[to - 1], b[i]));
            if j < to - 1 {
                assert(b[j] == a[j]);
                assert(record_precedes(b[j], b[to - 1]));
            } else if j > to - 1 {
                assert(record_precedes(a[to - 1], a[j]));
                lemma_record_order(x, y, x);
            }
        }
    }
}

spec fn in_order(ranked: Seq<StackReviewCommentRecord>) -> bool {
    forall|i: int, j: int|
        #![trigger ranked[i], ranked[j]]
        0 <= i < j < ranked.len() ==> record_precedes(ranked[i], ranked[j])
}

proof fn lemma_insert_in_order(
    ranked: Seq<StackReviewCommentRecord>,
    record: StackReviewCommentRecord,
) -> (at: int)
    requires
        in_order(ranked),
        forall|i: int| 0 <= i < ranked.len() ==> (#[trigger] ranked[i]).id@ != record.id@,
    ensures
        0 <= at <= ranked.len(),
        in_order(ranked.insert(at, record)),
    decreases ranked.len(),
{
    if ranked.len() == 0 {
        0
    } else if record_le(ranked.last(), record) {
        let at = ranked.len() as int;
        let now = ranked.insert(at, record);
        assert forall|i: int, j: int|
            #![trigger now[i], now[j]]
            0 <= i < j < now.len() implies record_precedes(now[i], now[j]) by {
            assert(now[i] == ranked[i]);
            if j < at {
                assert(now[j] == ranked[j]);
            } else if i < at - 1 {
                assert(record_precedes(ranked[i], ranked[at - 1]));
                lemma_record_order(ranked[i], ranked[at - 1], record);
            }
        }
        at
    } else {
        let rest = ranked.drop_last();
        assert(in_order(rest)) by {
            assert forall|i: int, j: int|
                #![trigger rest[i], rest[j]]
                0 <= i < j < rest.len() implies record_precedes(rest[i], rest[j]) by {
                assert(rest[i] == ranked[i]);
                assert(rest[j] == ranked[j]);
            }
        }
        assert forall|i: int| 0 <= i < rest.len() implies (#[trigger] rest[i]).id@ != record.id@ by {
            assert(rest[i] == ranked[i]);
        }
        let at = lemma_insert_in_order(rest, record);
        let inner = rest.insert(at, record);
        let now = ranked.insert(at, record);
        let last = ranked.last();
        assert(now =~= inner.push(last));
        lemma_record_order(last, record, record);
        assert forall|i: int, j: int|
            #![trigger now[i], now[j]]
            0 <= i < j < now.len() implies record_precedes(now[i], now[j]) by {
            if j < inner.len() {
                assert(now[i] == inner[i]);
                assert(now[j] == inner[j]);
            } else if i == at {
                assert(ranked[ranked.len() - 1].id@ != record.id@);
            } else {
                let p = if i < at {
                    i
                } else {
                    i - 1
                };
                assert(now[i] == ranked[p]);
                assert(record_precedes(ranked[p], ranked[ranked.len() - 1]));
            }
        }
        at
    }
}

/// Records with different ids can be put in order.
pub proof fn lemma_ranked_exists(records: Seq<StackReviewCommentRecord>)
    requires
        distinct_ids(records),
    ensures
        is_ranked(records, ranked_records(records)),
        distinct_ids(ranked_records(records)),
{
    let ranked = lemma_some_ranking(records);
    assert(is_ranked(records, ranked));
    let chosen = ranked_records(records);
    assert(is_ranked(records, chosen));
    assert forall|i: int, j: int|
        #![trigger chosen[i], chosen[j]]
        0 <= i < j < chosen.len() implies chosen[i].id@ != chosen[j].id@ by {
        assert(record_precedes(chosen[i], chosen[j]));
    }
}

proof fn lemma_some_ranking(records: Seq<StackReviewCommentRecord>) -> (ranked: Seq<
    StackReviewCommentRecord,
>)
    requires
        distinct_ids(records),
    ensures
        is_ranked(records, ranked),
    decreases records.len(),
{
    if records.len() == 0 {
        assert(is_ranked(records, records));
        records
    } else {
        let rest = records.drop_last();
        let record = records.last();
        assert forall|i: int, j: int|
            #![trigger rest[i], rest[j]]
            0 <= i < j < rest.len() implies rest[i].id@ != rest[j].id@ by {
            assert(rest[i] == records[i]);
            assert(rest[j] == records[j]);
        }
        let before = lemma_some_ranking(rest);
        assert forall|i: int| 0 <= i < before.len() implies (#[trigger] before[i]).id@
            != record.id@ by {
            assert(before.contains(before[i]));
            assert(rest.contains(before[i]));
            let j = choose|j: int| 0 <= j < rest.len() && rest[j] == before[i];
            assert(records[j] == rest[j]);
            assert(records[records.len() - 1] == record);
        }
        let at = lemma_insert_in_order(before, record);
        let ranked = before.insert(at, record);
        assert forall|r: StackReviewCommentRecord| #[trigger]
            ranked.contains(r) == records.contains(r) by {
            if ranked.contains(r) {
                let i = choose|i: int| 0 <= i < ranked.len() && ranked[i] == r;
                if i == at {
                    assert(records[records.len() - 1] == r);
                } else {
                    assert(before.contains(r)) by {
                        if i < at {
                            assert(before[i] == r);
                        } else {
                            assert(before[i - 1] == r);
                        }
                    }
                    assert(rest.contains(r));
                    let j = choose|j: int| 0 <= j < rest.len() && rest[j] == r;
                    assert(records[j] == r);
                }
            }
            if records.contains(r) {
                let j = choose|j: int| 0 <= j < records.len() && records[j] == r;
                if j == records.len() - 1 {
                    assert(ranked[at] == r);
                } else {
                    assert(rest[j] == r);
                    assert(rest.contains(r));
                    assert(before.contains(r));
                    let i = choose|i: int| 0 <= i < before.len() && before[i] == r;
                    if i < at {
                        assert(ranked[i] == r);
                    } else {
                        assert(ranked[i + 1] == r);
                    }
                }
            }
        }
        ranked
    }
}

/// Records in the order of their positions.
pub open spec fn arranged(
    records: Seq<StackReviewCommentRecord>,
    order: Seq<usize>,
) -> Seq<StackReviewCommentRecord> {
    Seq::new(order.len(), |k: int| records[order[k] as int])
}

fn record_not_after(a: &StackReviewCommentRecord, b: &StackReviewCommentRecord) -> (le: bool)
    ensures
        le == record_le(*a, *b),
{
    let x: i128 = timestamp_nanos(a.created_at.as_str());
    let y: i128 = timestamp_nanos(b.created_at.as_str());
    x < y || (x == y && text_not_after(a.id.as_str(), b.id.as_str()))
}

/// The positions of `records` in their order.
pub fn rank_records(records: &[StackReviewCommentRecord]) -> (order: Vec<usize>)
    requires
        distinct_ids(records@),
    ensures
        order@.len() == records@.len(),
        forall|k: int| 0 <= k < order@.len() ==> #[trigger] order@[k] < records@.len(),
        is_ranked(records@, arranged(records@, order@)),
        ranked_records(records@) == arranged(records@, order@),
        distinct_ids(arranged(records@, order@)),
{
    let ghost le = |a: int, b: int| record_le(records@[a], records@[b]);
    let len: usize = records.len();
    let not_after = |a: usize, b: usize| -> (answer: bool)
        requires
            a < records@.len(),
            b < records@.len(),
        ensures
            answer == record_le(records@[a as int], records@[b as int]),
        { record_not_after(&records[a], &records[b]) };
    proof {
        assert forall|a: int, b: int|
            #![trigger le(a, b)]
            0 <= a < len && 0 <= b < len implies le(a, b) || le(b, a) by {
            lemma_record_order(records@[a], records@[b], records@[b]);
        }
        assert forall|a: int, b: int, c: int|
            #![trigger le(a, b), le(b, c)]
            0 <= a < len && 0 <= b < len && 0 <= c < len && le(a, b) && le(b, c) implies le(
            a,
            c,
        ) by {
            lemma_record_order(records@[a], records@[b], records@[c]);
        }
    }
    let order = rank(len, not_after, Ghost(le));
    proof {
        let ranked = arranged(records@, order@);
        let places = positions(order@);
        assert(is_ranking(places, len as nat, le));
        assert forall|k: int| 0 <= k < order@.len() implies #[trigger] order@[k]
            < records@.len() by {
            assert(places[k] == order@[k] as int);
        }
        assert forall|record: StackReviewCommentRecord| #[trigger]
            ranked.contains(record) == records@.contains(record) by {
            if ranked.contains(record) {
                let k = choose|k: int| 0 <= k < ranked.len() && ranked[k] == record;
                assert(records@[order@[k] as int] == record);
            }
            if records@.contains(record) {
                let i = choose|i: int| 0 <= i < records@.len() && records@[i] == record;
                lemma_ranking_covers(places, len as nat, le, i);
                let k = choose|k: int| 0 <= k < places.len() && places[k] == i;
                assert(ranked[k] == record);
            }
        }
        assert forall|i: int, j: int|
            #![trigger ranked[i], ranked[j]]
            0 <= i < j < ranked.len() implies record_precedes(ranked[i], ranked[j]) by {
            assert(places[i] != places[j]);
            assert(le(places[i], places[j]));
            assert(records@[order@[i] as int].id@ != records@[order@[j] as int].id@);
        }
        assert(is_ranked(records@, ranked));
        lemma_ranked_unique(records@, ranked_records(records@), ranked);
    }
    order
}

/// Where the first record stands whose id an earlier record has.
pub open spec fn is_first_duplicate(records: Seq<StackReviewCommentRecord>, at: int) -> bool {
    &&& 0 <= at < records.len()
    &&& distinct_ids(records.take(at))
    &&& exists|i: int| 0 <= i < at && #[trigger] records[i].id@ == records[at].id@
}

/// The position of the first record whose id an earlier record has.
pub fn find_duplicate(records: &[StackReviewCommentRecord]) -> (found: Option<usize>)
    ensures
        match found {
            Some(at) => is_first_duplicate(records@, at as int),
            None => distinct_ids(records@),
        },
{
    let mut at: usize = 0;
    while at < records.len()
        invariant
            at <= records@.len(),
            distinct_ids(records@.take(at as int)),
        decreases records.len() - at,
    {
        let mut i: usize = 0;
        while i < at
            invariant
                i <= at < records@.len(),
                distinct_ids(records@.take(at as int)),
                forall|k: int| 0 <= k < i ==> #[trigger] records@[k].id@ != records@[at as int].id@,
            decreases at - i,
        {
            if same_text(records[i].id.as_str(), records[at].id.as_str()) {
                assert(records@[i as int].id@ == records@[at as int].id@);
                return Some(at);
            }
            i += 1;
        }
        proof {
            let now = records@.take(at + 1);
            let before = records@.take(at as int);
            assert forall|i: int, j: int|
                #![trigger now[i], now[j]]
                0 <= i < j < now.len() implies now[i].id@ != now[j].id@ by {
                assert(now[i] == records@[i]);
                if j < at {
                    assert(before[i] == now[i]);
                    assert(before[j] == now[j]);
                }
            }
        }
        at += 1;
    }
    assert(records@.take(at as int) =~= records@);
    None
}

} // verus!
