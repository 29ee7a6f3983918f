//! Laws on the records of comments, their threads and their stacks.

use crate::comment::{
    counts_as_resolved, inline_record, reads_as_uuid, record_problem, COMMENT_SCHEMA_VERSION,
    StackReviewCommentAuthor, StackReviewCommentRecord, StackReviewCommentSide,
    StackReviewCommentSource,
};
use crate::record_order::{
    distinct_ids, is_ranked, lemma_ranked_exists, nanos_or_first, ranked_records,
};
use crate::stacks::{
    boundary_of, branch_below, first_missing, resolved_branch, stack_contains, stacks_with, Stack,
    StackSnapshot,
};
use crate::text::{opt_string_view, text_le};
use crate::thread_index::{has_record, reply_link, reply_links, thread_key_of};
use crate::thread_key::{
    is_ascii_alphanumeric, partition_of, storage_key_text, thread_key_problem, ThreadKeyView,
};
use crate::trim::trimmed;
use vstd::prelude::*;
use vstd::string::*;

verus! {

/// A record of a comment on the new side of a file holds what it was made with: both ends of its
/// lines, what was said, by whom, and in reply to what.
pub proof fn inline_record_is_as_given(
    id: String,
    base_oid: String,
    head_oid: String,
    path: String,
    start_row: u32,
    start_column: u32,
    end_row: u32,
    end_column: u32,
    body: String,
    author: StackReviewCommentAuthor,
    source: StackReviewCommentSource,
    reply_to: Option<String>,
    timestamp: String,
)
    ensures
        ({
            let record = inline_record(
                id,
                base_oid,
                head_oid,
                path,
                start_row,
                start_column,
                end_row,
                end_column,
                body,
                author,
                source,
                reply_to,
                timestamp,
            );
            &&& record.id == id
            &&& record.base_oid == base_oid
            &&& record.head_oid == head_oid
            &&& record.path == Some(path)
            &&& record.start_row == Some(start_row)
            &&& record.start_column == Some(start_column)
            &&& record.end_row == Some(end_row)
            &&& record.end_column == Some(end_column)
            &&& record.body == body
            &&& record.author == author
            &&& record.source == source
            &&& record.reply_to == reply_to
            &&& record.created_at == timestamp
            &&& record.updated_at == timestamp
            &&& record.side == StackReviewCommentSide::Right
        }),
{
}

/// A record is valid exactly where its schema is known, its id can name a file, and is a UUID unless
/// it comes from GitHub, it is of this snapshot, says something, does not reply to itself, has lines
/// in a file exactly where it is not on the review as a whole, and names its comment on GitHub
/// exactly where it comes from there.
pub proof fn valid_records_are_complete(
    record: StackReviewCommentRecord,
    base_oid: Seq<char>,
    head_oid: Seq<char>,
)
    ensures
        record_problem(record, base_oid, head_oid) is None <==> {
            let github = record.source == StackReviewCommentSource::Github;
            let whole = record.side == StackReviewCommentSide::TopLevel;
            &&& record.schema_version == COMMENT_SCHEMA_VERSION
            &&& record.id@.len() > 0 && !record.id@.contains('/') && !record.id@.contains('\\')
            &&& github || reads_as_uuid(record.id@)
            &&& record.base_oid@ == base_oid && record.head_oid@ == head_oid
            &&& trimmed(record.body@).len() > 0
            &&& record.reply_to is None || record.reply_to->0@ != record.id@
            &&& whole <==> record.path is None
            &&& whole <==> record.start_row is None
            &&& whole <==> record.start_column is None
            &&& whole <==> record.end_row is None
            &&& whole <==> record.end_column is None
            &&& record.path is None || record.path->0@.len() > 0
            &&& github <==> record.github is Some
        },
        counts_as_resolved(record) <==> record.local_resolution == Some(true) || (
        record.local_resolution is None && record.resolved),
{
}

/// Records are of one partition exactly where they are of one snapshot, on one side of one file.
pub proof fn partitions_are_sides_of_files(
    storage_key: Seq<char>,
    a: StackReviewCommentRecord,
    b: StackReviewCommentRecord,
)
    ensures
        partition_of(storage_key, a) == partition_of(storage_key, b) <==> a.base_oid@ == b.base_oid@
            && a.head_oid@ == b.head_oid@ && a.side == b.side && opt_string_view(a.path)
            == opt_string_view(b.path),
        partition_of(storage_key, a).storage_key == storage_key,
        partition_of(storage_key, a).base_oid == a.base_oid@,
        partition_of(storage_key, a).head_oid == a.head_oid@,
        partition_of(storage_key, a).class is TopLevel <==> a.side
            == StackReviewCommentSide::TopLevel,
{
}

/// A key stands for a thread of a snapshot exactly where it names a record, is kept with the
/// snapshot and is of it, and its side, its class and its path go together.
pub proof fn valid_keys_are_of_the_snapshot(
    key: ThreadKeyView,
    base_oid: Seq<char>,
    head_oid: Seq<char>,
)
    ensures
        thread_key_problem(key, base_oid, head_oid) is None <==> {
            let partition = key.partition;
            let whole = partition.side == StackReviewCommentSide::TopLevel;
            &&& trimmed(key.id).len() > 0
            &&& trimmed(partition.storage_key).len() > 0
            &&& partition.base_oid == base_oid
            &&& partition.head_oid == head_oid
            &&& partition.storage_key == storage_key_text(base_oid, head_oid)
            &&& whole <==> partition.class is TopLevel
            &&& whole <==> partition.path is None
            &&& partition.path is None || trimmed(partition.path->0).len() > 0
        },
{
}

/// The name under which a snapshot is kept has a place for every character of both commits and for
/// what stands between them: letters and digits are kept, and an underscore stands for all else.
pub proof fn storage_keys_keep_letters_and_digits(base_oid: Seq<char>, head_oid: Seq<char>, i: int)
    ensures
        storage_key_text(base_oid, head_oid).len() == base_oid.len() + 1 + head_oid.len(),
        storage_key_text(base_oid, head_oid)[base_oid.len() as int] == '_',
        0 <= i < base_oid.len() ==> storage_key_text(base_oid, head_oid)[i] == if is_ascii_alphanumeric(
            base_oid[i],
        ) {
            base_oid[i]
        } else {
            '_'
        },
        0 <= i < head_oid.len() ==> storage_key_text(base_oid, head_oid)[base_oid.len() + 1 + i]
            == if is_ascii_alphanumeric(head_oid[i]) {
            head_oid[i]
        } else {
            '_'
        },
{
    reveal_strlit("-");
    assert("-"@.len() == 1 && "-"@[0] == '-');
    let joined = base_oid + "-"@ + head_oid;
    assert(joined[base_oid.len() as int] == '-');
    if 0 <= i < base_oid.len() {
        assert(joined[i] == base_oid[i]);
    }
    if 0 <= i < head_oid.len() {
        assert(joined[base_oid.len() + 1 + i] == head_oid[i]);
    }
}

/// A record replies within its thread exactly to the record that it names, where that is there, of
/// the same snapshot and on the same side of the same file.
pub proof fn replies_lead_to_the_record_they_name(
    storage_key: Seq<char>,
    records: Seq<StackReviewCommentRecord>,
    k: int,
    parent: int,
)
    requires
        distinct_ids(records),
        0 <= k < records.len(),
        0 <= parent < records.len(),
    ensures
        reply_link(storage_key, records, k) == Some(parent) <==> {
            &&& records[k].reply_to is Some
            &&& records[k].reply_to->0@ == records[parent].id@
            &&& records[k].base_oid@ == records[parent].base_oid@
            &&& records[k].head_oid@ == records[parent].head_oid@
            &&& records[k].side == records[parent].side
            &&& opt_string_view(records[k].path) == opt_string_view(records[parent].path)
        },
{
    partitions_are_sides_of_files(storage_key, records[k], records[parent]);
    if let Some(named) = records[k].reply_to {
        if has_record(records, named@) {
            let at = crate::thread_index::record_at(records, named@);
            assert(0 <= at < records.len() && records[at].id@ == named@);
            partitions_are_sides_of_files(storage_key, records[k], records[at]);
            if records[parent].id@ == named@ {
                assert(at == parent);
            }
        } else if records[parent].id@ == named@ {
            assert(has_record(records, named@));
        }
    }
}

/// A record that replies to nothing begins a thread of its own; one that replies to a record that is
/// not there is in a thread of that missing record; and one that replies to a record of another
/// partition is in a thread of that boundary.
pub proof fn threads_are_named_by_where_they_begin(
    storage_key: Seq<char>,
    records: Seq<StackReviewCommentRecord>,
    k: int,
)
    requires
        distinct_ids(records),
        0 <= k < records.len(),
        reply_link(storage_key, records, k) is None,
    ensures
        thread_key_of(storage_key, records, k).partition == partition_of(storage_key, records[k]),
        records[k].reply_to is None ==> thread_key_of(storage_key, records, k).kind is Normal
            && thread_key_of(storage_key, records, k).id == records[k].id@,
        records[k].reply_to matches Some(parent) ==> {
            &&& thread_key_of(storage_key, records, k).id == parent@
            &&& thread_key_of(storage_key, records, k).kind is MissingParent <==> forall|j: int|
                0 <= j < records.len() ==> (#[trigger] records[j]).id@ != parent@
            &&& thread_key_of(storage_key, records, k).kind is BoundaryViolation <==> exists|j: int|
                0 <= j < records.len() && (#[trigger] records[j]).id@ == parent@
        },
{
    let links = reply_links(storage_key, records);
    assert(links[k] is None);
    assert(crate::forest::climb(links, k, 0) == Some(k));
    assert(crate::forest::ends_at(links, k, k));
    let top = crate::forest::top_of(links, k);
    crate::thread_index::lemma_reply_links_ok(storage_key, records);
    crate::forest::lemma_top_unique(links, k, k);
}

/// Records come by their times, and those of one time by their ids.
pub proof fn records_come_in_order_of_time(
    records: Seq<StackReviewCommentRecord>,
    i: int,
    j: int,
)
    requires
        distinct_ids(records),
        0 <= i < j < ranked_records(records).len(),
    ensures
        ({
            let a = ranked_records(records)[i];
            let b = ranked_records(records)[j];
            &&& records.contains(a) && records.contains(b)
            &&& nanos_or_first(a.created_at@) <= nanos_or_first(b.created_at@)
            &&& nanos_or_first(a.created_at@) == nanos_or_first(b.created_at@) ==> text_le(
                a.id@,
                b.id@,
            ) && a.id@ != b.id@
        }),
        forall|record: StackReviewCommentRecord|
            records.contains(record) ==> #[trigger] ranked_records(records).contains(record),
{
    lemma_ranked_exists(records);
    let ranked = ranked_records(records);
    assert(is_ranked(records, ranked));
    assert(ranked.contains(ranked[i]));
    assert(ranked.contains(ranked[j]));
    assert(crate::record_order::record_precedes(ranked[i], ranked[j]));
}

/// A stack resolves to the commits that are given for its branches: its trunk to that of the trunk,
/// and every layer to those of its branch and of the one below it, with the pull request of each.
pub proof fn stacks_resolve_to_the_given_commits(
    stack: Stack,
    heads: Map<Seq<char>, String>,
    snapshot: StackSnapshot,
    i: int,
)
    requires
        resolved_branch(stack.trunk, heads) == Some(snapshot.trunk),
        snapshot.layers@.len() == stack.branches@.len(),
        forall|i: int|
            0 <= i < stack.branches@.len() ==> resolved_branch(branch_below(stack, i), heads)
                == Some((#[trigger] snapshot.layers@[i]).base) && resolved_branch(
                stack.branches@[i],
                heads,
            ) == Some(snapshot.layers@[i].head),
        0 <= i < stack.branches@.len(),
    ensures
        heads.contains_key(stack.trunk.branch@),
        snapshot.trunk.branch == stack.trunk.branch,
        snapshot.trunk.oid == heads[stack.trunk.branch@],
        snapshot.layers@[i].head.branch == stack.branches@[i].branch,
        snapshot.layers@[i].head.oid == heads[stack.branches@[i].branch@],
        stack.branches@[i].pull_request is None <==> snapshot.layers@[i].head.pull_request_number is None,
        stack.branches@[i].pull_request is Some ==> snapshot.layers@[i].head.pull_request_number
            == Some(stack.branches@[i].pull_request->0.number),
        i == 0 ==> snapshot.layers@[i].base == snapshot.trunk,
        i > 0 ==> snapshot.layers@[i].base == snapshot.layers@[i - 1].head,
{
    let layer = snapshot.layers@[i];
    if i > 0 {
        assert(resolved_branch(stack.branches@[i - 1], heads) == Some(snapshot.layers@[i - 1].head));
    }
}

/// The boundaries of a stack are its trunk and the heads of its layers, from the lowest up: a range
/// from one to a higher one takes in exactly the layers between them.
pub proof fn boundaries_lie_between_layers(snapshot: StackSnapshot, i: int)
    ensures
        boundary_of(snapshot, 0) == Some(snapshot.trunk),
        0 <= i < snapshot.layers@.len() ==> boundary_of(snapshot, i + 1) == Some(
            snapshot.layers@[i].head,
        ),
        boundary_of(snapshot, i) is None <==> i < 0 || i > snapshot.layers@.len(),
{
}

/// A stack is missing the first branch, from the trunk up, whose commit is not given.
pub proof fn the_lowest_missing_branch_is_named(
    stack: Stack,
    heads: Map<Seq<char>, String>,
    name: Seq<char>,
)
    requires
        first_missing(stack, heads, name),
    ensures
        !heads.contains_key(name),
        stack_contains(stack, name),
        !heads.contains_key(stack.trunk.branch@) ==> name == stack.trunk.branch@,
        forall|i: int|
            0 <= i < stack.branches@.len() && heads.contains_key(stack.trunk.branch@)
                && !heads.contains_key((#[trigger] stack.branches@[i]).branch@) && (forall|k: int|
                0 <= k < i ==> heads.contains_key((#[trigger] stack.branches@[k]).branch@))
                ==> name == stack.branches@[i].branch@,
{
    let index = choose|index: int|
        0 <= index <= stack.branches@.len() && (#[trigger] branch_below(stack, index)).branch@
            == name && !heads.contains_key(name) && forall|lower: int|
            0 <= lower < index ==> heads.contains_key(
                (#[trigger] branch_below(stack, lower)).branch@,
            );
    if index > 0 {
        assert(heads.contains_key(branch_below(stack, 0).branch@));
        assert(stack.branches@[index - 1].branch@ == name);
    }
    assert forall|i: int|
        0 <= i < stack.branches@.len() && heads.contains_key(stack.trunk.branch@)
            && !heads.contains_key((#[trigger] stack.branches@[i]).branch@) && (forall|k: int|
            0 <= k < i ==> heads.contains_key((#[trigger] stack.branches@[k]).branch@)) implies name
        == stack.branches@[i].branch@ by {
        if i + 1 < index {
            assert(heads.contains_key(branch_below(stack, i + 1).branch@));
        } else if 0 < index < i + 1 {
            assert(heads.contains_key(stack.branches@[index - 1].branch@));
        }
    }
}

/// Stacks are counted that have a branch, or are based on it, each once.
pub proof fn stacks_are_counted_once(stacks: Seq<Stack>, branch: Seq<char>)
    ensures
        stacks_with(stacks, branch) == stacks.filter(
            |stack: Stack|
                stack.trunk.branch@ == branch || exists|i: int|
                    0 <= i < stack.branches@.len() && (#[trigger] stack.branches@[i]).branch@
                        == branch,
        ).len(),
    decreases stacks.len(),
{
    reveal(Seq::filter);
    if stacks.len() > 0 {
        stacks_are_counted_once(stacks.drop_last(), branch);
    }
}

} // verus!
