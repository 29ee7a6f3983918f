//! Laws on the diff of a stack.

use crate::line_diff::{changed_lines_balance, line_count};
use crate::path_order::{path_le, path_rank};
use crate::ranking::{is_ranking, lemma_permuted_multiset, lemma_ranking_permutes};
use crate::stack_diff::{
    content_request, contents_line_up, counted_texts, counts_changed_lines, describes_file,
    entries_in_diff, entry_le, files_with, is_first_since, planned_diff_excludes_merge_only_files,
    provenance_of, sorted_by_path, touched, touches, FirstParentCommit, RevisionContent,
    StackReviewContentKind, StackReviewContents, StackReviewFileDiff, StackReviewFileProvenance,
    StackReviewFileStatus, TreeDiffEntry, TreeDiffStatus,
};
use vstd::prelude::*;

verus! {

/// The counts of a file in a diff make up the difference in length between what it held before and
/// what it holds now: what is added is what the new sides of the hunks hold, what is deleted is what
/// their old sides hold. A new file only adds lines, all of its own; one that is gone only deletes.
pub proof fn changed_lines_are_counted(
    file: StackReviewFileDiff,
    entry: TreeDiffEntry,
    contents: StackReviewContents,
    commits: Seq<FirstParentCommit>,
)
    requires
        describes_file(file, entry, contents, commits),
        contents_line_up(contents),
    ensures
        counts_changed_lines(file.additions, file.deletions, contents.old, contents.new),
        counts_changed_lines(
            file.additions,
            file.deletions,
            file.old_content,
            file.new_content,
        ),
{
    if let Some((old_text, new_text)) = counted_texts(contents.old, contents.new) {
        let hunks = crate::line_diff::histogram_hunks(old_text, new_text);
        assert(line_count(Seq::<char>::empty()) == 0);
        changed_lines_balance(hunks, line_count(old_text) as int, line_count(new_text) as int);
    }
}

/// A new file adds as many lines as it has and deletes none.
pub proof fn new_files_only_add(
    file: StackReviewFileDiff,
    entry: TreeDiffEntry,
    contents: StackReviewContents,
    commits: Seq<FirstParentCommit>,
    text: String,
)
    requires
        describes_file(file, entry, contents, commits),
        contents_line_up(contents),
        contents.old is None,
        contents.new == Some(RevisionContent::Text(text)),
    ensures
        file.additions is Some,
        file.additions->0 == line_count(text@),
        file.deletions == Some(0u32),
{
    changed_lines_are_counted(file, entry, contents, commits);
}

/// A file that is gone deletes as many lines as it had and adds none.
pub proof fn removed_files_only_delete(
    file: StackReviewFileDiff,
    entry: TreeDiffEntry,
    contents: StackReviewContents,
    commits: Seq<FirstParentCommit>,
    text: String,
)
    requires
        describes_file(file, entry, contents, commits),
        contents_line_up(contents),
        contents.old == Some(RevisionContent::Text(text)),
        contents.new is None,
    ensures
        file.additions == Some(0u32),
        file.deletions is Some,
        file.deletions->0 == line_count(text@),
{
    changed_lines_are_counted(file, entry, contents, commits);
}

/// A text's lines end at its line breaks: none is there without a character, one where no break is
/// met, and one more than behind it where the first break is met.
pub proof fn lines_end_at_breaks(line: Seq<char>, rest: Seq<char>)
    requires
        !line.contains('\n'),
    ensures
        line_count(line) == if line.len() == 0 {
            0nat
        } else {
            1nat
        },
        line_count(line + seq!['\n'] + rest) == 1 + line_count(rest),
    decreases rest.len() + line.len(),
{
    if line.len() > 0 {
        let shorter = line.drop_last();
        assert forall|i: int| 0 <= i < shorter.len() implies shorter[i] != '\n' by {
            assert(line.contains(line[i]));
        }
        if shorter.len() > 0 {
            lemma_one_line(line);
        } else {
            assert(line_count(shorter) == 0);
        }
    }
    lemma_lines_behind(line, rest);
}

proof fn lemma_one_line(line: Seq<char>)
    requires
        line.len() > 0,
        !line.contains('\n'),
    ensures
        line_count(line) == 1,
    decreases line.len(),
{
    let shorter = line.drop_last();
    if shorter.len() == 0 {
        assert(line_count(shorter) == 0);
    } else {
        assert forall|i: int| 0 <= i < shorter.len() implies shorter[i] != '\n' by {
            assert(line.contains(line[i]));
        }
        assert(line.contains(line[line.len() - 2]));
        lemma_one_line(shorter);
    }
}

proof fn lemma_lines_behind(line: Seq<char>, rest: Seq<char>)
    requires
        !line.contains('\n'),
    ensures
        line_count(line + seq!['\n'] + rest) == 1 + line_count(rest),
    decreases rest.len(),
{
    let whole = line + seq!['\n'] + rest;
    if rest.len() == 0 {
        assert(whole.drop_last() =~= line);
        assert(line_count(rest) == 0);
        if line.len() > 0 {
            lemma_one_line(line);
            assert(whole[whole.len() - 2] == line[line.len() - 1]);
            assert(line.contains(line[line.len() - 1]));
        } else {
            assert(line_count(line) == 0);
        }
    } else {
        lemma_lines_behind(line, rest.drop_last());
        assert(whole.drop_last() =~= line + seq!['\n'] + rest.drop_last());
        if rest.len() == 1 {
            assert(whole[whole.len() - 2] == '\n');
            assert(line_count(rest.drop_last()) == 0);
        } else {
            assert(whole[whole.len() - 2] == rest[rest.len() - 2]);
        }
    }
}

/// A file in a diff has the path of its entry and holds what was loaded of it; it is new exactly
/// where nothing is asked for that it held before, and gone exactly where nothing is asked for that
/// it holds now.
pub proof fn files_are_what_was_asked_for(
    file: StackReviewFileDiff,
    entry: TreeDiffEntry,
    contents: StackReviewContents,
    commits: Seq<FirstParentCommit>,
)
    requires
        describes_file(file, entry, contents, commits),
    ensures
        file.path == content_request(entry).path,
        file.path == entry.path,
        content_request(entry).old_oid is None <==> file.status == StackReviewFileStatus::Added,
        !content_request(entry).load_new <==> file.status == StackReviewFileStatus::Deleted,
        entry.status matches TreeDiffStatus::Modified { old } ==> content_request(entry).old_oid
            == Some(old) && file.status == StackReviewFileStatus::Modified,
        entry.status matches TreeDiffStatus::Deleted { old } ==> content_request(entry).old_oid
            == Some(old) && file.status == StackReviewFileStatus::Deleted,
        entry.status is Added <==> file.status == StackReviewFileStatus::Added,
        file.old_content == contents.old,
        file.new_content == contents.new,
{
}

/// A file is of the kind that both its sides are fit for: its contents could not be had where one
/// side's could not, it is no file where one side is none, it is binary where one side is, in this
/// order, and a text where each side that is there is one.
pub proof fn kinds_are_those_of_the_sides(
    file: StackReviewFileDiff,
    entry: TreeDiffEntry,
    contents: StackReviewContents,
    commits: Seq<FirstParentCommit>,
)
    requires
        describes_file(file, entry, contents, commits),
    ensures
        file.content_kind == StackReviewContentKind::Unavailable <==> contents.old matches Some(
            RevisionContent::Unavailable(_),
        ) || contents.new matches Some(RevisionContent::Unavailable(_)),
        file.content_kind == StackReviewContentKind::Text <==> (contents.old is None
            || contents.old matches Some(RevisionContent::Text(_))) && (contents.new is None
            || contents.new matches Some(RevisionContent::Text(_))),
        file.content_kind == StackReviewContentKind::Binary ==> contents.old
            == Some(RevisionContent::Binary) || contents.new == Some(RevisionContent::Binary),
        file.content_kind == StackReviewContentKind::NonBlob ==> contents.old matches Some(
            RevisionContent::NonBlob(_),
        ) || contents.new matches Some(RevisionContent::NonBlob(_)),
        (contents.old matches Some(RevisionContent::NonBlob(_)) || contents.new matches Some(
            RevisionContent::NonBlob(_),
        )) ==> file.content_kind != StackReviewContentKind::Binary,
        file.additions is Some <==> file.content_kind == StackReviewContentKind::Text
            && !(contents.old is None && contents.new is None),
        file.deletions is Some <==> file.additions is Some,
{
}

/// A commit, a merge or an ordinary one, that names a path.
pub open spec fn is_named(commits: Seq<FirstParentCommit>, path: Seq<char>, merge: bool) -> bool {
    exists|c: int, p: int|
        #![trigger commits[c].paths@[p]]
        0 <= c < commits.len() && 0 <= p < commits[c].paths@.len() && commits[c].is_merge == merge
            && commits[c].paths@[p]@ == path
}

proof fn lemma_is_named(commits: Seq<FirstParentCommit>, path: Seq<char>, merge: bool)
    ensures
        touched(commits, path, merge) == is_named(commits, path, merge),
{
    if touched(commits, path, merge) {
        let c = choose|c: int|
            0 <= c < commits.len() && commits[c].is_merge == merge && touches(
                #[trigger] commits[c],
                path,
            );
        let p = choose|p: int|
            0 <= p < commits[c].paths@.len() && (#[trigger] commits[c].paths@[p])@ == path;
        assert(commits[c].paths@[p]@ == path);
    }
    if is_named(commits, path, merge) {
        let (c, p) = choose|c: int, p: int|
            #![trigger commits[c].paths@[p]]
            0 <= c < commits.len() && 0 <= p < commits[c].paths@.len() && commits[c].is_merge
                == merge && commits[c].paths@[p]@ == path;
        assert(touches(commits[c], path));
    }
}

/// A file's provenance says which commits name it: only ordinary ones, only merges, both or none.
pub proof fn provenance_names_the_commits(commits: Seq<FirstParentCommit>, path: Seq<char>)
    ensures
        provenance_of(commits, path) == StackReviewFileProvenance::Direct <==> is_named(
            commits,
            path,
            false,
        ) && !is_named(commits, path, true),
        provenance_of(commits, path) == StackReviewFileProvenance::Merge <==> is_named(
            commits,
            path,
            true,
        ) && !is_named(commits, path, false),
        provenance_of(commits, path) == StackReviewFileProvenance::Mixed <==> is_named(
            commits,
            path,
            true,
        ) && is_named(commits, path, false),
{
    lemma_is_named(commits, path, true);
    lemma_is_named(commits, path, false);
}

/// An entry is planned for exactly where it differs, is asked for, and is not named by merges alone.
pub proof fn planned_entries_are_those_asked_for(
    entries: Seq<TreeDiffEntry>,
    commits: Seq<FirstParentCommit>,
    included: Option<Map<Seq<char>, ()>>,
    planned: Seq<TreeDiffEntry>,
    entry: TreeDiffEntry,
)
    requires
        sorted_by_path(entries_in_diff(entries, commits, included), planned),
    ensures
        planned.contains(entry) <==> {
            &&& entries.contains(entry)
            &&& included is None || included->0.dom().contains(entry.path@)
            &&& !is_named(commits, entry.path@, true) || is_named(commits, entry.path@, false)
        },
{
    planned_diff_excludes_merge_only_files(entries, commits, included, planned, entry);
    lemma_is_named(commits, entry.path@, true);
    lemma_is_named(commits, entry.path@, false);
}

/// Planned entries come in the order of their paths, and each as often as it is among those that
/// differ.
pub proof fn planned_entries_come_in_order(
    entries: Seq<TreeDiffEntry>,
    commits: Seq<FirstParentCommit>,
    included: Option<Map<Seq<char>, ()>>,
    planned: Seq<TreeDiffEntry>,
    entry: TreeDiffEntry,
)
    requires
        sorted_by_path(entries_in_diff(entries, commits, included), planned),
        planned.contains(entry),
    ensures
        forall|i: int, j: int|
            0 <= i < j < planned.len() ==> path_le(
                (#[trigger] planned[i]).path@,
                (#[trigger] planned[j]).path@,
            ),
        planned.to_multiset().count(entry) == entries.to_multiset().count(entry),
{
    let kept = entries_in_diff(entries, commits, included);
    let order = choose|order: Seq<int>| #[trigger]
        is_ranking(order, kept.len(), entry_le(kept)) && planned == Seq::new(
            kept.len(),
            |i: int| kept[order[i]],
        );
    lemma_ranking_permutes(order, kept.len(), entry_le(kept));
    lemma_permuted_multiset(kept, order);
    planned_diff_excludes_merge_only_files(entries, commits, included, planned, entry);
    lemma_kept_count(entries, commits, included, entry);
    assert forall|i: int, j: int| 0 <= i < j < planned.len() implies path_le(
        (#[trigger] planned[i]).path@,
        (#[trigger] planned[j]).path@,
    ) by {
        assert(planned[i] == kept[order[i]]);
        assert(planned[j] == kept[order[j]]);
        assert(entry_le(kept)(order[i], order[j]));
    }
}

proof fn lemma_kept_count(
    entries: Seq<TreeDiffEntry>,
    commits: Seq<FirstParentCommit>,
    included: Option<Map<Seq<char>, ()>>,
    entry: TreeDiffEntry,
)
    requires
        crate::stack_diff::in_diff(commits, included, entry.path@),
    ensures
        entries_in_diff(entries, commits, included).to_multiset().count(entry)
            == entries.to_multiset().count(entry),
    decreases entries.len(),
{
    broadcast use vstd::seq_lib::group_to_multiset_ensures;

    if entries.len() > 0 {
        lemma_kept_count(entries.drop_last(), commits, included, entry);
        assert(entries.drop_last().push(entries.last()) =~= entries);
    } else {
        assert(entries_in_diff(entries, commits, included) =~= entries);
    }
}

/// A path comes before what lies below it, and whatever lies below one directory stays together: a
/// separator comes before any other character at the place where two paths part.
pub proof fn paths_part_at_their_components(
    common: Seq<char>,
    a: Seq<char>,
    b: Seq<char>,
    c: char,
    d: char,
)
    requires
        c != d,
    ensures
        path_le(common, common + a),
        path_le(common + a, common) <==> a.len() == 0,
        path_le(common + seq![c] + a, common + seq![d] + b) <==> c == '/' || (d != '/' && (c as int)
            < (d as int)),
    decreases common.len(),
{
    let left = common + seq![c] + a;
    let right = common + seq![d] + b;
    if common.len() > 0 {
        let rest = common.drop_first();
        paths_part_at_their_components(rest, a, b, c, d);
        assert((common + a).drop_first() =~= rest + a);
        assert(left.drop_first() =~= rest + seq![c] + a);
        assert(right.drop_first() =~= rest + seq![d] + b);
        assert((common + a)[0] == common[0]);
        assert(left[0] == common[0] && right[0] == common[0]);
    } else {
        assert(common + a =~= a);
        assert(left[0] == c && right[0] == d);
        assert(path_rank(c) < path_rank(d) <==> c == '/' || (d != '/' && (c as int) < (d as int)));
    }
}

/// A review of what happened since a time leaves out the commits before the first one of that time
/// or later, and no others: it begins at the head where no commit is of that time, and otherwise at
/// what lies directly below the first that is.
pub proof fn checkpoint_is_below_the_first_since(
    commits: Seq<FirstParentCommit>,
    author_timestamp: i64,
    at: int,
)
    requires
        is_first_since(commits, author_timestamp, at),
    ensures
        at == commits.len() <==> forall|k: int|
            0 <= k < commits.len() ==> (#[trigger] commits[k]).author_timestamp < author_timestamp,
        forall|k: int|
            0 <= k < commits.len() && (#[trigger] commits[k]).author_timestamp >= author_timestamp
                ==> at <= k,
        at < commits.len() ==> commits[at].author_timestamp >= author_timestamp,
{
}

/// Each file counts once, for its own provenance.
pub proof fn files_count_once(
    files: Seq<StackReviewFileDiff>,
    file: StackReviewFileDiff,
    provenance: StackReviewFileProvenance,
)
    ensures
        files_with(files, provenance) == files.filter(
            |f: StackReviewFileDiff| f.provenance == provenance,
        ).len(),
        files_with(files.push(file), provenance) == files_with(files, provenance) + if file.provenance
            == provenance {
            1int
        } else {
            0
        },
    decreases files.len(),
{
    reveal(Seq::filter);
    assert(files.push(file).drop_last() =~= files);
    if files.len() > 0 {
        files_count_once(files.drop_last(), file, provenance);
    }
}

} // verus!
