//! Mentions read back from the URLs that stand for them.

use crate::decimal::{decimal_text, decimal_text_reads_back, is_digit, lemma_decimal_text};
use crate::mention::{
    mention_side_word, LineRange, MentionUri, MentionView, RuleIdView, StackReviewMentionSide,
    StackReviewView,
};
use crate::mention_error::MentionErrorView;
use crate::mention_parse::{
    canonical, decoded_file_path, is_bare_path, native_path, text_mention, unquoted, url_mention,
    without_leading_slashes, zed_path, PathWithPosition, ZedPath,
};
use crate::mention_path::{
    backslashed, capital, is_plain_relative_path, is_separator, is_small_letter,
    native_windows_path, PathStyle,
};
use crate::mention_query::{line_range_of, query_value, without_prefix};
use crate::mention_uri::{
    directory_path, has_uri, lines_fragment, mention_uri_text, optional_pair, review_query,
    uri_plan,
};
use crate::mention_url::{
    is_base_url, is_drive_path, is_kept_path, is_verbatim_fragment, is_verbatim_path, reads_back,
    reads_drive_back, slashed, url_parts, write_url, write_url_with_query,
};
use crate::stack_review_query::{
    is_review_name, lemma_side_words, name_problem, named_before, review_of_query, review_problem,
};
use crate::text::{lemma_first_of, occurs_at, split_at_first};
use vstd::prelude::*;
use vstd::string::*;

verus! {

type Pairs = Seq<(Seq<char>, Seq<char>)>;

/// Whether a review can be mentioned: what identifies it is there; its path is relative; lines are
/// counted from one and need a path; a review as a whole has neither; and record ids come in
/// pairs.
pub open spec fn review_is_valid(review: StackReviewView) -> bool {
    &&& review.storage_key.len() > 0
    &&& review.project_identity.len() > 0
    &&& review.base_oid.len() > 0
    &&& review.head_oid.len() > 0
    &&& review.path matches Some(path) ==> is_plain_relative_path(path)
    &&& review.line_range matches Some(range) ==> 0 < range.start <= range.end && review.path is Some
    &&& review.side == StackReviewMentionSide::TopLevel ==> review.path is None
    &&& review.selected_record_id is Some == review.root_record_id is Some
    &&& review.selected_record_id matches Some(id) ==> id.len() > 0
    &&& review.root_record_id matches Some(id) ==> id.len() > 0
}

/// A path on Windows as it is spelled there: with its drive as a capital and with backslashes.
pub open spec fn native_drive_path(path: Seq<char>) -> Seq<char> {
    seq![capital(path[0]), ':'] + backslashed(path.skip(2))
}

/// What a path is read as from the URL of a file, where a URL keeps it.
pub open spec fn path_read_back(path: Seq<char>, style: PathStyle) -> Option<Seq<char>> {
    match style {
        PathStyle::Unix => if is_kept_path(path) {
            Some(path)
        } else {
            None
        },
        PathStyle::Windows => if is_drive_path(path) {
            Some(native_drive_path(path))
        } else {
            None
        },
    }
}

/// What the URL of a mention is read as, where its path is one that a URL keeps, an id stands in a
/// path as it is, and a review can be mentioned: the mention itself, but that a directory ends with
/// a separator and that paths on Windows are spelled as they are there.
pub open spec fn read_back_as(mention: MentionView, style: PathStyle) -> Option<MentionView> {
    match mention {
        MentionView::File { abs_path } => match path_read_back(abs_path, style) {
            Some(path) if !is_separator(abs_path.last()) => Some(
                MentionView::File { abs_path: path },
            ),
            _ => None,
        },
        MentionView::Directory { abs_path } => match path_read_back(
            directory_path(abs_path),
            style,
        ) {
            Some(path) => Some(MentionView::Directory { abs_path: path }),
            None => None,
        },
        MentionView::Symbol { abs_path, name, line_range } => match path_read_back(
            abs_path,
            style,
        ) {
            Some(path) => Some(MentionView::Symbol { abs_path: path, name, line_range }),
            None => None,
        },
        MentionView::Selection { abs_path: Some(abs_path), line_range, column } =>
            match path_read_back(abs_path, style) {
                Some(path) => Some(
                    MentionView::Selection { abs_path: Some(path), line_range, column },
                ),
                None => None,
            },
        MentionView::Thread { id, .. } => if is_verbatim_path("/agent/thread/"@ + id) {
            Some(mention)
        } else {
            None
        },
        MentionView::Rule { id: RuleIdView::User(uuid), .. } => if uuid.len() > 0
            && is_verbatim_path("/agent/rule/"@ + uuid) {
            Some(mention)
        } else {
            None
        },
        MentionView::Rule { id: RuleIdView::Other { .. }, .. } => None,
        MentionView::Fetch { .. } => None,
        MentionView::StackReview(review) => if review_is_valid(review) {
            Some(mention)
        } else {
            None
        },
        _ => Some(mention),
    }
}

/// A path that is spelled as Windows does, with its drive as a capital, comes back as it is.
pub proof fn native_path_comes_back(path: Seq<char>)
    requires
        is_drive_path(path),
        !is_small_letter(path[0]),
        !path.contains('/'),
    ensures
        path_read_back(path, PathStyle::Windows) == Some(path),
{
    let native = native_drive_path(path);
    assert forall|i: int| 0 <= i < path.len() implies native[i] == path[i] by {
        assert(path[i] != '/');
        if i >= 2 {
            assert(native[i] == backslashed(path.skip(2))[i - 2]);
        }
    }
    assert(native =~= path);
}

/// A URL of ours is no bare path and has no backticks around it.
proof fn lemma_url_is_url(text: Seq<char>, base: Seq<char>, style: PathStyle)
    requires
        is_base_url(base),
        base.is_prefix_of(text),
    ensures
        unquoted(text) == text,
        !is_bare_path(text, style),
{
    reveal_strlit("zed:///");
    reveal_strlit("file:///");
    reveal_strlit("://");
    reveal_strlit("`");
    assert("://"@.len() == 3);
    assert("`"@.len() == 1);
    assert("zed:///"@.len() == 7);
    assert("file:///"@.len() == 8);
    assert(text.subrange(0, base.len() as int) == base);
    assert(text[0] == base[0]);
    assert(text.subrange(0, 1)[0] == text[0]);
    assert("`"@[0] == '`');
    let at: int = base.len() - 4;
    assert(text[at] == base[at] && text[at + 1] == base[at + 1] && text[at + 2] == base[at + 2]);
    assert(text.subrange(at, at + 3) =~= "://"@);
    assert(occurs_at(text, "://"@, at));
}

/// A range of lines is read back from its fragment.
proof fn lemma_lines_read_back(range: LineRange)
    requires
        range.start < u32::MAX,
        range.end < u32::MAX,
    ensures
        line_range_of(lines_fragment(range)) == Ok::<LineRange, crate::mention_error::MentionErrorKind>(
            range,
        ),
        is_verbatim_fragment(lines_fragment(range)),
{
    let start = decimal_text((range.start + 1) as nat);
    let end = decimal_text((range.end + 1) as nat);
    let fragment = lines_fragment(range);
    reveal_strlit("L");
    reveal_strlit(":");
    assert("L"@.len() == 1 && "L"@[0] == 'L');
    assert(":"@.len() == 1 && ":"@[0] == ':');
    lemma_decimal_text((range.start + 1) as nat);
    lemma_decimal_text((range.end + 1) as nat);
    decimal_text_reads_back((range.start + 1) as u32);
    decimal_text_reads_back((range.end + 1) as u32);
    let rest = start + ":"@ + end;
    assert(fragment =~= "L"@ + rest);
    assert(fragment.subrange(0, 1) =~= "L"@);
    assert(fragment.skip(1) =~= rest);
    assert(without_prefix(fragment, "L"@) == rest);
    assert(rest[start.len() as int] == ':');
    assert forall|k: int| 0 <= k < start.len() implies rest[k] != ':' by {
        assert(rest[k] == start[k]);
        assert(is_digit(start[k]));
    }
    lemma_first_of(rest, ':', start.len() as int);
    assert(rest.contains(':'));
    assert(rest.take(start.len() as int) =~= start);
    assert(rest.skip((start.len() + 1) as int) =~= end);
    assert(split_at_first(rest, ':') == Some((start, end)));
    assert forall|i: int| 0 <= i < fragment.len() implies crate::mention_url::is_unreserved(
        #[trigger] fragment[i],
    ) || fragment[i] == ':' by {
        if i == 0 {
        } else if i < 1 + start.len() {
            assert(fragment[i] == start[i - 1]);
            assert(is_digit(start[i - 1]));
        } else if i > 1 + start.len() {
            assert(fragment[i] == end[i - 2 - start.len()]);
            assert(is_digit(end[i - 2 - start.len()]));
        }
    }
}

/// A column is read back from its query.
proof fn lemma_column_reads_back(column: Option<u32>)
    requires
        column matches Some(column) ==> column < u32::MAX,
    ensures
        crate::mention_query::column_of(
            query_value(crate::mention_uri::column_query(column), "column"@),
        ) == column,
        query_value(crate::mention_uri::column_query(column), "symbol"@) is None,
{
    reveal_strlit("column");
    reveal_strlit("symbol");
    assert("column"@[0] == 'c');
    assert("symbol"@[0] == 's');
    let query = crate::mention_uri::column_query(column);
    match column {
        Some(column) => {
            decimal_text_reads_back((column + 1) as u32);
            assert(query.drop_first() =~= Seq::empty());
            assert(query_value(query.drop_first(), "symbol"@) is None);
        },
        None => {},
    }
}

proof fn lemma_differs_at(path: Seq<char>, prefix: Seq<char>, at: int)
    requires
        0 <= at < prefix.len(),
        at < path.len(),
        path[at] != prefix[at],
    ensures
        !prefix.is_prefix_of(path),
        path != prefix,
{
    if prefix.is_prefix_of(path) {
        assert(path.subrange(0, prefix.len() as int)[at] == path[at]);
    }
}

/// The kinds of this application's URLs are told apart by their paths.
proof fn lemma_zed_paths()
    ensures
        zed_path("/agent/diagnostics"@) == ZedPath::Diagnostics,
        zed_path("/agent/pasted-image"@) == ZedPath::PastedImage,
        zed_path("/agent/untitled-buffer"@) == ZedPath::Untitled,
        zed_path("/agent/terminal-selection"@) == ZedPath::Terminal,
        zed_path("/agent/git-diff"@) == ZedPath::GitDiff,
        zed_path("/agent/merge-conflict"@) == ZedPath::MergeConflict,
        zed_path("/agent/skill"@) == ZedPath::Skill,
        zed_path("/agent/stack-review"@) == ZedPath::StackReview,
        is_verbatim_path("/agent/diagnostics"@),
        is_verbatim_path("/agent/pasted-image"@),
        is_verbatim_path("/agent/untitled-buffer"@),
        is_verbatim_path("/agent/terminal-selection"@),
        is_verbatim_path("/agent/git-diff"@),
        is_verbatim_path("/agent/merge-conflict"@),
        is_verbatim_path("/agent/skill"@),
        is_verbatim_path("/agent/stack-review"@),
{
    lemma_zed_path_letters();
    let thread = "/agent/thread/"@;
    let rule = "/agent/rule/"@;
    let diagnostics = "/agent/diagnostics"@;
    let image = "/agent/pasted-image"@;
    let untitled = "/agent/untitled-buffer"@;
    let symbol = "/agent/symbol/"@;
    let file = "/agent/file"@;
    let directory = "/agent/directory"@;
    let selection = "/agent/selection"@;
    let terminal = "/agent/terminal-selection"@;
    let git = "/agent/git-diff"@;
    let merge = "/agent/merge-conflict"@;
    let skill = "/agent/skill"@;
    let review = "/agent/stack-review"@;
    lemma_differs_at(diagnostics, thread, 7);
    lemma_differs_at(diagnostics, rule, 7);
    lemma_differs_at(image, thread, 7);
    lemma_differs_at(image, rule, 7);
    lemma_differs_at(image, diagnostics, 7);
    lemma_differs_at(untitled, thread, 7);
    lemma_differs_at(untitled, rule, 7);
    lemma_differs_at(untitled, diagnostics, 7);
    lemma_differs_at(untitled, image, 7);
    lemma_differs_at(terminal, thread, 8);
    lemma_differs_at(terminal, rule, 7);
    lemma_differs_at(terminal, diagnostics, 7);
    lemma_differs_at(terminal, image, 7);
    lemma_differs_at(terminal, untitled, 7);
    lemma_differs_at(terminal, symbol, 7);
    lemma_differs_at(terminal, file, 7);
    lemma_differs_at(terminal, directory, 7);
    lemma_differs_at(terminal, selection, 7);
    lemma_differs_at(git, thread, 7);
    lemma_differs_at(git, rule, 7);
    lemma_differs_at(git, diagnostics, 7);
    lemma_differs_at(git, image, 7);
    lemma_differs_at(git, untitled, 7);
    lemma_differs_at(git, symbol, 7);
    lemma_differs_at(git, file, 7);
    lemma_differs_at(git, directory, 7);
    lemma_differs_at(git, selection, 7);
    lemma_differs_at(git, terminal, 7);
    lemma_differs_at(merge, thread, 7);
    lemma_differs_at(merge, rule, 7);
    lemma_differs_at(merge, diagnostics, 7);
    lemma_differs_at(merge, image, 7);
    lemma_differs_at(merge, untitled, 7);
    lemma_differs_at(merge, symbol, 7);
    lemma_differs_at(merge, file, 7);
    lemma_differs_at(merge, directory, 7);
    lemma_differs_at(merge, selection, 7);
    lemma_differs_at(merge, terminal, 7);
    lemma_differs_at(merge, git, 7);
    lemma_differs_at(skill, thread, 7);
    lemma_differs_at(skill, rule, 7);
    lemma_differs_at(skill, diagnostics, 7);
    lemma_differs_at(skill, image, 7);
    lemma_differs_at(skill, untitled, 7);
    lemma_differs_at(skill, symbol, 8);
    lemma_differs_at(skill, file, 7);
    lemma_differs_at(skill, directory, 7);
    lemma_differs_at(skill, selection, 8);
    lemma_differs_at(skill, terminal, 7);
    lemma_differs_at(skill, git, 7);
    lemma_differs_at(skill, merge, 7);
    lemma_differs_at(review, thread, 7);
    lemma_differs_at(review, rule, 7);
    lemma_differs_at(review, diagnostics, 7);
    lemma_differs_at(review, image, 7);
    lemma_differs_at(review, untitled, 7);
    lemma_differs_at(review, symbol, 8);
    lemma_differs_at(review, file, 7);
    lemma_differs_at(review, directory, 7);
    lemma_differs_at(review, selection, 8);
    lemma_differs_at(review, terminal, 7);
    lemma_differs_at(review, git, 7);
    lemma_differs_at(review, merge, 7);
    lemma_differs_at(review, skill, 8);
    lemma_verbatim_paths();
    assert(image.subrange(0, image.len() as int) =~= image);
    assert(untitled.subrange(0, untitled.len() as int) =~= untitled);
    assert(terminal.subrange(0, terminal.len() as int) =~= terminal);
    assert(git.subrange(0, git.len() as int) =~= git);
    assert(merge.subrange(0, merge.len() as int) =~= merge);
    assert(skill.subrange(0, skill.len() as int) =~= skill);
}

proof fn lemma_verbatim_paths()
    ensures
        is_verbatim_path("/agent/diagnostics"@),
        is_verbatim_path("/agent/pasted-image"@),
        is_verbatim_path("/agent/untitled-buffer"@),
        is_verbatim_path("/agent/terminal-selection"@),
        is_verbatim_path("/agent/git-diff"@),
        is_verbatim_path("/agent/merge-conflict"@),
        is_verbatim_path("/agent/skill"@),
        is_verbatim_path("/agent/stack-review"@),
{
    reveal_strlit("/agent/diagnostics");
    assert("/agent/diagnostics"@.len() == 18);
    assert(is_verbatim_path("/agent/diagnostics"@));
    reveal_strlit("/agent/pasted-image");
    assert("/agent/pasted-image"@.len() == 19);
    assert(is_verbatim_path("/agent/pasted-image"@));
    reveal_strlit("/agent/untitled-buffer");
    assert("/agent/untitled-buffer"@.len() == 22);
    assert(is_verbatim_path("/agent/untitled-buffer"@));
    reveal_strlit("/agent/terminal-selection");
    assert("/agent/terminal-selection"@.len() == 25);
    assert(is_verbatim_path("/agent/terminal-selection"@));
    reveal_strlit("/agent/git-diff");
    assert("/agent/git-diff"@.len() == 15);
    assert(is_verbatim_path("/agent/git-diff"@));
    reveal_strlit("/agent/merge-conflict");
    assert("/agent/merge-conflict"@.len() == 21);
    assert(is_verbatim_path("/agent/merge-conflict"@));
    reveal_strlit("/agent/skill");
    assert("/agent/skill"@.len() == 12);
    assert(is_verbatim_path("/agent/skill"@));
    reveal_strlit("/agent/stack-review");
    assert("/agent/stack-review"@.len() == 19);
    assert(is_verbatim_path("/agent/stack-review"@));
}

/// The letters by which the paths differ.
pub(crate) proof fn lemma_zed_path_letters()
    ensures
        "/agent/thread/"@.len() == 14 && "/agent/thread/"@[7] == 't' && "/agent/thread/"@[8] == 'h',
        "/agent/rule/"@.len() == 12 && "/agent/rule/"@[7] == 'r',
        "/agent/diagnostics"@.len() == 18 && "/agent/diagnostics"@[7] == 'd',
        "/agent/pasted-image"@.len() == 19 && "/agent/pasted-image"@[7] == 'p',
        "/agent/untitled-buffer"@.len() == 22 && "/agent/untitled-buffer"@[7] == 'u',
        "/agent/symbol/"@.len() == 14 && "/agent/symbol/"@[7] == 's' && "/agent/symbol/"@[8] == 'y',
        "/agent/file"@.len() == 11 && "/agent/file"@[7] == 'f',
        "/agent/directory"@.len() == 16 && "/agent/directory"@[7] == 'd',
        "/agent/selection"@.len() == 16 && "/agent/selection"@[7] == 's' && "/agent/selection"@[8]
            == 'e',
        "/agent/terminal-selection"@.len() == 25 && "/agent/terminal-selection"@[7] == 't'
            && "/agent/terminal-selection"@[8] == 'e',
        "/agent/git-diff"@.len() == 15 && "/agent/git-diff"@[7] == 'g',
        "/agent/merge-conflict"@.len() == 21 && "/agent/merge-conflict"@[7] == 'm',
        "/agent/skill"@.len() == 12 && "/agent/skill"@[7] == 's' && "/agent/skill"@[8] == 'k',
        "/agent/stack-review"@.len() == 19 && "/agent/stack-review"@[7] == 's'
            && "/agent/stack-review"@[8] == 't',
{
    reveal_strlit("/agent/thread/");
    reveal_strlit("/agent/rule/");
    reveal_strlit("/agent/diagnostics");
    reveal_strlit("/agent/pasted-image");
    reveal_strlit("/agent/untitled-buffer");
    reveal_strlit("/agent/symbol/");
    reveal_strlit("/agent/file");
    reveal_strlit("/agent/directory");
    reveal_strlit("/agent/selection");
    reveal_strlit("/agent/terminal-selection");
    reveal_strlit("/agent/git-diff");
    reveal_strlit("/agent/merge-conflict");
    reveal_strlit("/agent/skill");
    reveal_strlit("/agent/stack-review");
}

/// Where a name stands in a review's query.
spec fn name_rank(name: Seq<char>) -> int {
    if name == "storage_key"@ {
        0
    } else if name == "project"@ {
        1
    } else if name == "base"@ {
        2
    } else if name == "head"@ {
        3
    } else if name == "side"@ {
        4
    } else if name == "path"@ {
        5
    } else if name == "line_start"@ {
        6
    } else if name == "line_end"@ {
        7
    } else if name == "selected"@ {
        8
    } else if name == "root"@ {
        9
    } else {
        10
    }
}

proof fn lemma_name_ranks()
    ensures
        name_rank("storage_key"@) == 0,
        name_rank("project"@) == 1,
        name_rank("base"@) == 2,
        name_rank("head"@) == 3,
        name_rank("side"@) == 4,
        name_rank("path"@) == 5,
        name_rank("line_start"@) == 6,
        name_rank("line_end"@) == 7,
        name_rank("selected"@) == 8,
        name_rank("root"@) == 9,
{
    reveal_strlit("storage_key");
    reveal_strlit("project");
    reveal_strlit("base");
    reveal_strlit("head");
    reveal_strlit("side");
    reveal_strlit("path");
    reveal_strlit("line_start");
    reveal_strlit("line_end");
    reveal_strlit("selected");
    reveal_strlit("root");
    assert("storage_key"@.len() == 11);
    assert("project"@.len() == 7);
    assert("base"@.len() == 4 && "base"@[0] == 'b');
    assert("head"@.len() == 4 && "head"@[0] == 'h');
    assert("side"@.len() == 4 && "side"@[0] == 's');
    assert("path"@.len() == 4 && "path"@[0] == 'p');
    assert("line_start"@.len() == 10);
    assert("line_end"@.len() == 8 && "line_end"@[0] == 'l');
    assert("selected"@.len() == 8 && "selected"@[0] == 's');
    assert("root"@.len() == 4 && "root"@[0] == 'r');
}

/// The names of a query ascend, from rank `low` on and below rank `high`.
spec fn names_ascend(pairs: Pairs, low: int, high: int) -> bool {
    &&& forall|i: int| 0 <= i < pairs.len() ==> low <= name_rank((#[trigger] pairs[i]).0) < high
    &&& forall|i: int, j: int|
        #![trigger pairs[i], pairs[j]]
        0 <= i < j < pairs.len() ==> name_rank(pairs[i].0) < name_rank(pairs[j].0)
}

proof fn lemma_names_append(a: Pairs, b: Pairs, low: int, mid: int, high: int)
    requires
        names_ascend(a, low, mid),
        names_ascend(b, mid, high),
        low <= mid <= high,
    ensures
        names_ascend(a + b, low, high),
{
    let both = a + b;
    assert forall|i: int| 0 <= i < both.len() implies low <= name_rank((#[trigger] both[i]).0)
        < high by {
        if i < a.len() {
            assert(both[i] == a[i]);
        } else {
            assert(both[i] == b[i - a.len()]);
        }
    }
    assert forall|i: int, j: int|
        #![trigger both[i], both[j]]
        0 <= i < j < both.len() implies name_rank(both[i].0) < name_rank(both[j].0) by {
        if j < a.len() {
            assert(both[i] == a[i]);
            assert(both[j] == a[j]);
        } else if i >= a.len() {
            assert(both[i] == b[i - a.len()]);
            assert(both[j] == b[j - a.len()]);
        } else {
            assert(both[i] == a[i]);
            assert(both[j] == b[j - a.len()]);
        }
    }
}

proof fn lemma_query_append(a: Pairs, b: Pairs, name: Seq<char>)
    ensures
        query_value(a + b, name) == match query_value(a, name) {
            Some(value) => Some(value),
            None => query_value(b, name),
        },
    decreases a.len(),
{
    if a.len() == 0 {
        assert(a + b =~= b);
    } else {
        assert((a + b)[0] == a[0]);
        assert((a + b).drop_first() =~= a.drop_first() + b);
        lemma_query_append(a.drop_first(), b, name);
    }
}

proof fn lemma_absent_name(pairs: Pairs, low: int, high: int, name: Seq<char>)
    requires
        names_ascend(pairs, low, high),
        !(low <= name_rank(name) < high),
    ensures
        query_value(pairs, name) is None,
    decreases pairs.len(),
{
    if pairs.len() > 0 {
        assert(low <= name_rank(pairs[0].0) < high);
        let rest = pairs.drop_first();
        assert forall|i: int| 0 <= i < rest.len() implies low <= name_rank((#[trigger] rest[i]).0)
            < high by {
            assert(rest[i] == pairs[i + 1]);
        }
        assert forall|i: int, j: int|
            #![trigger rest[i], rest[j]]
            0 <= i < j < rest.len() implies name_rank(rest[i].0) < name_rank(rest[j].0) by {
            assert(rest[i] == pairs[i + 1]);
            assert(rest[j] == pairs[j + 1]);
        }
        lemma_absent_name(rest, low, high, name);
    }
}

proof fn lemma_ascending_names_are_fine(pairs: Pairs, from: int)
    requires
        names_ascend(pairs, 0, 10),
        0 <= from <= pairs.len(),
    ensures
        name_problem(pairs, from) is None,
    decreases pairs.len() - from,
{
    if from < pairs.len() {
        lemma_name_ranks();
        assert(0 <= name_rank(pairs[from].0) < 10);
        assert(is_review_name(pairs[from].0));
        if named_before(pairs, pairs[from].0, from) {
            let k = choose|k: int| 0 <= k < from && (#[trigger] pairs[k]).0 == pairs[from].0;
            assert(name_rank(pairs[k].0) < name_rank(pairs[from].0));
        }
        lemma_ascending_names_are_fine(pairs, from + 1);
    }
}

proof fn lemma_optional_pair(name: Seq<char>, value: Option<Seq<char>>)
    ensures
        names_ascend(optional_pair(name, value), name_rank(name), name_rank(name) + 1),
        query_value(optional_pair(name, value), name) == value,
{
}

spec fn lines_query(range: Option<LineRange>) -> Pairs {
    match range {
        Some(range) => seq![
            ("line_start"@, decimal_text(range.start as nat)),
            ("line_end"@, decimal_text(range.end as nat)),
        ],
        None => Seq::empty(),
    }
}

/// What the query of a review holds.
proof fn lemma_review_query(review: StackReviewView)
    ensures
        names_ascend(review_query(review), 0, 10),
        query_value(review_query(review), "storage_key"@) == Some(review.storage_key),
        query_value(review_query(review), "project"@) == Some(review.project_identity),
        query_value(review_query(review), "base"@) == Some(review.base_oid),
        query_value(review_query(review), "head"@) == Some(review.head_oid),
        query_value(review_query(review), "side"@) == Some(mention_side_word(review.side)),
        query_value(review_query(review), "path"@) == review.path,
        query_value(review_query(review), "line_start"@) == match review.line_range {
            Some(range) => Some(decimal_text(range.start as nat)),
            None => None,
        },
        query_value(review_query(review), "line_end"@) == match review.line_range {
            Some(range) => Some(decimal_text(range.end as nat)),
            None => None,
        },
        query_value(review_query(review), "selected"@) == review.selected_record_id,
        query_value(review_query(review), "root"@) == review.root_record_id,
{
    lemma_name_ranks();
    let head: Pairs = seq![
        ("storage_key"@, review.storage_key),
        ("project"@, review.project_identity),
        ("base"@, review.base_oid),
        ("head"@, review.head_oid),
        ("side"@, mention_side_word(review.side)),
    ];
    let path = optional_pair("path"@, review.path);
    let lines = lines_query(review.line_range);
    let selected = optional_pair("selected"@, review.selected_record_id);
    let root = optional_pair("root"@, review.root_record_id);
    assert(names_ascend(head, 0, 5));
    lemma_optional_pair("path"@, review.path);
    assert(names_ascend(lines, 6, 8));
    lemma_optional_pair("selected"@, review.selected_record_id);
    lemma_optional_pair("root"@, review.root_record_id);
    lemma_names_append(head, path, 0, 5, 6);
    lemma_names_append(head + path, lines, 0, 6, 8);
    lemma_names_append(head + path + lines, selected, 0, 8, 9);
    lemma_names_append(head + path + lines + selected, root, 0, 9, 10);
    assert(review_query(review) =~= head + path + lines + selected + root);
    lemma_head_values(review, head);
    lemma_lines_values(review.line_range);
    lemma_pieces(head, path, lines, selected, root, "storage_key"@);
    lemma_pieces(head, path, lines, selected, root, "project"@);
    lemma_pieces(head, path, lines, selected, root, "base"@);
    lemma_pieces(head, path, lines, selected, root, "head"@);
    lemma_pieces(head, path, lines, selected, root, "side"@);
    lemma_pieces(head, path, lines, selected, root, "path"@);
    lemma_pieces(head, path, lines, selected, root, "line_start"@);
    lemma_pieces(head, path, lines, selected, root, "line_end"@);
    lemma_pieces(head, path, lines, selected, root, "selected"@);
    lemma_pieces(head, path, lines, selected, root, "root"@);
}

proof fn lemma_head_values(review: StackReviewView, head: Pairs)
    requires
        head == seq![
            ("storage_key"@, review.storage_key),
            ("project"@, review.project_identity),
            ("base"@, review.base_oid),
            ("head"@, review.head_oid),
            ("side"@, mention_side_word(review.side)),
        ],
    ensures
        query_value(head, "storage_key"@) == Some(review.storage_key),
        query_value(head, "project"@) == Some(review.project_identity),
        query_value(head, "base"@) == Some(review.base_oid),
        query_value(head, "head"@) == Some(review.head_oid),
        query_value(head, "side"@) == Some(mention_side_word(review.side)),
{
    lemma_name_ranks();
    reveal_with_fuel(query_value, 6);
    let one = head.drop_first();
    let two = one.drop_first();
    let three = two.drop_first();
    let four = three.drop_first();
    assert(one[0] == head[1]);
    assert(two[0] == head[2]);
    assert(three[0] == head[3]);
    assert(four[0] == head[4]);
}

proof fn lemma_lines_values(range: Option<LineRange>)
    ensures
        query_value(lines_query(range), "line_start"@) == match range {
            Some(range) => Some(decimal_text(range.start as nat)),
            None => None,
        },
        query_value(lines_query(range), "line_end"@) == match range {
            Some(range) => Some(decimal_text(range.end as nat)),
            None => None,
        },
{
    lemma_name_ranks();
    reveal_with_fuel(query_value, 3);
    if range is Some {
        let rest = lines_query(range).drop_first();
        assert(rest[0] == lines_query(range)[1]);
    }
}

/// A name is looked up in the one piece of a query that it belongs to.
proof fn lemma_pieces(
    head: Pairs,
    path: Pairs,
    lines: Pairs,
    selected: Pairs,
    root: Pairs,
    name: Seq<char>,
)
    requires
        names_ascend(head, 0, 5),
        names_ascend(path, 5, 6),
        names_ascend(lines, 6, 8),
        names_ascend(selected, 8, 9),
        names_ascend(root, 9, 10),
        0 <= name_rank(name) < 10,
    ensures
        query_value(head + path + lines + selected + root, name) == {
            let rank = name_rank(name);
            if rank < 5 {
                query_value(head, name)
            } else if rank < 6 {
                query_value(path, name)
            } else if rank < 8 {
                query_value(lines, name)
            } else if rank < 9 {
                query_value(selected, name)
            } else {
                query_value(root, name)
            }
        },
{
    lemma_query_append(head, path, name);
    lemma_query_append(head + path, lines, name);
    lemma_query_append(head + path + lines, selected, name);
    lemma_query_append(head + path + lines + selected, root, name);
    if !(name_rank(name) < 5) {
        lemma_absent_name(head, 0, 5, name);
    }
    if name_rank(name) != 5 {
        lemma_absent_name(path, 5, 6, name);
    }
    if !(6 <= name_rank(name) < 8) {
        lemma_absent_name(lines, 6, 8, name);
    }
    if name_rank(name) != 8 {
        lemma_absent_name(selected, 8, 9, name);
    }
    if name_rank(name) != 9 {
        lemma_absent_name(root, 9, 10, name);
    }
}

/// A review that can be mentioned is read back from its query.
proof fn lemma_review_reads_back(review: StackReviewView)
    requires
        review_is_valid(review),
    ensures
        name_problem(review_query(review), 0) is None,
        review_problem(review_query(review)) is None,
        review_of_query(review_query(review)) == review,
{
    let query = review_query(review);
    lemma_review_query(review);
    lemma_ascending_names_are_fine(query, 0);
    lemma_side_words();
    match review.line_range {
        Some(range) => {
            decimal_text_reads_back(range.start);
            decimal_text_reads_back(range.end);
        },
        None => {},
    }
    assert(review_of_query(query) =~= review);
}

/// What is known of a URL that was written from a mention and read again.
spec fn was_written(mention: MentionView, text: Seq<char>) -> bool {
    let plan = uri_plan(mention);
    &&& has_uri(mention)
    &&& text == mention_uri_text(mention)
    &&& is_base_url(plan.base)
    &&& plan.base.is_prefix_of(text)
    &&& plan.query.len() == 0 && plan.fragment is None ==> (text.last() == '/') == is_separator(
        plan.path.last(),
    )
    &&& if is_kept_path(plan.path) {
        reads_back(url_parts(text), text, plan.base, plan.path, plan.query, plan.fragment)
    } else {
        is_drive_path(plan.path) && plan.base == "file:///"@ && reads_drive_back(
            url_parts(text),
            text,
            plan.base,
            plan.path,
            plan.query,
            plan.fragment,
        )
    }
}

/// The path of a file's URL of ours is read back.
proof fn lemma_path_reads_back(mention: MentionView, text: Seq<char>, style: PathStyle)
    requires
        was_written(mention, text),
        uri_plan(mention).base == "file:///"@,
        path_read_back(uri_plan(mention).path, style) is Some,
    ensures
        url_parts(text) is Ok,
        decoded_file_path(url_parts(text)->Ok_0, style) is Some,
        native_path(decoded_file_path(url_parts(text)->Ok_0, style)->0, style) == path_read_back(
            uri_plan(mention).path,
            style,
        )->0,
{
    lemma_schemes();
    let path = uri_plan(mention).path;
    let url = url_parts(text)->Ok_0;
    if style == PathStyle::Windows {
        assert(!is_kept_path(path));
        assert(url.path.drop_first() =~= url.path.skip(1));
        assert(url.path.skip(1)[0] == url.path[1]);
        assert(without_leading_slashes(url.path) == without_leading_slashes(url.path.drop_first()));
        assert(without_leading_slashes(url.path.skip(1)) == url.path.skip(1));
        let read = slashed(path);
        assert(read[0] == path[0] && read[1] == path[1] && read[2] == '/');
        assert(read.contains('/'));
        assert(native_windows_path(read) == Some(seq![capital(read[0]), ':'] + backslashed(read.skip(2))));
        assert(backslashed(read.skip(2)) =~= backslashed(path.skip(2))) by {
            assert forall|i: int| 0 <= i < path.len() - 2 implies #[trigger] backslashed(
                read.skip(2),
            )[i] == backslashed(path.skip(2))[i] by {
                assert(read.skip(2)[i] == read[i + 2]);
                assert(path.skip(2)[i] == path[i + 2]);
            }
        }
    }
}

/// A URL of ours is read as a URL.
proof fn lemma_read_as_url(
    mention: MentionView,
    text: Seq<char>,
    style: PathStyle,
    position: PathWithPosition,
)
    requires
        was_written(mention, text),
    ensures
        text_mention(text, style, position) == {
            let url = url_parts(text)->Ok_0;
            canonical(url_mention(text, url, decoded_file_path(url, style), style), text)
        },
        url_parts(text)->Ok_0.scheme == (if uri_plan(mention).base == "zed:///"@ {
            "zed"@
        } else {
            "file"@
        }),
        "zed"@ != "file"@,
        "/"@.is_suffix_of(text) == (text.last() == '/'),
{
    let plan = uri_plan(mention);
    lemma_url_is_url(text, plan.base, style);
    lemma_schemes();
    reveal_strlit("/");
    assert("/"@.len() == 1 && "/"@[0] == '/');
    reveal_strlit("zed:///");
    reveal_strlit("file:///");
    assert("zed:///"@.len() == 7);
    assert("file:///"@.len() == 8);
    assert(text.len() > 0);
    assert(text.subrange(text.len() - 1, text.len() as int)[0] == text.last());
    if text.last() == '/' {
        assert(text.subrange(text.len() - 1, text.len() as int) =~= "/"@);
    }
}

proof fn lemma_file_reads_back(
    mention: MentionView,
    text: Seq<char>,
    style: PathStyle,
    position: PathWithPosition,
)
    requires
        was_written(mention, text),
        read_back_as(mention, style) is Some,
        mention is File || mention is Directory,
    ensures
        text_mention(text, style, position) == Ok::<MentionView, MentionErrorView>(
            read_back_as(mention, style)->0,
        ),
{
    lemma_read_as_url(mention, text, style, position);
    lemma_schemes();
    lemma_path_reads_back(mention, text, style);
    if let MentionView::Directory { abs_path } = mention {
        lemma_directory_ends(abs_path);
    }
}

/// The path of a directory ends with a separator.
proof fn lemma_directory_ends(abs_path: Seq<char>)
    ensures
        directory_path(abs_path).len() > 0,
        is_separator(directory_path(abs_path).last()),
{
    reveal_strlit("/");
    reveal_strlit("\\");
    assert("/"@.len() == 1 && "/"@[0] == '/');
    assert("\\"@.len() == 1 && "\\"@[0] == '\\');
    if "/"@.is_suffix_of(abs_path) {
        assert(abs_path.subrange(abs_path.len() - 1, abs_path.len() as int)[0] == abs_path.last());
    } else if "\\"@.is_suffix_of(abs_path) {
        assert(abs_path.subrange(abs_path.len() - 1, abs_path.len() as int)[0] == abs_path.last());
    }
}

proof fn lemma_symbol_reads_back(
    mention: MentionView,
    text: Seq<char>,
    style: PathStyle,
    position: PathWithPosition,
)
    requires
        was_written(mention, text),
        read_back_as(mention, style) is Some,
        mention is Symbol,
    ensures
        text_mention(text, style, position) == Ok::<MentionView, MentionErrorView>(
            read_back_as(mention, style)->0,
        ),
{
    let plan = uri_plan(mention);
    lemma_read_as_url(mention, text, style, position);
    lemma_schemes();
    lemma_path_reads_back(mention, text, style);
    lemma_lines_read_back(mention->Symbol_line_range);
    assert(plan.query[0].0 == "symbol"@);
    assert(query_value(plan.query, "symbol"@) == Some(mention->Symbol_name));
}

proof fn lemma_selection_reads_back(
    mention: MentionView,
    text: Seq<char>,
    style: PathStyle,
    position: PathWithPosition,
)
    requires
        was_written(mention, text),
        read_back_as(mention, style) is Some,
        mention is Selection,
    ensures
        text_mention(text, style, position) == Ok::<MentionView, MentionErrorView>(
            read_back_as(mention, style)->0,
        ),
{
    lemma_read_as_url(mention, text, style, position);
    lemma_schemes();
    lemma_lines_read_back(mention->Selection_line_range);
    lemma_column_reads_back(mention->Selection_column);
    if mention->Selection_abs_path is None {
        lemma_zed_paths();
    } else {
        lemma_path_reads_back(mention, text, style);
    }
}

proof fn lemma_id_reads_back(
    mention: MentionView,
    text: Seq<char>,
    style: PathStyle,
    position: PathWithPosition,
)
    requires
        was_written(mention, text),
        read_back_as(mention, style) is Some,
        mention is Thread || mention is Rule,
    ensures
        text_mention(text, style, position) == Ok::<MentionView, MentionErrorView>(
            read_back_as(mention, style)->0,
        ),
{
    lemma_read_as_url(mention, text, style, position);
    lemma_schemes();
    lemma_zed_path_letters();
    match mention {
        MentionView::Thread { id, name } => {
            let path = "/agent/thread/"@ + id;
            assert(path.subrange(0, 14) =~= "/agent/thread/"@);
            assert(path.skip(14) =~= id);
        },
        MentionView::Rule { id, name } => {
            let uuid = id->User_0;
            let path = "/agent/rule/"@ + uuid;
            assert(path.subrange(0, 12) =~= "/agent/rule/"@);
            assert(path.skip(12) =~= uuid);
            assert(path[7] == 'r');
            lemma_differs_at(path, "/agent/thread/"@, 7);
        },
        _ => {},
    }
}

proof fn lemma_other_reads_back(
    mention: MentionView,
    text: Seq<char>,
    style: PathStyle,
    position: PathWithPosition,
)
    requires
        was_written(mention, text),
        read_back_as(mention, style) is Some,
        mention is PastedImage || mention is Diagnostics || mention is TerminalSelection || mention
            is GitDiff || mention is MergeConflict || mention is Skill || mention is StackReview,
    ensures
        text_mention(text, style, position) == Ok::<MentionView, MentionErrorView>(
            read_back_as(mention, style)->0,
        ),
{
    lemma_read_as_url(mention, text, style, position);
    lemma_schemes();
    lemma_zed_paths();
    match mention {
        MentionView::Diagnostics { include_errors, include_warnings } => {
            lemma_diagnostics_read_back(include_errors, include_warnings);
        },
        MentionView::TerminalSelection { line_count } => {
            decimal_text_reads_back(line_count);
        },
        MentionView::Skill { name, source, skill_file_path } => {
            lemma_skill_reads_back(name, source, skill_file_path);
        },
        MentionView::StackReview(review) => {
            lemma_review_reads_back(review);
        },
        _ => {},
    }
}

/// What is written from a mention and read as its parts is read as the mention.
proof fn lemma_reads_back(
    mention: MentionView,
    text: Seq<char>,
    style: PathStyle,
    position: PathWithPosition,
)
    requires
        was_written(mention, text),
        read_back_as(mention, style) is Some,
    ensures
        text_mention(text, style, position) == Ok::<MentionView, MentionErrorView>(
            read_back_as(mention, style)->0,
        ),
{
    match mention {
        MentionView::File { .. } => lemma_file_reads_back(mention, text, style, position),
        MentionView::Directory { .. } => lemma_file_reads_back(mention, text, style, position),
        MentionView::Symbol { .. } => lemma_symbol_reads_back(mention, text, style, position),
        MentionView::Selection { .. } => lemma_selection_reads_back(mention, text, style, position),
        MentionView::Thread { .. } => lemma_id_reads_back(mention, text, style, position),
        MentionView::Rule { .. } => lemma_id_reads_back(mention, text, style, position),
        MentionView::Fetch { .. } => {},
        _ => lemma_other_reads_back(mention, text, style, position),
    }
}

proof fn lemma_schemes()
    ensures
        "zed:///"@.take("zed:///"@.len() - 4) == "zed"@,
        "file:///"@.take("file:///"@.len() - 4) == "file"@,
        "zed"@ != "file"@,
{
    reveal_strlit("zed:///");
    reveal_strlit("file:///");
    reveal_strlit("zed");
    reveal_strlit("file");
    assert("zed"@.len() == 3);
    assert("file"@.len() == 4);
    assert("zed:///"@.take("zed:///"@.len() - 4) =~= "zed"@);
    assert("file:///"@.take("file:///"@.len() - 4) =~= "file"@);
}

proof fn lemma_diagnostics_read_back(include_errors: bool, include_warnings: bool)
    ensures
        crate::mention_parse::diagnostics_mention(
            crate::mention_uri::diagnostics_query(include_errors, include_warnings),
            true,
            false,
        ) == Ok::<MentionView, MentionErrorView>(
            MentionView::Diagnostics { include_errors, include_warnings },
        ),
{
    reveal_strlit("include_warnings");
    reveal_strlit("include_errors");
    reveal_strlit("true");
    reveal_strlit("false");
    assert("include_warnings"@.len() == 16);
    assert("include_errors"@.len() == 14);
    assert("true"@.len() == 4);
    assert("false"@.len() == 5);
    let query = crate::mention_uri::diagnostics_query(include_errors, include_warnings);
    reveal_with_fuel(crate::mention_parse::diagnostics_mention, 3);
    if query.len() > 0 {
        let rest = query.drop_first();
        if rest.len() > 0 {
            assert(rest[0] == query[1]);
            assert(rest.drop_first().len() == 0);
        }
    }
}

proof fn lemma_skill_reads_back(name: Seq<char>, source: Seq<char>, path: Seq<char>)
    ensures
        crate::mention_parse::skill_mention(
            seq![("name"@, name), ("source"@, source), ("path"@, path)],
        ) == Ok::<MentionView, MentionErrorView>(
            MentionView::Skill { name, source, skill_file_path: path },
        ),
{
    reveal_strlit("name");
    reveal_strlit("source");
    reveal_strlit("path");
    assert("name"@.len() == 4 && "name"@[0] == 'n');
    assert("source"@.len() == 6);
    assert("path"@.len() == 4 && "path"@[0] == 'p');
    let query: Pairs = seq![("name"@, name), ("source"@, source), ("path"@, path)];
    reveal_with_fuel(crate::mention_parse::skill_name_problem, 4);
    reveal_with_fuel(query_value, 4);
    let one = query.drop_first();
    let two = one.drop_first();
    assert(one[0] == query[1]);
    assert(two[0] == query[2]);
    assert(!named_before(query, "name"@, 0));
    assert(!named_before(query, "source"@, 1));
    assert(!named_before(query, "path"@, 2));
}

/// A text that is taken to mention a review is, apart from backticks around it, the URL that
/// stands for that mention.
pub proof fn accepted_review_is_canonical(
    input: Seq<char>,
    style: PathStyle,
    position: PathWithPosition,
    review: StackReviewView,
)
    requires
        text_mention(input, style, position) == Ok::<MentionView, MentionErrorView>(
            MentionView::StackReview(review),
        ),
    ensures
        mention_uri_text(MentionView::StackReview(review)) == unquoted(input),
        has_uri(MentionView::StackReview(review)),
{
    reveal_strlit("/agent/stack-review");
}

impl MentionUri {
    /// The URL that stands for the mention. It is read back wherever its parts are ones that a URL
    /// keeps; a mention of a review always is.
    pub fn to_uri(&self) -> (uri: String)
        requires
            has_uri(self@),
        ensures
            uri@ == mention_uri_text(self@),
            forall|style: PathStyle, position: PathWithPosition|
                #![trigger text_mention(uri@, style, position)]
                read_back_as(self@, style) matches Some(mention) ==> text_mention(
                    uri@,
                    style,
                    position,
                ) == Ok::<MentionView, MentionErrorView>(mention),
    {
        match self {
            MentionUri::Fetch { url } => return url.clone(),
            _ => {},
        }
        let plan = self.uri_plan();
        let ghost mention = self@;
        let fragment = match &plan.fragment {
            Some(fragment) => Some(fragment.as_str()),
            None => None,
        };
        assert(plan@.query.len() == plan.query@.len());
        assert(plan.query@.len() < 0x1000);
        proof {
            lemma_zed_paths();
            if exists|style: PathStyle| read_back_as(mention, style) is Some {
                lemma_written_path_kept(mention);
            }
        }
        let uri = if plan.query.len() == 0 {
            assert(crate::mention_url::pair_views(plan.query@) =~= Seq::empty());
            write_url(plan.base.as_str(), plan.path.as_str(), fragment)
        } else {
            write_url_with_query(plan.base.as_str(), plan.path.as_str(), &plan.query, fragment)
        };
        proof {
            assert forall|style: PathStyle, position: PathWithPosition|
                #![trigger text_mention(uri@, style, position)]
                read_back_as(mention, style) is Some implies text_mention(uri@, style, position)
                == Ok::<MentionView, MentionErrorView>(read_back_as(mention, style)->0) by {
                lemma_reads_back(mention, uri@, style, position);
            }
        }
        uri
    }
}

/// The path of a URL that is read back is one that a URL keeps.
proof fn lemma_written_path_kept(mention: MentionView)
    requires
        exists|style: PathStyle| read_back_as(mention, style) is Some,
    ensures
        is_kept_path(uri_plan(mention).path) || (is_drive_path(uri_plan(mention).path) && uri_plan(
            mention,
        ).base == "file:///"@),
{
    lemma_zed_paths();
}

} // verus!
