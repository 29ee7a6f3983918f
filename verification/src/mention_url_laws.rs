//! Laws on what URLs mention.

use crate::decimal::{decimal_text, decimal_text_reads_back};
use crate::mention::{LineRange, MentionView, RuleIdView};
use crate::mention_error::{plain_error, MentionErrorKind, MentionErrorView};
use crate::mention_laws::{writes_line, writes_lines, written_lines_are_read};
use crate::mention_parse::{
    diagnostics_mention, file_mention, is_bare_path, is_hyperlink_path, native_path, text_mention,
    unquoted, zed_path, PathWithPosition, ZedPath,
};
use crate::mention_path::{
    escaped_byte, has_shell_drive, has_url_drive, hex_value, is_small_letter, native_windows_path,
    unescaped, PathStyle,
};
use crate::mention_query::{line_range_of, query_value};
use crate::mention_round_trip::lemma_zed_path_letters;
use crate::mention_url::{url_parts, UrlView};
use vstd::prelude::*;
use vstd::string::*;
use vstd::utf8::{encode_utf8, valid_utf8};

verus! {

type Pairs = Seq<(Seq<char>, Seq<char>)>;

type Outcome = Result<MentionView, MentionErrorView>;

/// Whether a text is read as a URL.
pub open spec fn reads_as_url(input: Seq<char>, style: PathStyle, url: UrlView) -> bool {
    &&& !is_bare_path(unquoted(input), style)
    &&& url_parts(unquoted(input)) == Ok::<UrlView, Seq<char>>(url)
}

/// Whether a fragment writes the lines of a range, which are counted from zero.
pub open spec fn writes_range(fragment: Option<Seq<char>>, range: LineRange) -> bool {
    &&& range.start < u32::MAX
    &&& range.end < u32::MAX
    &&& fragment is Some
    &&& writes_lines(fragment->0, (range.start + 1) as u32, (range.end + 1) as u32) || (range.start
        == range.end && writes_line(fragment->0, (range.start + 1) as u32))
}

proof fn lemma_range(fragment: Option<Seq<char>>, range: LineRange)
    requires
        writes_range(fragment, range),
    ensures
        line_range_of(fragment->0) == Ok::<LineRange, MentionErrorKind>(range),
{
    written_lines_are_read(fragment->0, (range.start + 1) as u32, (range.end + 1) as u32);
}

proof fn lemma_schemes()
    ensures
        "zed"@ != "file"@,
        "http"@ != "file"@ && "http"@ != "zed"@,
        "https"@ != "file"@ && "https"@ != "zed"@,
{
    reveal_strlit("zed");
    reveal_strlit("file");
    reveal_strlit("http");
    reveal_strlit("https");
    assert("zed"@.len() == 3);
    assert("file"@.len() == 4 && "file"@[0] == 'f');
    assert("http"@.len() == 4 && "http"@[0] == 'h');
    assert("https"@.len() == 5);
}

proof fn lemma_not_prefix(path: Seq<char>, prefix: Seq<char>, k: int)
    requires
        0 <= k < prefix.len(),
        k < path.len(),
        path[k] != prefix[k],
    ensures
        !prefix.is_prefix_of(path),
        path != prefix,
{
    if prefix.is_prefix_of(path) {
        assert(path.subrange(0, prefix.len() as int)[k] == path[k]);
    }
}

/// The kinds that a path is not of, by its letters.
proof fn lemma_kinds(path: Seq<char>)
    requires
        path.len() > 8,
    ensures
        path[7] != 't' || path[8] != 'h' ==> !"/agent/thread/"@.is_prefix_of(path),
        path[7] != 'r' ==> !"/agent/rule/"@.is_prefix_of(path),
        path[7] != 'd' ==> path != "/agent/diagnostics"@,
        path[7] != 'd' ==> !"/agent/directory"@.is_prefix_of(path),
        path[7] != 'p' ==> !"/agent/pasted-image"@.is_prefix_of(path),
        path[7] != 'u' ==> !"/agent/untitled-buffer"@.is_prefix_of(path),
        path[7] != 's' || path[8] != 'y' ==> !"/agent/symbol/"@.is_prefix_of(path),
        path[7] != 'f' ==> !"/agent/file"@.is_prefix_of(path),
        path[7] != 's' || path[8] != 'e' ==> !"/agent/selection"@.is_prefix_of(path),
        path[7] != 't' || path[8] != 'e' ==> !"/agent/terminal-selection"@.is_prefix_of(path),
        path[7] != 'g' ==> !"/agent/git-diff"@.is_prefix_of(path),
        path[7] != 'm' ==> !"/agent/merge-conflict"@.is_prefix_of(path),
{
    lemma_zed_path_letters();
    if path[7] != 't' {
        lemma_not_prefix(path, "/agent/thread/"@, 7);
        lemma_not_prefix(path, "/agent/terminal-selection"@, 7);
    }
    if path[8] != 'h' {
        lemma_not_prefix(path, "/agent/thread/"@, 8);
    }
    if path[7] != 'r' {
        lemma_not_prefix(path, "/agent/rule/"@, 7);
    }
    if path[7] != 'd' {
        lemma_not_prefix(path, "/agent/diagnostics"@, 7);
        lemma_not_prefix(path, "/agent/directory"@, 7);
    }
    if path[7] != 'p' {
        lemma_not_prefix(path, "/agent/pasted-image"@, 7);
    }
    if path[7] != 'u' {
        lemma_not_prefix(path, "/agent/untitled-buffer"@, 7);
    }
    if path[7] != 's' {
        lemma_not_prefix(path, "/agent/symbol/"@, 7);
        lemma_not_prefix(path, "/agent/selection"@, 7);
    }
    if path[8] != 'y' {
        lemma_not_prefix(path, "/agent/symbol/"@, 8);
    }
    if path[8] != 'e' {
        lemma_not_prefix(path, "/agent/selection"@, 8);
        lemma_not_prefix(path, "/agent/terminal-selection"@, 8);
    }
    if path[7] != 'f' {
        lemma_not_prefix(path, "/agent/file"@, 7);
    }
    if path[7] != 'g' {
        lemma_not_prefix(path, "/agent/git-diff"@, 7);
    }
    if path[7] != 'm' {
        lemma_not_prefix(path, "/agent/merge-conflict"@, 7);
    }
}

/// What follows a kind in a path.
proof fn lemma_prefixed(prefix: Seq<char>, rest: Seq<char>)
    requires
        prefix.len() > 8,
    ensures
        prefix.is_prefix_of(prefix + rest),
        (prefix + rest).skip(prefix.len() as int) == rest,
        (prefix + rest).len() > 8,
        (prefix + rest)[7] == prefix[7],
        (prefix + rest)[8] == prefix[8],
{
    assert((prefix + rest).subrange(0, prefix.len() as int) =~= prefix);
    assert((prefix + rest).skip(prefix.len() as int) =~= rest);
}

proof fn lemma_of_kind(prefix: Seq<char>, rest: Seq<char>)
    requires
        prefix.len() > 8,
    ensures
        prefix == "/agent/thread/"@ ==> zed_path(prefix + rest) == ZedPath::Thread,
        prefix == "/agent/rule/"@ ==> zed_path(prefix + rest) == ZedPath::Rule,
        prefix == "/agent/pasted-image"@ ==> zed_path(prefix + rest) == ZedPath::PastedImage,
        prefix == "/agent/untitled-buffer"@ ==> zed_path(prefix + rest) == ZedPath::Untitled,
        prefix == "/agent/symbol/"@ ==> zed_path(prefix + rest) == ZedPath::Symbol,
        prefix == "/agent/file"@ ==> zed_path(prefix + rest) == ZedPath::File,
        prefix == "/agent/selection"@ ==> zed_path(prefix + rest) == ZedPath::Selection,
        prefix == "/agent/terminal-selection"@ ==> zed_path(prefix + rest) == ZedPath::Terminal,
        prefix == "/agent/git-diff"@ ==> zed_path(prefix + rest) == ZedPath::GitDiff,
        prefix == "/agent/merge-conflict"@ ==> zed_path(prefix + rest) == ZedPath::MergeConflict,
        prefix == "/agent/directory"@ ==> zed_path(prefix + rest) == ZedPath::Directory,
        zed_path("/agent/diagnostics"@) == ZedPath::Diagnostics,
{
    lemma_zed_path_letters();
    lemma_prefixed(prefix, rest);
    lemma_kinds(prefix + rest);
    lemma_kinds("/agent/diagnostics"@);
    if prefix == "/agent/directory"@ {
        reveal_strlit("/agent/directory");
        reveal_strlit("/agent/diagnostics");
        assert((prefix + rest)[9] == prefix[9]);
        lemma_not_prefix(prefix + rest, "/agent/diagnostics"@, 9);
    }
}

/// A query of one name and its value.
pub open spec fn pair(name: Seq<char>, value: Seq<char>) -> Pairs {
    seq![(name, value)]
}

/// A URL of a file or a directory of this application mentions the path that its query holds, and
/// needs one.
pub proof fn path_urls_mention_their_path(
    input: Seq<char>,
    style: PathStyle,
    position: PathWithPosition,
    url: UrlView,
    rest: Seq<char>,
    path: Seq<char>,
)
    requires
        reads_as_url(input, style, url),
        url.scheme == "zed"@,
    ensures
        url.path == "/agent/file"@ + rest && url.query == pair("path"@, path) ==> text_mention(
            input,
            style,
            position,
        ) == Outcome::Ok(MentionView::File { abs_path: path }),
        url.path == "/agent/file"@ + rest && url.query.len() == 0 ==> text_mention(
            input,
            style,
            position,
        ) == Outcome::Err(plain_error(MentionErrorKind::MissingFilePath)),
        url.path == "/agent/directory"@ + rest && url.query == pair("path"@, path)
            ==> text_mention(input, style, position) == Outcome::Ok(
            MentionView::Directory { abs_path: path },
        ),
        url.path == "/agent/directory"@ + rest && url.query.len() == 0 ==> text_mention(
            input,
            style,
            position,
        ) == Outcome::Err(plain_error(MentionErrorKind::MissingDirectoryPath)),
        url.path == "/agent/merge-conflict"@ + rest && url.query == pair("path"@, path)
            ==> text_mention(input, style, position) == Outcome::Ok(
            MentionView::MergeConflict { file_path: path },
        ),
{
    lemma_schemes();
    lemma_zed_path_letters();
    lemma_of_kind("/agent/file"@, rest);
    lemma_of_kind("/agent/directory"@, rest);
    lemma_of_kind("/agent/merge-conflict"@, rest);
}

/// The URL of a symbol mentions the symbol that its path names, in the file that its query holds,
/// from the first to the last of the lines that its fragment writes.
pub proof fn symbol_urls_mention_their_lines(
    input: Seq<char>,
    style: PathStyle,
    position: PathWithPosition,
    url: UrlView,
    name: Seq<char>,
    path: Seq<char>,
    range: LineRange,
)
    requires
        reads_as_url(input, style, url),
        url.scheme == "zed"@,
        url.path == "/agent/symbol/"@ + name,
        url.query == pair("path"@, path),
        writes_range(url.fragment, range),
    ensures
        text_mention(input, style, position) == Outcome::Ok(
            MentionView::Symbol { abs_path: path, name, line_range: range },
        ),
{
    lemma_schemes();
    lemma_zed_path_letters();
    lemma_of_kind("/agent/symbol/"@, name);
    lemma_prefixed("/agent/symbol/"@, name);
    lemma_range(url.fragment, range);
}

/// The URL of a selection mentions the lines that its fragment writes, from the first to the last, in
/// the file that its query holds, and the column that it holds, if it holds one.
pub proof fn selection_urls_mention_their_lines(
    input: Seq<char>,
    style: PathStyle,
    position: PathWithPosition,
    url: UrlView,
    rest: Seq<char>,
    path: Seq<char>,
    range: LineRange,
    column: u32,
)
    requires
        reads_as_url(input, style, url),
        url.scheme == "zed"@,
        writes_range(url.fragment, range),
        column < u32::MAX,
    ensures
        url.path == "/agent/selection"@ + rest && url.query == pair("path"@, path) ==> text_mention(
            input,
            style,
            position,
        ) == Outcome::Ok(
            MentionView::Selection { abs_path: Some(path), line_range: range, column: None },
        ),
        url.path == "/agent/selection"@ + rest && url.query == seq![
            ("path"@, path),
            ("column"@, decimal_text((column + 1) as nat)),
        ] ==> text_mention(input, style, position) == Outcome::Ok(
            MentionView::Selection { abs_path: Some(path), line_range: range, column: Some(column) },
        ),
        url.path == "/agent/untitled-buffer"@ + rest && url.query.len() == 0 ==> text_mention(
            input,
            style,
            position,
        ) == Outcome::Ok(
            MentionView::Selection { abs_path: None, line_range: range, column: None },
        ),
        url.path == "/agent/untitled-buffer"@ + rest && url.query == pair(
            "column"@,
            decimal_text((column + 1) as nat),
        ) ==> text_mention(input, style, position) == Outcome::Ok(
            MentionView::Selection { abs_path: None, line_range: range, column: Some(column) },
        ),
{
    lemma_schemes();
    lemma_zed_path_letters();
    lemma_of_kind("/agent/selection"@, rest);
    lemma_of_kind("/agent/untitled-buffer"@, rest);
    lemma_range(url.fragment, range);
    decimal_text_reads_back((column + 1) as u32);
    reveal_strlit("path");
    reveal_strlit("column");
    assert("path"@.len() == 4);
    assert("column"@.len() == 6);
    reveal_with_fuel(query_value, 3);
    if url.query.len() == 2 {
        assert(url.query.drop_first()[0] == url.query[1]);
        assert(url.query.drop_first().drop_first().len() == 0);
    } else if url.query.len() == 1 {
        assert(url.query.drop_first().len() == 0);
    }
}

/// A URL with one value mentions that value, and what stands for it where it has none: an image that
/// has a name, lines of a terminal, a diff against a branch.
pub proof fn value_urls_mention_their_value(
    input: Seq<char>,
    style: PathStyle,
    position: PathWithPosition,
    url: UrlView,
    rest: Seq<char>,
    value: Seq<char>,
    lines: u32,
)
    requires
        reads_as_url(input, style, url),
        url.scheme == "zed"@,
    ensures
        url.path == "/agent/pasted-image"@ + rest && url.query == pair("name"@, value)
            ==> text_mention(input, style, position) == Outcome::Ok(
            MentionView::PastedImage { name: value },
        ),
        url.path == "/agent/pasted-image"@ + rest && url.query.len() == 0 ==> text_mention(
            input,
            style,
            position,
        ) == Outcome::Ok(MentionView::PastedImage { name: "Image"@ }),
        url.path == "/agent/terminal-selection"@ + rest && url.query == pair(
            "lines"@,
            decimal_text(lines as nat),
        ) ==> text_mention(input, style, position) == Outcome::Ok(
            MentionView::TerminalSelection { line_count: lines },
        ),
        url.path == "/agent/terminal-selection"@ + rest && url.query.len() == 0 ==> text_mention(
            input,
            style,
            position,
        ) == Outcome::Ok(MentionView::TerminalSelection { line_count: 0 }),
        url.path == "/agent/git-diff"@ + rest && url.query == pair("base"@, value) ==> text_mention(
            input,
            style,
            position,
        ) == Outcome::Ok(MentionView::GitDiff { base_ref: value }),
        url.path == "/agent/git-diff"@ + rest && url.query.len() == 0 ==> text_mention(
            input,
            style,
            position,
        ) == Outcome::Ok(MentionView::GitDiff { base_ref: "main"@ }),
        url.path == "/agent/thread/"@ + rest && url.query == pair("name"@, value) ==> text_mention(
            input,
            style,
            position,
        ) == Outcome::Ok(MentionView::Thread { id: rest, name: value }),
        url.path == "/agent/thread/"@ + rest && url.query.len() == 0 ==> text_mention(
            input,
            style,
            position,
        ) == Outcome::Err(plain_error(MentionErrorKind::MissingThreadName)),
        url.path == "/agent/rule/"@ + rest && rest.len() > 0 && url.query == pair("name"@, value)
            ==> text_mention(input, style, position) == Outcome::Ok(
            MentionView::Rule { id: RuleIdView::User(rest), name: value },
        ),
{
    lemma_schemes();
    lemma_zed_path_letters();
    lemma_of_kind("/agent/pasted-image"@, rest);
    lemma_of_kind("/agent/terminal-selection"@, rest);
    lemma_of_kind("/agent/git-diff"@, rest);
    lemma_of_kind("/agent/thread/"@, rest);
    lemma_of_kind("/agent/rule/"@, rest);
    lemma_prefixed("/agent/thread/"@, rest);
    lemma_prefixed("/agent/rule/"@, rest);
    decimal_text_reads_back(lines);
    reveal_strlit("0");
    assert("0"@ =~= decimal_text(0)) by {
        reveal_with_fuel(decimal_text, 2);
    }
    decimal_text_reads_back(0);
}

/// A query of two values, or more, is not one of a kind that has one.
pub proof fn one_value_is_enough(
    input: Seq<char>,
    style: PathStyle,
    position: PathWithPosition,
    url: UrlView,
    rest: Seq<char>,
)
    requires
        reads_as_url(input, style, url),
        url.scheme == "zed"@,
        url.path == "/agent/file"@ + rest || url.path == "/agent/directory"@ + rest || url.path
            == "/agent/git-diff"@ + rest || url.path == "/agent/pasted-image"@ + rest || url.path
            == "/agent/terminal-selection"@ + rest || url.path == "/agent/merge-conflict"@ + rest
            || url.path == "/agent/thread/"@ + rest || url.path == "/agent/rule/"@ + rest,
        url.query.len() > 1,
    ensures
        text_mention(input, style, position) == Outcome::Err(
            plain_error(MentionErrorKind::TooManyQueryPairs),
        ),
{
    lemma_schemes();
    lemma_zed_path_letters();
    lemma_of_kind("/agent/file"@, rest);
    lemma_of_kind("/agent/directory"@, rest);
    lemma_of_kind("/agent/git-diff"@, rest);
    lemma_of_kind("/agent/pasted-image"@, rest);
    lemma_of_kind("/agent/terminal-selection"@, rest);
    lemma_of_kind("/agent/merge-conflict"@, rest);
    lemma_of_kind("/agent/thread/"@, rest);
    lemma_of_kind("/agent/rule/"@, rest);
}

/// A URL of the web is mentioned as it is, and a scheme that is not known is refused.
pub proof fn web_urls_are_fetched(
    input: Seq<char>,
    style: PathStyle,
    position: PathWithPosition,
    url: UrlView,
)
    requires
        reads_as_url(input, style, url),
    ensures
        url.scheme == "http"@ || url.scheme == "https"@ ==> text_mention(input, style, position)
            == Outcome::Ok(MentionView::Fetch { url: url.text }),
        url.scheme != "http"@ && url.scheme != "https"@ && url.scheme != "zed"@ && url.scheme
            != "file"@ ==> text_mention(input, style, position) == Outcome::Err(
            MentionErrorView { kind: MentionErrorKind::UnrecognizedScheme, detail: url.scheme },
        ),
{
    lemma_schemes();
}

/// The URL of a file mentions the lines that its fragment writes, from the first to the last, as
/// those of the symbol that its query names, if it names one, and else with the column that it
/// holds, if it holds one. A fragment that writes none stands for the second line. Without a
/// fragment it mentions a directory where it ends with a slash, and else the file.
pub proof fn file_urls_mention_their_lines(
    input: Seq<char>,
    url: UrlView,
    path: Seq<char>,
    range: LineRange,
    name: Seq<char>,
    column: u32,
)
    requires
        column < u32::MAX,
    ensures
        writes_range(url.fragment, range) && url.query.len() == 0 ==> file_mention(input, url, path)
            == Outcome::Ok(
            MentionView::Selection { abs_path: Some(path), line_range: range, column: None },
        ),
        writes_range(url.fragment, range) && url.query == pair(
            "column"@,
            decimal_text((column + 1) as nat),
        ) ==> file_mention(input, url, path) == Outcome::Ok(
            MentionView::Selection { abs_path: Some(path), line_range: range, column: Some(column) },
        ),
        writes_range(url.fragment, range) && url.query == pair("symbol"@, name) ==> file_mention(
            input,
            url,
            path,
        ) == Outcome::Ok(MentionView::Symbol { abs_path: path, name, line_range: range }),
        url.fragment is Some && line_range_of(url.fragment->0) is Err && url.query.len() == 0
            ==> file_mention(input, url, path) == Outcome::Ok(
            MentionView::Selection {
                abs_path: Some(path),
                line_range: LineRange { start: 1, end: 1 },
                column: None,
            },
        ),
        url.fragment is None && input.len() > 0 && input.last() == '/' ==> file_mention(
            input,
            url,
            path,
        ) == Outcome::Ok(MentionView::Directory { abs_path: path }),
        url.fragment is None && (input.len() == 0 || input.last() != '/') ==> file_mention(
            input,
            url,
            path,
        ) == Outcome::Ok(MentionView::File { abs_path: path }),
{
    if writes_range(url.fragment, range) {
        lemma_range(url.fragment, range);
    }
    decimal_text_reads_back((column + 1) as u32);
    reveal_strlit("symbol");
    reveal_strlit("column");
    reveal_strlit("/");
    assert("symbol"@.len() == 6 && "symbol"@[0] == 's');
    assert("column"@.len() == 6 && "column"@[0] == 'c');
    assert("/"@.len() == 1 && "/"@[0] == '/');
    reveal_with_fuel(query_value, 2);
    if url.query.len() == 1 {
        assert(url.query.drop_first().len() == 0);
    }
    if input.len() > 0 {
        let end = input.subrange(input.len() - 1, input.len() as int);
        assert(end[0] == input.last());
        assert(end =~= "/"@ <==> input.last() == '/');
    }
}

/// Diagnostics are mentioned with the errors and without the warnings unless the query says
/// otherwise; the later of two values under one name counts.
pub proof fn diagnostics_are_as_the_query_says(
    pairs: Pairs,
    value: Seq<char>,
    errors: bool,
    warnings: bool,
)
    requires
        diagnostics_mention(pairs, true, false) == Outcome::Ok(
            MentionView::Diagnostics { include_errors: errors, include_warnings: warnings },
        ),
    ensures
        diagnostics_mention(pairs.push(("include_errors"@, value)), true, false) == Outcome::Ok(
            MentionView::Diagnostics {
                include_errors: value == "true"@,
                include_warnings: warnings,
            },
        ),
        diagnostics_mention(pairs.push(("include_warnings"@, value)), true, false) == Outcome::Ok(
            MentionView::Diagnostics {
                include_errors: errors,
                include_warnings: value == "true"@,
            },
        ),
        diagnostics_mention(Seq::empty(), true, false) == Outcome::Ok(
            MentionView::Diagnostics { include_errors: true, include_warnings: false },
        ),
{
    lemma_diagnostics(pairs, value, true, false, errors, warnings);
}

proof fn lemma_diagnostics(
    pairs: Pairs,
    value: Seq<char>,
    first: bool,
    second: bool,
    errors: bool,
    warnings: bool,
)
    requires
        diagnostics_mention(pairs, first, second) == Outcome::Ok(
            MentionView::Diagnostics { include_errors: errors, include_warnings: warnings },
        ),
    ensures
        diagnostics_mention(pairs.push(("include_errors"@, value)), first, second) == Outcome::Ok(
            MentionView::Diagnostics {
                include_errors: value == "true"@,
                include_warnings: warnings,
            },
        ),
        diagnostics_mention(pairs.push(("include_warnings"@, value)), first, second)
            == Outcome::Ok(
            MentionView::Diagnostics {
                include_errors: errors,
                include_warnings: value == "true"@,
            },
        ),
    decreases pairs.len(),
{
    reveal_strlit("include_errors");
    reveal_strlit("include_warnings");
    assert("include_errors"@.len() == 14);
    assert("include_warnings"@.len() == 16);
    let one = pairs.push(("include_errors"@, value));
    let two = pairs.push(("include_warnings"@, value));
    if pairs.len() == 0 {
        reveal_with_fuel(diagnostics_mention, 2);
        assert(one.drop_first().len() == 0);
        assert(two.drop_first().len() == 0);
    } else {
        let rest = pairs.drop_first();
        assert(one.drop_first() =~= rest.push(("include_errors"@, value)));
        assert(two.drop_first() =~= rest.push(("include_warnings"@, value)));
        assert(one[0] == pairs[0] && two[0] == pairs[0]);
        if pairs[0].0 == "include_warnings"@ {
            lemma_diagnostics(rest, value, first, pairs[0].1 == "true"@, errors, warnings);
        } else {
            lemma_diagnostics(rest, value, pairs[0].1 == "true"@, second, errors, warnings);
        }
    }
}

/// The value under a name is the first that stands under it.
pub proof fn the_first_value_counts(pairs: Pairs, name: Seq<char>, k: int)
    requires
        0 <= k <= pairs.len(),
        forall|j: int| 0 <= j < k ==> (#[trigger] pairs[j]).0 != name,
        k < pairs.len() ==> pairs[k].0 == name,
    ensures
        query_value(pairs, name) == if k < pairs.len() {
            Some(pairs[k].1)
        } else {
            None
        },
    decreases k,
{
    if k > 0 {
        let rest = pairs.drop_first();
        assert forall|j: int| 0 <= j < k - 1 implies (#[trigger] rest[j]).0 != name by {
            assert(rest[j] == pairs[j + 1]);
        }
        assert(pairs[0].0 != name);
        the_first_value_counts(rest, name, k - 1);
    }
}

/// Bytes without a percent sign are kept as they are, wherever they stand, and so is an escape of a
/// separator; any other escape is read as the byte that its two digits write.
pub proof fn escapes_are_read_as_their_bytes(
    before: Seq<u8>,
    high: u8,
    low: u8,
    after: Seq<u8>,
    x: int,
    y: int,
)
    requires
        !before.contains(0x25u8),
        hex_value(high) == Some(x),
        hex_value(low) == Some(y),
    ensures
        0 <= x * 16 + y < 256,
        unescaped(before) == before,
        unescaped(before + after) == before + unescaped(after),
        x * 16 + y != 0x2F && x * 16 + y != 0x5C ==> unescaped(
            before + seq![0x25u8, high, low] + after,
        ) == before + seq![(x * 16 + y) as u8] + unescaped(after),
        x * 16 + y == 0x2F || x * 16 + y == 0x5C ==> unescaped(
            before + seq![0x25u8, high, low] + after,
        ) == before + seq![0x25u8, high, low] + unescaped(after),
{
    lemma_kept(before, after);
    lemma_kept(before, Seq::empty());
    assert(before + Seq::<u8>::empty() =~= before);
    assert(unescaped(Seq::<u8>::empty()) =~= Seq::<u8>::empty());
    let escape = seq![0x25u8, high, low];
    let tail = escape + after;
    assert(before + escape + after =~= before + tail);
    lemma_kept(before, tail);
    assert(tail[0] == 0x25u8 && tail[1] == high && tail[2] == low);
    assert(tail.skip(3) =~= after);
    if x * 16 + y != 0x2F && x * 16 + y != 0x5C {
        assert(escaped_byte(tail) == Some((x * 16 + y) as u8));
        assert(before + (seq![(x * 16 + y) as u8] + unescaped(after)) =~= before + seq![
            (x * 16 + y) as u8,
        ] + unescaped(after));
    } else {
        let digits = seq![high, low] + after;
        assert(tail.skip(1) =~= digits);
        assert(high != 0x25 && low != 0x25);
        assert(!seq![high, low].contains(0x25u8));
        lemma_kept(seq![high, low], after);
        assert(unescaped(tail) == seq![0x25u8] + unescaped(digits));
        assert(before + (seq![0x25u8] + (seq![high, low] + unescaped(after))) =~= before + escape
            + unescaped(after));
    }
}

proof fn lemma_kept(before: Seq<u8>, after: Seq<u8>)
    requires
        !before.contains(0x25u8),
    ensures
        unescaped(before + after) == before + unescaped(after),
    decreases before.len(),
{
    let whole = before + after;
    if before.len() == 0 {
        assert(whole =~= after);
        assert(before + unescaped(after) =~= unescaped(after));
    } else {
        let rest = before.drop_first();
        assert forall|k: int| 0 <= k < rest.len() implies rest[k] != 0x25u8 by {
            assert(before.contains(before[k + 1]));
        }
        assert(before.contains(before[0]));
        assert(whole[0] == before[0]);
        assert(whole.skip(1) =~= rest + after);
        lemma_kept(rest, after);
        assert(unescaped(whole) =~= before + unescaped(after));
    }
}

/// Sixteen digits write the numbers below sixteen, the letters among them be they capital or not.
pub proof fn digits_write_their_numbers(digit: u8, n: int)
    ensures
        0 <= n < 10 ==> hex_value((0x30 + n) as u8) == Some(n),
        0 <= n < 6 ==> hex_value((0x61 + n) as u8) == Some(10 + n) && hex_value((0x41 + n) as u8)
            == Some(10 + n),
        hex_value(digit) matches Some(value) ==> 0 <= value < 16,
{
}

/// A hyperlink on Unix spells its path with the escapes in it decoded, where that is asked for and
/// gives a text, and else as it stands.
pub proof fn hyperlinks_spell_their_path(path: Seq<char>, decode: bool, spelled: Seq<char>)
    requires
        is_hyperlink_path(path, PathStyle::Unix, decode, spelled),
    ensures
        !decode ==> spelled == path,
        decode && valid_utf8(unescaped(encode_utf8(path))) ==> encode_utf8(spelled) == unescaped(
            encode_utf8(path),
        ),
        decode && !valid_utf8(unescaped(encode_utf8(path))) ==> spelled == path,
        !encode_utf8(path).contains(0x25u8) ==> spelled == path,
{
    let bytes = encode_utf8(path);
    if !bytes.contains(0x25u8) {
        lemma_kept(bytes, Seq::empty());
        assert(bytes + Seq::<u8>::empty() =~= bytes);
        assert(unescaped(Seq::<u8>::empty()) =~= Seq::<u8>::empty());
        assert(unescaped(bytes) =~= bytes);
        vstd::utf8::encode_utf8_decode_utf8(path);
        vstd::utf8::encode_utf8_decode_utf8(spelled);
        vstd::utf8::encode_utf8_valid_utf8(path);
    }
}

/// A path as Windows spells it holds no slash, and its drive is a capital where it was spelled as in a
/// URL or as a shell does.
pub proof fn windows_paths_hold_no_slash(path: Seq<char>)
    ensures
        !native_path(path, PathStyle::Windows).contains('/'),
        native_path(path, PathStyle::Unix) == path,
        has_url_drive(path) ==> native_path(path, PathStyle::Windows).len() == path.len() - 1
            && native_path(path, PathStyle::Windows)[1] == ':' && !is_small_letter(
            native_path(path, PathStyle::Windows)[0],
        ),
        !has_url_drive(path) && has_shell_drive(path) ==> native_path(path, PathStyle::Windows).len()
            == path.len() && native_path(path, PathStyle::Windows)[1] == ':' && !is_small_letter(
            native_path(path, PathStyle::Windows)[0],
        ),
{
    let native = native_path(path, PathStyle::Windows);
    assert forall|k: int| 0 <= k < native.len() implies native[k] != '/' by {
        if native_windows_path(path) is None {
            assert(native == path);
            if native[k] == '/' {
                assert(path.contains(path[k]));
            }
        }
    }
}

} // verus!
