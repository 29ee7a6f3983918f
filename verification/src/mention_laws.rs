//! Laws on what texts mention.

use crate::decimal::{decimal_text, decimal_text_reads_back, is_digit, lemma_decimal_text};
use crate::mention::{LineRange, MentionView};
use crate::mention_error::{MentionErrorKind, MentionErrorView};
use crate::mention_parse::{
    bare_path_of, file_mention, is_bare_path, is_hyperlink_mention, is_hyperlink_path,
    path_and_fragment, path_mention, text_mention, unquoted, PathWithPosition,
};
use crate::mention_path::{is_absolute_path, PathStyle};
use crate::mention_query::{line_range_of, query_value, without_prefix};
use crate::mention_url::UrlView;
use crate::text::{lemma_first_of, occurs, occurs_at, split_at_first};
use vstd::prelude::*;
use vstd::string::*;

verus! {

/// The fragments that write two lines, counted from one: `L5:9`, `L5-9`, `L5-L9`, and each of them
/// without the `L` before it.
pub open spec fn writes_lines(fragment: Seq<char>, first: u32, last: u32) -> bool {
    let a = decimal_text(first as nat);
    let b = decimal_text(last as nat);
    ||| fragment == "L"@ + a + ":"@ + b
    ||| fragment == "L"@ + a + "-"@ + b
    ||| fragment == "L"@ + a + "-L"@ + b
    ||| fragment == a + ":"@ + b
    ||| fragment == a + "-"@ + b
    ||| fragment == a + "-L"@ + b
}

/// The fragments that write one line, counted from one: `L5` and `5`.
pub open spec fn writes_line(fragment: Seq<char>, line: u32) -> bool {
    ||| fragment == "L"@ + decimal_text(line as nat)
    ||| fragment == decimal_text(line as nat)
}

proof fn lemma_marks()
    ensures
        "L"@.len() == 1 && "L"@[0] == 'L',
        ":"@.len() == 1 && ":"@[0] == ':',
        "-"@.len() == 1 && "-"@[0] == '-',
        "-L"@.len() == 2 && "-L"@[0] == '-' && "-L"@[1] == 'L',
        "#"@.len() == 1 && "#"@[0] == '#',
        "`"@.len() == 1 && "`"@[0] == '`',
        "://"@.len() == 3 && "://"@[0] == ':' && "://"@[1] == '/' && "://"@[2] == '/',
{
    reveal_strlit("L");
    reveal_strlit(":");
    reveal_strlit("-");
    reveal_strlit("-L");
    reveal_strlit("#");
    reveal_strlit("`");
    reveal_strlit("://");
}

/// What follows an `L`, and what has none before it.
proof fn lemma_without_mark(text: Seq<char>)
    requires
        text.len() > 0,
        is_digit(text[0]),
    ensures
        without_prefix("L"@ + text, "L"@) == text,
        without_prefix(text, "L"@) == text,
{
    lemma_marks();
    assert(("L"@ + text).subrange(0, 1) =~= "L"@);
    assert(("L"@ + text).skip(1) =~= text);
    assert(text.subrange(0, 1)[0] == text[0]);
}

pub(crate) proof fn lemma_splits_at(before: Seq<char>, c: char, after: Seq<char>)
    requires
        !before.contains(c),
    ensures
        split_at_first(before + seq![c] + after, c) == Some((before, after)),
{
    let whole = before + seq![c] + after;
    let at = before.len() as int;
    assert(whole[at] == c);
    assert forall|k: int| 0 <= k < at implies whole[k] != c by {
        assert(before.contains(before[k]));
    }
    lemma_first_of(whole, c, at);
    assert(whole.take(at) =~= before);
    assert(whole.skip(at + 1) =~= after);
}

proof fn lemma_digits_hold_no(n: u32, c: char)
    requires
        !is_digit(c),
    ensures
        !decimal_text(n as nat).contains(c),
        decimal_text(n as nat).len() > 0,
        is_digit(decimal_text(n as nat)[0]),
{
    lemma_decimal_text(n as nat);
    let text = decimal_text(n as nat);
    assert(is_digit(text[0]));
    if text.contains(c) {
        let k = choose|k: int| 0 <= k < text.len() && text[k] == c;
        assert(is_digit(text[k]));
    }
}

proof fn lemma_range_behind_mark(rest: Seq<char>, first: u32, last: u32)
    requires
        first > 0,
        last > 0,
        ({
            let a = decimal_text(first as nat);
            let b = decimal_text(last as nat);
            rest == a + ":"@ + b || rest == a + "-"@ + b || rest == a + "-L"@ + b
        }),
    ensures
        rest.len() > 0,
        is_digit(rest[0]),
        line_range_of(rest) == Ok::<LineRange, MentionErrorKind>(
            LineRange { start: (first - 1) as u32, end: (last - 1) as u32 },
        ),
        line_range_of("L"@ + rest) == line_range_of(rest),
{
    let a = decimal_text(first as nat);
    let b = decimal_text(last as nat);
    lemma_marks();
    lemma_digits_hold_no(first, ':');
    lemma_digits_hold_no(first, '-');
    lemma_digits_hold_no(last, ':');
    decimal_text_reads_back(first);
    decimal_text_reads_back(last);
    assert(rest[0] == a[0]);
    lemma_without_mark(rest);
    lemma_without_mark(b);
    if rest == a + ":"@ + b {
        assert(rest =~= a + seq![':'] + b);
        lemma_splits_at(a, ':', b);
    } else {
        let end = if rest == a + "-"@ + b {
            b
        } else {
            "L"@ + b
        };
        assert(rest =~= a + seq!['-'] + end);
        lemma_splits_at(a, '-', end);
        assert(!rest.contains(':')) by {
            if rest.contains(':') {
                let k = choose|k: int| 0 <= k < rest.len() && rest[k] == ':';
                if k < a.len() {
                    assert(a.contains(a[k]));
                } else if k > a.len() {
                    let j = k - a.len() - 1;
                    assert(end[j] == ':');
                    if end == b {
                        assert(b.contains(b[j]));
                    } else if j > 0 {
                        assert(b.contains(b[j - 1]));
                    }
                }
            }
        }
    }
}

/// Two lines that a fragment writes are read as the range from one to the other, counted from zero;
/// one line is read as the range from it to itself.
pub proof fn written_lines_are_read(fragment: Seq<char>, first: u32, last: u32)
    requires
        first > 0,
        last > 0,
        writes_lines(fragment, first, last) || (first == last && writes_line(fragment, first)),
    ensures
        line_range_of(fragment) == Ok::<LineRange, MentionErrorKind>(
            LineRange { start: (first - 1) as u32, end: (last - 1) as u32 },
        ),
{
    let a = decimal_text(first as nat);
    let b = decimal_text(last as nat);
    lemma_marks();
    if writes_lines(fragment, first, last) {
        lemma_range_behind_mark(a + ":"@ + b, first, last);
        lemma_range_behind_mark(a + "-"@ + b, first, last);
        lemma_range_behind_mark(a + "-L"@ + b, first, last);
        assert("L"@ + a + ":"@ + b =~= "L"@ + (a + ":"@ + b));
        assert("L"@ + a + "-"@ + b =~= "L"@ + (a + "-"@ + b));
        assert("L"@ + a + "-L"@ + b =~= "L"@ + (a + "-L"@ + b));
    } else {
        lemma_digits_hold_no(first, ':');
        lemma_digits_hold_no(first, '-');
        decimal_text_reads_back(first);
        lemma_without_mark(a);
    }
}

/// Whether a text is a fragment that holds nothing but digits, `L`, `:` and `-`.
spec fn is_plain_fragment(fragment: Seq<char>) -> bool {
    &&& fragment.len() > 0
    &&& is_digit(fragment.last())
    &&& forall|i: int|
        0 <= i < fragment.len() ==> is_digit(#[trigger] fragment[i]) || fragment[i] == 'L'
            || fragment[i] == ':' || fragment[i] == '-'
}

proof fn lemma_plain_fragment(fragment: Seq<char>, first: u32, last: u32)
    requires
        writes_lines(fragment, first, last) || writes_line(fragment, last),
    ensures
        is_plain_fragment(fragment),
{
    let a = decimal_text(first as nat);
    let b = decimal_text(last as nat);
    lemma_marks();
    lemma_decimal_text(first as nat);
    lemma_decimal_text(last as nat);
    assert(is_digit(b[b.len() - 1]));
    assert(fragment.last() == b[b.len() - 1]);
    assert forall|i: int| 0 <= i < fragment.len() implies is_digit(#[trigger] fragment[i])
        || fragment[i] == 'L' || fragment[i] == ':' || fragment[i] == '-' by {
        if i >= fragment.len() - b.len() {
            assert(fragment[i] == b[i - (fragment.len() - b.len())]);
        } else if writes_lines(fragment, first, last) {
            let from: int = if fragment[0] == 'L' {
                1
            } else {
                0
            };
            assert(is_digit(a[0]));
            if from <= i < from + a.len() {
                assert(fragment[i] == a[i - from]);
            }
        }
    }
}

/// A bare path with lines behind it is taken apart where it was put together.
proof fn lemma_path_with_fragment(path: Seq<char>, fragment: Seq<char>, style: PathStyle)
    requires
        is_absolute_path(path, style),
        !path.contains('#'),
        !occurs(path, "://"@),
        is_plain_fragment(fragment),
    ensures
        unquoted(path + "#"@ + fragment) == path + "#"@ + fragment,
        is_bare_path(path + "#"@ + fragment, style),
        path_and_fragment(path + "#"@ + fragment) == (path, Some(fragment)),
{
    let input = path + "#"@ + fragment;
    lemma_marks();
    assert(input =~= path + seq!['#'] + fragment);
    lemma_splits_at(path, '#', fragment);
    assert(input[0] == path[0]);
    assert(input.subrange(0, 1)[0] == input[0]);
    assert(path[0] != '`');
    if path.len() > 2 {
        assert(input[1] == path[1] && input[2] == path[2]);
    }
    if occurs(input, "://"@) {
        let at = choose|at: int| occurs_at(input, "://"@, at);
        let found = input.subrange(at, at + 3);
        assert(found[0] == ':' && found[1] == '/' && found[2] == '/');
        assert(input[at] == ':' && input[at + 1] == '/' && input[at + 2] == '/');
        if at + 2 > path.len() {
            assert(input[at + 2] == fragment[at + 2 - path.len() - 1]);
        }
        assert(at + 2 < path.len());
        assert(path.subrange(at, at + 3) =~= "://"@);
        assert(occurs_at(path, "://"@, at));
    }
}

/// An absolute path with two lines behind it, as in `/a.rs#L10-20`, mentions the lines from the one
/// to the other in that file, whatever its spelling names besides.
pub proof fn bare_path_keeps_its_lines(
    path: Seq<char>,
    fragment: Seq<char>,
    first: u32,
    last: u32,
    style: PathStyle,
    position: PathWithPosition,
)
    requires
        is_absolute_path(path, style),
        !path.contains('#'),
        !occurs(path, "://"@),
        first > 0,
        last > 0,
        writes_lines(fragment, first, last) || (first == last && writes_line(fragment, first)),
    ensures
        text_mention(path + "#"@ + fragment, style, position) == Ok::<
            MentionView,
            MentionErrorView,
        >(
            MentionView::Selection {
                abs_path: Some(path),
                line_range: LineRange { start: (first - 1) as u32, end: (last - 1) as u32 },
                column: None,
            },
        ),
{
    lemma_plain_fragment(fragment, first, last);
    lemma_path_with_fragment(path, fragment, style);
    written_lines_are_read(fragment, first, last);
}

/// The URL of a file with lines behind it mentions the same lines of it as its path with them does.
pub proof fn file_url_keeps_its_lines(
    input: Seq<char>,
    url: UrlView,
    path: Seq<char>,
    fragment: Seq<char>,
    first: u32,
    last: u32,
    style: PathStyle,
    position: PathWithPosition,
)
    requires
        is_absolute_path(path, style),
        !path.contains('#'),
        !occurs(path, "://"@),
        first > 0,
        last > 0,
        writes_lines(fragment, first, last) || (first == last && writes_line(fragment, first)),
        url.fragment == Some(fragment),
        url.query.len() == 0,
    ensures
        file_mention(input, url, path) == text_mention(path + "#"@ + fragment, style, position),
{
    bare_path_keeps_its_lines(path, fragment, first, last, style, position);
    written_lines_are_read(fragment, first, last);
    assert(query_value(url.query, "symbol"@) is None);
    assert(query_value(url.query, "column"@) is None);
}

/// A hyperlink to an absolute path with two lines behind it mentions the lines from the one to the
/// other, in the file that its path spells.
pub proof fn hyperlink_keeps_its_lines(
    path: Seq<char>,
    fragment: Seq<char>,
    first: u32,
    last: u32,
    style: PathStyle,
    position: PathWithPosition,
    outcome: Result<MentionView, MentionErrorView>,
)
    requires
        is_absolute_path(path, style),
        !path.contains('#'),
        !occurs(path, "://"@),
        first > 0,
        last > 0,
        writes_lines(fragment, first, last) || (first == last && writes_line(fragment, first)),
        is_hyperlink_mention(path + "#"@ + fragment, style, position, outcome),
    ensures
        outcome is Ok,
        outcome->Ok_0 is Selection,
        outcome->Ok_0->Selection_line_range == (LineRange {
            start: (first - 1) as u32,
            end: (last - 1) as u32,
        }),
        outcome->Ok_0->Selection_column is None,
        outcome->Ok_0->Selection_abs_path is Some,
        is_hyperlink_path(path, style, true, outcome->Ok_0->Selection_abs_path->0),
{
    let input = path + "#"@ + fragment;
    lemma_plain_fragment(fragment, first, last);
    lemma_path_with_fragment(path, fragment, style);
    written_lines_are_read(fragment, first, last);
    assert(bare_path_of(input, style) == Some(input));
    let spelled = choose|spelled: Seq<char>|
        #![trigger is_hyperlink_path(path, style, true, spelled)]
        is_hyperlink_path(path, style, true, spelled) && outcome == match path_mention(
            spelled,
            Some(fragment),
            position,
        ) {
            Some(mention) => Ok(mention),
            None => Err(
                MentionErrorView { kind: MentionErrorKind::InvalidHyperlinkPath, detail: input },
            ),
        };
    assert(outcome->Ok_0->Selection_abs_path->0 == spelled);
}

/// A bare path without lines behind it mentions the row and the column that its spelling names,
/// counted from one, or the file where it names none; there is no row zero.
pub proof fn bare_path_keeps_its_position(
    path: Seq<char>,
    style: PathStyle,
    position: PathWithPosition,
)
    requires
        is_absolute_path(path, style),
        !path.contains('#'),
        !occurs(path, "://"@),
    ensures
        position.row is None ==> text_mention(path, style, position) == Ok::<
            MentionView,
            MentionErrorView,
        >(MentionView::File { abs_path: position.path@ }),
        forall|row: u32|
            position.row == Some((row + 1) as u32) && row < u32::MAX && position.column is None
                ==> text_mention(path, style, position) == Ok::<MentionView, MentionErrorView>(
                MentionView::Selection {
                    abs_path: Some(position.path@),
                    line_range: #[trigger] only_line(row),
                    column: None,
                },
            ),
        forall|row: u32, column: u32|
            position.row == Some((row + 1) as u32) && row < u32::MAX && position.column == Some(
                (column + 1) as u32,
            ) && column < u32::MAX ==> text_mention(path, style, position) == Ok::<
                MentionView,
                MentionErrorView,
            >(#[trigger] place(position.path@, row, column)),
        position.row == Some(0u32) ==> text_mention(path, style, position) == Err::<
            MentionView,
            MentionErrorView,
        >(MentionErrorView { kind: MentionErrorKind::InvalidAbsolutePath, detail: path }),
{
    lemma_marks();
    assert(path.subrange(0, 1)[0] == path[0]);
    assert(path[0] != '`');
    assert(unquoted(path) == path);
}

/// The range of one line.
pub open spec fn only_line(row: u32) -> LineRange {
    LineRange { start: row, end: row }
}

/// A place in a file.
pub open spec fn place(path: Seq<char>, row: u32, column: u32) -> MentionView {
    MentionView::Selection {
        abs_path: Some(path),
        line_range: LineRange { start: row, end: row },
        column: Some(column),
    }
}

/// Backticks around a text change nothing in what it mentions.
pub proof fn backticks_change_nothing(text: Seq<char>, style: PathStyle, position: PathWithPosition)
    requires
        text.len() > 0,
        text[0] != '`',
    ensures
        text_mention("`"@ + text + "`"@, style, position) == text_mention(text, style, position),
{
    lemma_marks();
    let quoted = "`"@ + text + "`"@;
    assert(quoted.subrange(0, 1) =~= "`"@);
    assert(quoted.skip(1) =~= text + "`"@);
    assert((text + "`"@).subrange(text.len() as int, (text.len() + 1) as int) =~= "`"@);
    assert((text + "`"@).take(text.len() as int) =~= text);
    assert(text.subrange(0, 1)[0] == text[0]);
    assert(unquoted(quoted) == text);
    assert(unquoted(text) == text);
}

} // verus!
