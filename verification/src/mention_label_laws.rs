//! Laws on how mentions are shown, and on the paths in them.

use crate::decimal::{decimal_text, lemma_decimal_text};
use crate::mention::{LineRange, MentionView, StackReviewView};
use crate::mention_error::MentionErrorView;
use crate::mention_label::{
    detailed_name, line_suffix, mention_name, mention_tooltip, path_and_lines, review_label,
    selection_label,
};
use crate::mention_laws::lemma_splits_at;
use crate::mention_path::{
    file_name_of, is_ordinary, is_plain_relative_path, ordinary_parts, slash_joined, slash_parts,
};
use crate::mention_round_trip::review_is_valid;
use crate::mention_url::UrlView;
use crate::stack_review_query::{lemma_side_words, review_mention};
use crate::text::{first_of, lemma_first_of, lemma_first_of_bounds};
use vstd::prelude::*;
use vstd::string::*;

verus! {

proof fn lemma_same_number(a: u32, b: u32)
    requires
        decimal_text((a + 1) as nat) == decimal_text((b + 1) as nat),
    ensures
        a == b,
{
    lemma_decimal_text((a + 1) as nat);
    lemma_decimal_text((b + 1) as nat);
}

proof fn lemma_same_digits(a: nat, b: nat)
    requires
        decimal_text(a) == decimal_text(b),
    ensures
        a == b,
{
    lemma_decimal_text(a);
    lemma_decimal_text(b);
}

proof fn lemma_holds_no(n: nat, c: char)
    requires
        !crate::decimal::is_digit(c),
    ensures
        !decimal_text(n).contains(c),
{
    lemma_decimal_text(n);
    let text = decimal_text(n);
    if text.contains(c) {
        let k = choose|k: int| 0 <= k < text.len() && text[k] == c;
        assert(crate::decimal::is_digit(text[k]));
    }
}

/// Two numbers with a mark between them tell both numbers.
proof fn lemma_same_pair(a: nat, b: nat, x: nat, y: nat, mark: char)
    requires
        !crate::decimal::is_digit(mark),
        decimal_text(a) + seq![mark] + decimal_text(b) == decimal_text(x) + seq![mark]
            + decimal_text(y),
    ensures
        a == x,
        b == y,
{
    lemma_holds_no(a, mark);
    lemma_holds_no(x, mark);
    lemma_splits_at(decimal_text(a), mark, decimal_text(b));
    lemma_splits_at(decimal_text(x), mark, decimal_text(y));
    lemma_same_digits(a, x);
    lemma_same_digits(b, y);
}

/// Two selections in one file that are shown alike are of the same lines, from the first to the last.
pub proof fn selections_are_told_apart(path: Option<Seq<char>>, a: LineRange, b: LineRange)
    requires
        selection_label(path, a) == selection_label(path, b),
    ensures
        a.start == b.start,
        a.end == b.end,
{
    reveal_strlit(":");
    reveal_strlit(" (");
    reveal_strlit(")");
    let name = crate::mention_label::or_text(
        match path {
            Some(path) => file_name_of(path),
            None => None,
        },
        "Untitled"@,
    );
    let before = name + " ("@;
    let x = decimal_text((a.start + 1) as nat) + seq![':'] + decimal_text((a.end + 1) as nat);
    let y = decimal_text((b.start + 1) as nat) + seq![':'] + decimal_text((b.end + 1) as nat);
    assert(":"@ =~= seq![':']);
    assert(selection_label(path, a) =~= before + x + ")"@);
    assert(selection_label(path, b) =~= before + y + ")"@);
    let from = before.len() as int;
    let whole = selection_label(path, a);
    assert(")"@.len() == 1);
    assert(whole.subrange(from, whole.len() - 1) =~= x);
    assert(whole.subrange(from, whole.len() - 1) =~= y);
    lemma_same_pair(
        (a.start + 1) as nat,
        (a.end + 1) as nat,
        (b.start + 1) as nat,
        (b.end + 1) as nat,
        ':',
    );
}

/// Two ranges that are written alike behind a path are the same.
pub proof fn line_suffixes_are_told_apart(a: LineRange, b: LineRange)
    requires
        line_suffix(a) == line_suffix(b),
    ensures
        a.start == b.start,
        a.end == b.end,
{
    reveal_strlit(":");
    reveal_strlit("-");
    assert(":"@ =~= seq![':']);
    assert("-"@ =~= seq!['-']);
    let x = line_suffix(a).skip(1);
    let y = line_suffix(b).skip(1);
    let p = decimal_text((a.start + 1) as nat);
    let q = decimal_text((b.start + 1) as nat);
    if a.start == a.end {
        assert(x =~= p);
        lemma_holds_no((a.start + 1) as nat, '-');
    } else {
        assert(x =~= p + seq!['-'] + decimal_text((a.end + 1) as nat));
        assert(x[p.len() as int] == '-');
        assert(x.contains('-'));
    }
    if b.start == b.end {
        assert(y =~= q);
        lemma_holds_no((b.start + 1) as nat, '-');
    } else {
        assert(y =~= q + seq!['-'] + decimal_text((b.end + 1) as nat));
        assert(y[q.len() as int] == '-');
        assert(y.contains('-'));
    }
    if a.start == a.end {
        lemma_same_number(a.start, b.start);
    } else {
        lemma_same_pair(
            (a.start + 1) as nat,
            (a.end + 1) as nat,
            (b.start + 1) as nat,
            (b.end + 1) as nat,
            '-',
        );
    }
}

/// A tooltip begins with the path that is mentioned, and two mentions of lines in one file with the
/// same tooltip are of the same lines.
pub proof fn tooltips_tell_paths_and_lines(
    path: Seq<char>,
    name: Seq<char>,
    a: LineRange,
    b: LineRange,
    column: Option<u32>,
)
    ensures
        mention_tooltip(MentionView::File { abs_path: path }) == Some(path),
        mention_tooltip(MentionView::Directory { abs_path: path }) == Some(path),
        mention_tooltip(
            MentionView::Skill { name, source: name, skill_file_path: path },
        ) == Some(path),
        mention_tooltip(
            MentionView::Selection { abs_path: Some(path), line_range: a, column },
        ) == mention_tooltip(MentionView::Symbol { abs_path: path, name, line_range: a }),
        path.is_prefix_of(path_and_lines(path, a)),
        mention_tooltip(MentionView::Symbol { abs_path: path, name, line_range: a })
            == mention_tooltip(MentionView::Symbol { abs_path: path, name, line_range: b }) ==> a.start
            == b.start && a.end == b.end,
{
    reveal_strlit(":");
    reveal_strlit("-");
    assert(":"@ =~= seq![':']);
    assert("-"@ =~= seq!['-']);
    let whole = path_and_lines(path, a);
    assert(whole.subrange(0, path.len() as int) =~= path);
    if whole == path_and_lines(path, b) {
        let x = decimal_text(a.start as nat) + seq!['-'] + decimal_text(a.end as nat);
        let y = decimal_text(b.start as nat) + seq!['-'] + decimal_text(b.end as nat);
        assert(whole =~= path + seq![':'] + x);
        assert(whole =~= path + seq![':'] + y);
        assert(whole.skip((path.len() + 1) as int) =~= x);
        assert(whole.skip((path.len() + 1) as int) =~= y);
        lemma_same_pair(a.start as nat, a.end as nat, b.start as nat, b.end as nat, '-');
    }
}

/// One more component behind a path is its last.
pub proof fn paths_end_with_their_last_component(path: Seq<char>, name: Seq<char>)
    requires
        !name.contains('/'),
    ensures
        slash_parts(name) == seq![name],
        slash_parts(path + "/"@ + name) == slash_parts(path).push(name),
    decreases path.len(),
{
    reveal_strlit("/");
    assert("/"@ =~= seq!['/']);
    lemma_first_of_bounds(name, '/');
    lemma_first_of(name, '/', name.len() as int);
    assert(slash_parts(name) =~= seq![name]);
    let whole = path + "/"@ + name;
    lemma_first_of_bounds(path, '/');
    let at = first_of(path, '/');
    if at < path.len() {
        assert(whole[at] == path[at]);
        assert forall|k: int| 0 <= k < at implies whole[k] != '/' by {
            assert(whole[k] == path[k]);
        }
        lemma_first_of(whole, '/', at);
        let rest = path.skip(at + 1);
        paths_end_with_their_last_component(rest, name);
        assert(whole.take(at) =~= path.take(at));
        assert(whole.skip(at + 1) =~= rest + "/"@ + name);
        assert(slash_parts(whole) =~= slash_parts(path).push(name));
    } else {
        assert forall|k: int| 0 <= k < path.len() implies whole[k] != '/' by {
            assert(whole[k] == path[k]);
        }
        assert(whole[path.len() as int] == '/');
        lemma_first_of(whole, '/', path.len() as int);
        assert(whole.take(path.len() as int) =~= path);
        assert(whole.skip((path.len() + 1) as int) =~= name);
        assert(slash_parts(whole) =~= seq![path] + seq![name]);
        assert(slash_parts(path) =~= seq![path]);
        assert(slash_parts(whole) =~= slash_parts(path).push(name));
    }
}

/// A file or a directory is shown by the last component of its path and, where more is asked for, by
/// as many of those before it.
pub proof fn files_are_shown_by_their_last_names(
    path: Seq<char>,
    parent: Seq<char>,
    name: Seq<char>,
)
    requires
        !name.contains('/'),
        !parent.contains('/'),
        name.len() > 0,
        parent.len() > 0,
        name != "."@ && name != ".."@,
        parent != "."@ && parent != ".."@,
    ensures
        mention_name(MentionView::File { abs_path: path + "/"@ + name }) == name,
        mention_name(MentionView::Directory { abs_path: path + "/"@ + name }) == name,
        detailed_name(MentionView::File { abs_path: path + "/"@ + parent + "/"@ + name }, 0) == name,
        detailed_name(MentionView::File { abs_path: path + "/"@ + parent + "/"@ + name }, 1)
            == parent + "/"@ + name,
        detailed_name(MentionView::Directory { abs_path: path + "/"@ + parent + "/"@ + name }, 1)
            == parent + "/"@ + name,
{
    let short = path + "/"@ + name;
    let deep = path + "/"@ + parent;
    let whole = deep + "/"@ + name;
    paths_end_with_their_last_component(path, name);
    paths_end_with_their_last_component(path, parent);
    paths_end_with_their_last_component(deep, name);
    assert(slash_parts(short).last() == name);
    assert(slash_parts(whole).last() == name);
    assert(slash_parts(whole).drop_last() =~= slash_parts(deep));
    assert(slash_parts(deep).drop_last() =~= slash_parts(path));
    let names = ordinary_parts(slash_parts(whole));
    let first = ordinary_parts(slash_parts(path));
    assert(slash_parts(deep).last() == parent);
    assert(is_ordinary(name) && is_ordinary(parent));
    assert(ordinary_parts(slash_parts(deep)) == first.push(parent));
    assert(names == ordinary_parts(slash_parts(deep)).push(name));
    let end = names.skip(names.len() - 2);
    assert(end =~= seq![parent, name]);
    reveal_with_fuel(slash_joined, 3);
    assert(seq![parent, name].drop_last() =~= seq![parent]);
    assert(slash_joined(seq![parent, name]) == parent + "/"@ + name);
}

/// A relative path that leads straight down leads straight down one component further, unless that is
/// empty, the directory itself or the one above it.
pub proof fn relative_paths_lead_down(path: Seq<char>, name: Seq<char>)
    requires
        path.len() > 0,
        !name.contains('/'),
        !name.contains('\\'),
        is_plain_relative_path(path),
    ensures
        is_plain_relative_path(path + "/"@ + name) <==> name.len() > 0 && name != "."@ && name != ".."@,
{
    reveal_strlit("/");
    assert("/"@ =~= seq!['/']);
    let whole = path + "/"@ + name;
    paths_end_with_their_last_component(path, name);
    let parts = slash_parts(whole);
    assert(parts.last() == name);
    assert(parts[parts.len() - 1] == name);
    if name.len() > 0 && name != "."@ && name != ".."@ {
        assert forall|i: int| 0 <= i < parts.len() implies is_ordinary(#[trigger] parts[i]) by {
            if i < parts.len() - 1 {
                assert(parts[i] == slash_parts(path)[i]);
            }
        }
        assert(!whole.contains('\\')) by {
            if whole.contains('\\') {
                let k = choose|k: int| 0 <= k < whole.len() && whole[k] == '\\';
                if k < path.len() {
                    assert(path[k] == '\\');
                    assert(path.contains('\\'));
                } else if k > path.len() {
                    assert(name[k - path.len() - 1] == '\\');
                    assert(name.contains('\\'));
                }
            }
        }
        assert(whole[0] == path[0]);
        if path.len() >= 2 {
            assert(whole[1] == path[1]);
        } else {
            assert(whole[1] == '/');
        }
    }
}

/// A URL is taken to mention a review only where the review can be mentioned: what identifies it is
/// there, its path leads straight down, its lines are in order and have a path, a review as a whole
/// has neither, and record ids come in pairs.
pub proof fn accepted_reviews_are_valid(url: UrlView, review: StackReviewView)
    requires
        review_mention(url) == Ok::<MentionView, MentionErrorView>(
            MentionView::StackReview(review),
        ),
    ensures
        review_is_valid(review),
        url.fragment is None,
{
    lemma_side_words();
}

/// Mentions of a review that differ in their lines alone are shown apart, in their names and in their
/// tooltips.
pub proof fn reviewed_lines_are_told_apart(review: StackReviewView, a: LineRange, b: LineRange)
    ensures
        review_label(review.path, review.side, Some(a)) == review_label(
            review.path,
            review.side,
            Some(b),
        ) ==> a.start == b.start && a.end == b.end,
        mention_tooltip(
            MentionView::StackReview(StackReviewView { line_range: Some(a), ..review }),
        ) == mention_tooltip(
            MentionView::StackReview(StackReviewView { line_range: Some(b), ..review }),
        ) ==> a.start == b.start && a.end == b.end,
{
    let name = crate::mention_label::or_text(
        match review.path {
            Some(path) => file_name_of(path),
            None => None,
        },
        "Stack Review"@,
    );
    let label = name + " ("@ + crate::mention::mention_side_word(review.side);
    if review_label(review.path, review.side, Some(a)) == review_label(
        review.path,
        review.side,
        Some(b),
    ) {
        lemma_label_lines(label, a, b);
    }
    let told = "Immutable Stack Review "@ + review.base_oid + "…"@ + review.head_oid + " · "@
        + crate::mention::mention_side_word(review.side) + (match review.path {
        Some(path) => " · "@ + path,
        None => Seq::empty(),
    });
    if mention_tooltip(
        MentionView::StackReview(StackReviewView { line_range: Some(a), ..review }),
    ) == mention_tooltip(
        MentionView::StackReview(StackReviewView { line_range: Some(b), ..review }),
    ) {
        lemma_tooltip_lines(told, " · lines "@, a, b);
    }
}

proof fn lemma_label_lines(label: Seq<char>, a: LineRange, b: LineRange)
    requires
        label + " "@ + decimal_text(a.start as nat) + "-"@ + decimal_text(a.end as nat) + ")"@
            == label + " "@ + decimal_text(b.start as nat) + "-"@ + decimal_text(b.end as nat)
            + ")"@,
    ensures
        a.start == b.start,
        a.end == b.end,
{
    reveal_strlit("-");
    reveal_strlit(")");
    assert("-"@ =~= seq!['-']);
    assert(")"@.len() == 1);
    let x = decimal_text(a.start as nat) + seq!['-'] + decimal_text(a.end as nat);
    let y = decimal_text(b.start as nat) + seq!['-'] + decimal_text(b.end as nat);
    let before = label + " "@;
    let whole = before + decimal_text(a.start as nat) + "-"@ + decimal_text(a.end as nat) + ")"@;
    let from = before.len() as int;
    assert(whole.subrange(from, whole.len() - 1) =~= x);
    assert(whole.subrange(from, whole.len() - 1) =~= y);
    lemma_same_pair(a.start as nat, a.end as nat, b.start as nat, b.end as nat, '-');
}

proof fn lemma_tooltip_lines(told: Seq<char>, mark: Seq<char>, a: LineRange, b: LineRange)
    requires
        told + (mark + decimal_text(a.start as nat) + "-"@ + decimal_text(a.end as nat)) == told + (
        mark + decimal_text(b.start as nat) + "-"@ + decimal_text(b.end as nat)),
    ensures
        a.start == b.start,
        a.end == b.end,
{
    reveal_strlit("-");
    assert("-"@ =~= seq!['-']);
    let x = decimal_text(a.start as nat) + seq!['-'] + decimal_text(a.end as nat);
    let y = decimal_text(b.start as nat) + seq!['-'] + decimal_text(b.end as nat);
    let whole = told + (mark + decimal_text(a.start as nat) + "-"@ + decimal_text(a.end as nat));
    let from = (told.len() + mark.len()) as int;
    assert(whole.skip(from) =~= x);
    assert(whole.skip(from) =~= y);
    lemma_same_pair(a.start as nat, a.end as nat, b.start as nat, b.end as nat, '-');
}

} // verus!
