//! Laws on numbers, keys and labels as texts.

use crate::debug_selector::{key_of, occurrence_text, reply_label, ReplyTargetView};
use crate::decimal::{decimal_text, is_digit, lemma_decimal_text, u32_of_text, unsigned_digits};
use crate::forest::has_top;
use crate::mention::LineRange;
use crate::mention_error::MentionErrorKind;
use crate::mention_query::{column_of, line_range_of};
use crate::review_comment::{
    comment_key, key_identity, key_matches, CommentKeyView, StoredReviewComment,
};
use crate::review_rows::{button_prefix, composer_indent, RowButton};
use crate::thread_item_laws::reply_follows_its_parent;
use crate::thread_items::{reply_parent, thread_links, thread_listing};
use vstd::prelude::*;
use vstd::string::*;

verus! {

/// A number is read from its digits, with a plus sign before them or without; one that is too large is
/// not read, nor is a text that is empty or holds anything but digits.
pub proof fn numbers_are_read_from_digits_alone(n: nat, text: Seq<char>, k: int)
    ensures
        n <= u32::MAX ==> u32_of_text(decimal_text(n)) == Some(n as u32) && u32_of_text(
            seq!['+'] + decimal_text(n),
        ) == Some(n as u32),
        n > u32::MAX ==> u32_of_text(decimal_text(n)) is None,
        u32_of_text(Seq::empty()) is None,
        0 < k < text.len() && !is_digit(text[k]) ==> u32_of_text(text) is None,
        text.len() > 0 && !is_digit(text[0]) && text[0] != '+' ==> u32_of_text(text) is None,
{
    lemma_decimal_text(n);
    let written = decimal_text(n);
    assert(is_digit(written[0]));
    assert((seq!['+'] + written).drop_first() =~= written);
    let digits = unsigned_digits(text);
    if 0 < k < text.len() && !is_digit(text[k]) {
        if text[0] == '+' {
            assert(digits[k - 1] == text[k]);
        } else {
            assert(digits[k] == text[k]);
        }
    }
    if text.len() > 0 && !is_digit(text[0]) && text[0] != '+' {
        assert(digits[0] == text[0]);
    }
}

/// A column is counted from one where it is written and from zero where it is read.
pub proof fn columns_are_counted_from_one(column: u32)
    requires
        column < u32::MAX,
    ensures
        column_of(Some(decimal_text((column + 1) as nat))) == Some(column),
        column_of(Some(decimal_text(0))) is None,
        column_of(None) is None,
{
    crate::decimal::decimal_text_reads_back((column + 1) as u32);
    crate::decimal::decimal_text_reads_back(0);
}

/// Two comments with one identity have the same key, and a key finds exactly the comments whose key it
/// is.
pub proof fn identities_tell_keys_apart(
    a: CommentKeyView,
    b: CommentKeyView,
    comment: StoredReviewComment,
)
    ensures
        key_identity(a) == key_identity(b) ==> a == b,
        key_matches(a, comment) <==> comment_key(comment) == a,
        comment.record_id is Some ==> comment_key(comment) == key_of(
            Some(comment.record_id->0@),
            comment.id,
        ),
        comment.record_id is None ==> comment_key(comment) == key_of(None, comment.id),
{
    reveal_strlit("stable:");
    reveal_strlit("legacy:");
    assert("stable:"@.len() == 7 && "stable:"@[0] == 's');
    assert("legacy:"@.len() == 7 && "legacy:"@[0] == 'l');
    if key_identity(a) == key_identity(b) {
        let x = key_identity(a);
        assert(x[0] == key_identity(b)[0]);
        match (a, b) {
            (CommentKeyView::Stable(p), CommentKeyView::Stable(q)) => {
                assert(x.skip(7) =~= p);
                assert(x.skip(7) =~= q);
            },
            (CommentKeyView::Legacy(p), CommentKeyView::Legacy(q)) => {
                assert(x.skip(7) =~= decimal_text(p as nat));
                assert(x.skip(7) =~= decimal_text(q as nat));
                lemma_decimal_text(p as nat);
                lemma_decimal_text(q as nat);
            },
            _ => {},
        }
    }
}

/// The places where a comment is shown are told apart, and so are the authors of what is replied to.
pub proof fn places_and_authors_are_told_apart(
    a: nat,
    b: nat,
    identity: Seq<char>,
    one: Seq<char>,
    other: Seq<char>,
)
    ensures
        occurrence_text(a) == occurrence_text(b) ==> a == b,
        reply_label(ReplyTargetView::Known { identity, author: one }) == reply_label(
            ReplyTargetView::Known { identity, author: other },
        ) ==> one == other,
        one.is_suffix_of(reply_label(ReplyTargetView::Known { identity, author: one })),
{
    let mark = "occurrence:"@;
    if occurrence_text(a) == occurrence_text(b) {
        assert(occurrence_text(a).skip(mark.len() as int) =~= decimal_text(a));
        assert(occurrence_text(b).skip(mark.len() as int) =~= decimal_text(b));
        lemma_decimal_text(a);
        lemma_decimal_text(b);
    }
    let first = reply_label(ReplyTargetView::Known { identity, author: one });
    let second = reply_label(ReplyTargetView::Known { identity, author: other });
    let from = "Replying to "@.len() as int;
    assert(first.skip(from) =~= one);
    assert(second.skip(from) =~= other);
    assert(first.subrange(first.len() - one.len(), first.len() as int) =~= one);
}

/// Outside the review of a stack a reply is indented by twelve for each step down, and by no more than
/// four steps.
pub proof fn replies_are_indented_by_steps(depth: nat)
    ensures
        composer_indent(0) == 0,
        depth < 4 ==> composer_indent((depth + 1) as nat) == composer_indent(depth) + 12,
        depth >= 4 ==> composer_indent((depth + 1) as nat) == composer_indent(depth),
{
}

/// A reply is shown one step deeper than what it replies to, down to the thirty-second step, and what
/// replies to nothing is not indented.
pub proof fn replies_are_one_step_deeper(ranked: Seq<StoredReviewComment>, i: int)
    requires
        0 <= i < thread_listing(ranked).len(),
        has_top(thread_links(ranked), thread_listing(ranked)[i].0),
    ensures
        reply_parent(ranked, thread_listing(ranked)[i].0) is None ==> thread_listing(ranked)[i].1
            == 0,
        reply_parent(ranked, thread_listing(ranked)[i].0) matches Some(parent) ==> exists|j: int|
            0 <= j < i && (#[trigger] thread_listing(ranked)[j]).0 == parent && (thread_listing(
                ranked,
            )[j].1 < 32 ==> thread_listing(ranked)[i].1 == thread_listing(ranked)[j].1 + 1) && (
            thread_listing(ranked)[j].1 >= 32 ==> thread_listing(ranked)[i].1 == 32),
{
    reply_follows_its_parent(ranked, i);
    if let Some(parent) = reply_parent(ranked, thread_listing(ranked)[i].0) {
        let entries = thread_listing(ranked);
        let j = choose|j: int|
            0 <= j < i && (#[trigger] entries[j]).0 == parent && entries[i].1
                == crate::preorder::depth_below(
                entries[j].1,
                crate::thread_items::MAX_THREAD_DEPTH as nat,
            );
        assert(thread_listing(ranked)[j].0 == parent);
    }
}

/// There is no line zero: a fragment that writes one gives no lines.
pub proof fn there_is_no_line_zero(fragment: Seq<char>, first: u32, last: u32)
    requires
        fragment == decimal_text(first as nat) + ":"@ + decimal_text(last as nat),
        first == 0 || last == 0,
    ensures
        line_range_of(fragment) == Err::<LineRange, MentionErrorKind>(
            MentionErrorKind::LineNotOneBased,
        ),
{
    let a = decimal_text(first as nat);
    let b = decimal_text(last as nat);
    reveal_strlit("L");
    reveal_strlit(":");
    assert(":"@ =~= seq![':']);
    lemma_decimal_text(first as nat);
    crate::decimal::decimal_text_reads_back(first);
    crate::decimal::decimal_text_reads_back(last);
    assert(is_digit(a[0]));
    assert(fragment[0] == a[0]);
    assert("L"@.len() == 1 && "L"@[0] == 'L');
    assert(fragment.subrange(0, 1)[0] == fragment[0]);
    assert(!a.contains(':')) by {
        if a.contains(':') {
            let k = choose|k: int| 0 <= k < a.len() && a[k] == ':';
            assert(is_digit(a[k]));
        }
    }
    crate::mention_laws::lemma_splits_at(a, ':', b);
}

/// The buttons of a comment are named apart, but that a thread is resolved and reopened by one.
pub proof fn buttons_are_named_apart(a: RowButton, b: RowButton)
    requires
        button_prefix(a) == button_prefix(b),
    ensures
        a == b || (a == RowButton::ResolveThread && b == RowButton::ReopenThread) || (a
            == RowButton::ReopenThread && b == RowButton::ResolveThread),
{
    reveal_strlit("diff-review-cancel-edit-");
    reveal_strlit("diff-review-confirm-edit-");
    reveal_strlit("diff-review-copy-");
    reveal_strlit("diff-review-restore-");
    reveal_strlit("diff-review-use-comment-checkpoint-");
    reveal_strlit("diff-review-resolution-");
    reveal_strlit("diff-review-reply-");
    reveal_strlit("diff-review-stash-");
    reveal_strlit("diff-review-edit-");
    reveal_strlit("diff-review-delete-");
    let x = button_prefix(a);
    let y = button_prefix(b);
    assert(x.len() == y.len());
    assert(x[12] == y[12] && x[13] == y[13] && x[14] == y[14]);
}

} // verus!
