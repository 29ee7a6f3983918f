//! Laws on the rows and the buttons that comments are shown with.

use crate::comment::StackReviewCommentSource;
use crate::debug_selector::ReplyTargetView;
use crate::decimal::decimal_text;
use crate::ranking::{is_ranking, lemma_ranking_exists, sorts_before};
use crate::record_order::nanos_or_first;
use crate::review_comment::{
    is_only_at, key_identity, only_at, CommentKeyView, ReviewCommentKey, StoredReviewComment,
};
use crate::review_rows::{
    agent_prompt, are_rows_for, button_action, is_row_of, line_ranges_label, line_ranges_text,
    row_buttons, CommentRow, RowAction, RowButton, RowSetting, SectionRow,
};
use crate::text::{opt_string_view, text_le};
use crate::thread_items::{
    comment_le, entry_items, lemma_comment_order, listed_items, ranked_comments, reply_target,
    told_order, ThreadItemView,
};
use crate::trim::{is_white_space, trim_end, trim_start, trimmed};
use vstd::prelude::*;
use vstd::string::*;

verus! {

proof fn lemma_trim_end_append(a: Seq<char>, b: Seq<char>)
    requires
        a.len() > 0,
        !is_white_space(a.last()),
    ensures
        trim_end(a + b) == a + trim_end(b),
    decreases b.len(),
{
    let whole = a + b;
    if b.len() == 0 {
        assert(whole =~= a);
        assert(a + trim_end(b) =~= a);
    } else {
        assert(whole.last() == b.last());
        if is_white_space(b.last()) {
            lemma_trim_end_append(a, b.drop_last());
            assert(whole.drop_last() =~= a + b.drop_last());
        }
    }
}

proof fn lemma_trim_end_blank(c: char, b: Seq<char>)
    requires
        is_white_space(c),
    ensures
        trim_end(seq![c] + b).len() == 0 || (trim_end(seq![c] + b) == seq![c] + trim_end(b)
            && trim_end(b).len() > 0),
        trim_end(seq![c] + b).len() == 0 ==> trim_end(b).len() == 0,
    decreases b.len(),
{
    let whole = seq![c] + b;
    if b.len() == 0 {
        assert(whole.drop_last() =~= Seq::<char>::empty());
        assert(trim_end(Seq::<char>::empty()).len() == 0);
    } else {
        assert(whole.last() == b.last());
        if is_white_space(b.last()) {
            lemma_trim_end_blank(c, b.drop_last());
            assert(whole.drop_last() =~= seq![c] + b.drop_last());
        }
    }
}

proof fn lemma_trim_twice(b: Seq<char>)
    ensures
        trim_end(trim_start(trim_end(b))) == trim_end(trim_start(b)),
    decreases b.len(),
{
    if b.len() > 0 {
        if is_white_space(b[0]) {
            let rest = b.drop_first();
            assert(b =~= seq![b[0]] + rest);
            lemma_trim_end_blank(b[0], rest);
            lemma_trim_twice(rest);
            if trim_end(b).len() == 0 {
                assert(trim_end(rest).len() == 0);
                assert(trim_end(b) =~= trim_end(rest));
            } else {
                assert(trim_end(b).drop_first() =~= trim_end(rest));
                assert(trim_end(b)[0] == b[0]);
            }
        } else {
            lemma_keeps_first(b);
            lemma_trim_end_idem(b);
        }
    }
}

proof fn lemma_keeps_first(b: Seq<char>)
    requires
        b.len() > 0,
        !is_white_space(b[0]),
    ensures
        trim_end(b).len() > 0,
        trim_end(b)[0] == b[0],
    decreases b.len(),
{
    if is_white_space(b.last()) {
        assert(b.len() > 1);
        assert(b.drop_last()[0] == b[0]);
        lemma_keeps_first(b.drop_last());
    }
}

proof fn lemma_trim_end_idem(b: Seq<char>)
    ensures
        trim_end(trim_end(b)) == trim_end(b),
    decreases b.len(),
{
    if b.len() > 0 && is_white_space(b.last()) {
        lemma_trim_end_idem(b.drop_last());
    }
}

/// A comment asks an agent where it begins with `@agent` and white space, or is that word alone, and
/// what it asks is all that follows, without the white space around it.
pub proof fn agents_are_asked_by_name(c: char, body: Seq<char>)
    ensures
        agent_prompt("@agent"@) == Some(Seq::<char>::empty()),
        is_white_space(c) ==> agent_prompt("@agent"@ + seq![c] + body) == Some(trimmed(body)),
        !is_white_space(c) ==> agent_prompt("@agent"@ + seq![c] + body) is None,
{
    reveal_strlit("@agent");
    let word = "@agent"@;
    assert(word.len() == 6 && word[0] == '@' && word[5] == 't');
    let text = word + seq![c] + body;
    assert(text =~= word + (seq![c] + body));
    assert(text[0] == word[0]);
    assert(trim_start(text) == text);
    assert(trim_start(word) == word);
    assert(trim_end(word) == word);
    assert(word.subrange(0, 6) =~= word);
    assert(word.skip(6) =~= Seq::<char>::empty());
    assert(trimmed(Seq::<char>::empty()) =~= Seq::<char>::empty());
    lemma_trim_end_append(word, seq![c] + body);
    let end = trim_end(seq![c] + body);
    let whole = word + end;
    assert(trimmed(text) == whole);
    assert(whole.subrange(0, 6) =~= word);
    assert(whole.skip(6) =~= end);
    if is_white_space(c) {
        lemma_trim_end_blank(c, body);
        lemma_trim_twice(body);
        if end.len() == 0 {
            assert(end =~= Seq::<char>::empty());
            assert(trim_end(body).len() == 0);
            assert(trim_end(body) =~= Seq::<char>::empty());
            assert(trim_start(trim_end(body)) =~= Seq::<char>::empty());
            assert(trimmed(body) =~= Seq::<char>::empty());
        } else {
            assert(end.drop_first() =~= trim_end(body));
            assert(trim_start(end) == trim_start(trim_end(body)));
        }
    } else {
        assert((seq![c] + body)[0] == c);
        lemma_keeps_first(seq![c] + body);
    }
}

/// The lines of an overlay are told as the first and the last of them, counted from one, unless they
/// are one line.
pub proof fn lines_are_told_from_one(start: u32, end: u32)
    ensures
        start != end ==> line_ranges_label(seq![(start, end)]) == Some(
            "Lines "@ + decimal_text((start + 1) as nat) + "-"@ + decimal_text((end + 1) as nat),
        ),
        start == end ==> line_ranges_label(seq![(start, end)]) is None,
{
    reveal_with_fuel(crate::review_rows::line_ranges_text, 2);
    assert(seq![(start, end)].len() == 1);
    assert(seq![(start, end)][0] == (start, end));
}

/// Which comments have which buttons: a comment that is not edited has buttons only in the review of
/// a stack, where each can be copied; one that is put away can be taken back and nothing else; of
/// the others each can be replied to, put away, and resolved or reopened, those from GitHub give a
/// checkpoint, and only the others can be edited and deleted. One that is edited has the two that
/// end the edit.
pub proof fn buttons_are_for_what_can_be_done(
    comment: StoredReviewComment,
    is_editing: bool,
    is_stack_review: bool,
)
    ensures
        ({
            let buttons = row_buttons(comment, is_editing, is_stack_review);
            let shown = is_stack_review && !is_editing;
            let open = shown && !comment.stashed;
            let github = comment.source == StackReviewCommentSource::Github;
            &&& buttons.contains(RowButton::CancelEdit) <==> is_editing
            &&& buttons.contains(RowButton::ConfirmEdit) <==> is_editing
            &&& buttons.contains(RowButton::Copy) <==> shown
            &&& buttons.contains(RowButton::RestoreThread) <==> shown && comment.stashed
            &&& buttons.contains(RowButton::StashThread) <==> open
            &&& buttons.contains(RowButton::Reply) <==> open
            &&& buttons.contains(RowButton::ResolveThread) <==> open && !comment.resolved
            &&& buttons.contains(RowButton::ReopenThread) <==> open && comment.resolved
            &&& buttons.contains(RowButton::UseCheckpoint) <==> open && github
            &&& buttons.contains(RowButton::Edit) <==> open && !github
            &&& buttons.contains(RowButton::Delete) <==> open && !github
            &&& buttons.no_duplicates()
        }),
{
    let buttons = row_buttons(comment, is_editing, is_stack_review);
    let resolution = if comment.resolved {
        RowButton::ReopenThread
    } else {
        RowButton::ResolveThread
    };
    if is_editing {
        assert(buttons[0] == RowButton::CancelEdit && buttons[1] == RowButton::ConfirmEdit);
    } else if is_stack_review {
        assert(buttons[0] == RowButton::Copy);
        if comment.stashed {
            assert(buttons[1] == RowButton::RestoreThread);
        } else if comment.source == StackReviewCommentSource::Github {
            assert(buttons[1] == RowButton::UseCheckpoint && buttons[2] == resolution);
            assert(buttons[3] == RowButton::Reply && buttons[4] == RowButton::StashThread);
        } else {
            assert(buttons[1] == resolution && buttons[2] == RowButton::Reply);
            assert(buttons[3] == RowButton::StashThread && buttons[4] == RowButton::Edit);
            assert(buttons[5] == RowButton::Delete);
        }
    }
}

/// Whether a key finds a comment: by its record, where it has one, and else by its number.
pub open spec fn names(key: ReviewCommentKey, comment: StoredReviewComment) -> bool {
    match key {
        ReviewCommentKey::Stable(record_id) => comment.record_id is Some && comment.record_id->0@
            == record_id@,
        ReviewCommentKey::Legacy(id) => comment.record_id is None && comment.id == id,
    }
}

/// A button acts on the comment that it is next to: it copies its text, names its record, turns over
/// whether it is resolved, or asks for it by a key that finds it.
pub proof fn buttons_act_on_their_comment(button: RowButton, comment: StoredReviewComment)
    ensures
        ({
            let action = button_action(button, comment, true);
            &&& button == RowButton::Copy <==> action is Some && action->0 is Copy
            &&& button == RowButton::Copy ==> action->0->Copy_text@ == comment.comment@
            &&& button == RowButton::CancelEdit ==> action is Some && action->0 is CancelEdit
                && names(action->0->CancelEdit_key, comment)
            &&& button == RowButton::ConfirmEdit ==> action is Some && action->0 is ConfirmEdit
                && names(action->0->ConfirmEdit_key, comment)
            &&& button == RowButton::Reply ==> action is Some && action->0 is Reply && names(
                action->0->Reply_key,
                comment,
            )
            &&& button == RowButton::Edit ==> action is Some && action->0 is Edit && names(
                action->0->Edit_key,
                comment,
            )
            &&& button == RowButton::Delete ==> action is Some && action->0 is Delete && names(
                action->0->Delete_key,
                comment,
            )
            &&& (button == RowButton::ResolveThread || button == RowButton::ReopenThread)
                ==> action is Some && action->0 is SetResolved && names(
                action->0->SetResolved_key,
                comment,
            ) && action->0->SetResolved_resolved == !comment.resolved
            &&& (button == RowButton::StashThread || button == RowButton::RestoreThread) ==> (
            action is Some <==> comment.record_id is Some)
            &&& button == RowButton::StashThread && comment.record_id is Some ==> action->0
                == (RowAction::ToggleStash { record_id: comment.record_id->0, is_stashed: false })
            &&& button == RowButton::RestoreThread && comment.record_id is Some ==> action->0
                == (RowAction::ToggleStash { record_id: comment.record_id->0, is_stashed: true })
            &&& button == RowButton::UseCheckpoint ==> action == Some(
                RowAction::UseCheckpoint { record_id: comment.record_id, id: comment.id },
            )
        }),
{
}

/// The row of a comment says what the comment says, or what it asks an agent; selecting it selects
/// the record of the comment, and its buttons are those of the comment.
pub proof fn rows_show_their_comments(
    row: CommentRow,
    comment: StoredReviewComment,
    occurrence: nat,
    reply: Option<ReplyTargetView>,
    is_stack_review: bool,
    agent_projection: Seq<u64>,
    agent_loading: bool,
    is_editing: bool,
    has_user_avatar: bool,
)
    requires
        is_row_of(
            row,
            comment,
            occurrence,
            reply,
            is_stack_review,
            agent_projection,
            agent_loading,
            is_editing,
            has_user_avatar,
        ),
    ensures
        is_editing <==> row.content@ is InlineEditor,
        row.content@ is Text ==> row.content@->Text_text == comment.comment@,
        row.content@ is AgentPrompt ==> agent_prompt(comment.comment@) == Some(
            row.content@->AgentPrompt_body,
        ),
        row.content@ is Text ==> agent_prompt(comment.comment@) is None,
        !is_editing ==> opt_string_view(row.selects) == opt_string_view(comment.record_id),
        is_editing ==> row.selects is None,
        row.is_faded == comment.stashed,
        row.shows_stashed_label <==> is_stack_review && comment.stashed,
        row.reply is Some <==> is_stack_review && reply is Some,
        is_stack_review ==> row.agent_responses@ == agent_projection && row.shows_agent_loading
            == agent_loading,
        row.buttons@ == row_buttons(comment, is_editing, is_stack_review),
{
}

/// Every item of a list of threads has its own row, in their order: one that shows its comment, or
/// the prompt for a reply.
pub proof fn items_have_their_own_rows(
    rows: Seq<SectionRow>,
    items: Seq<ThreadItemView>,
    setting: RowSetting,
    i: int,
)
    requires
        are_rows_for(rows, items, setting),
        0 <= i < items.len(),
    ensures
        rows.len() == items.len(),
        items[i] is Composer <==> rows[i] is Composer,
        items[i] is Comment ==> {
            let comment = items[i]->Comment_comment;
            let row = rows[i]->Comment_0;
            &&& row.is_faded == comment.stashed
            &&& row.content@ is Text ==> row.content@->Text_text == comment.comment@
            &&& row.selects is Some ==> opt_string_view(row.selects) == opt_string_view(
                comment.record_id,
            )
        },
{
    assert(crate::review_rows::is_row_for(rows[i], items[i], i as nat, setting));
}

/// Whether the item at `j` of a list of threads is the prompt for a reply to the comment of the item
/// before it, one step deeper than that.
pub open spec fn replies_to_the_item_before(items: Seq<ThreadItemView>, j: int) -> bool {
    &&& 0 < j < items.len()
    &&& items[j] is Composer
    &&& items[j - 1] is Comment
    &&& items[j]->Composer_depth == items[j - 1]->Comment_depth + 1
    &&& items[j]->Composer_target == (ReplyTargetView::Known {
        identity: key_identity(
            crate::review_comment::comment_key(items[j - 1]->Comment_comment),
        ),
        author: items[j - 1]->Comment_comment.author.name@,
    })
}

/// The prompt for a reply to a comment stands right behind that comment, one step deeper, and names
/// its author.
pub proof fn replies_are_written_below_their_comment(
    ranked: Seq<StoredReviewComment>,
    pending: Option<int>,
    entries: Seq<(int, nat)>,
    j: int,
)
    requires
        0 <= j < listed_items(ranked, pending, entries).len(),
        listed_items(ranked, pending, entries)[j] is Composer,
    ensures
        replies_to_the_item_before(listed_items(ranked, pending, entries), j),
        pending is Some,
        listed_items(ranked, pending, entries)[j - 1]->Comment_comment == ranked[pending->0],
    decreases entries.len(),
{
    let rest = entries.drop_last();
    let before = listed_items(ranked, pending, rest);
    let items = listed_items(ranked, pending, entries);
    let last = entry_items(ranked, pending, entries.last());
    assert(items == before + last);
    if j < before.len() {
        replies_are_written_below_their_comment(ranked, pending, rest, j);
        assert(items[j] == before[j]);
        assert(items[j - 1] == before[j - 1]);
    } else {
        let k = j - before.len();
        assert(items[j] == last[k]);
        assert(k == 1);
        assert(items[j - 1] == last[0]);
    }
}

/// A comment that replies to the one comment of a record is shown as a reply to it, with the name of
/// its author; one that replies to what cannot be told is shown as a reply to something that is not
/// available; and one that replies to nothing is not shown as a reply.
pub proof fn replies_name_what_they_reply_to(
    comments: Seq<StoredReviewComment>,
    k: int,
    parent: int,
    record_id: Seq<char>,
)
    requires
        0 <= k < comments.len(),
    ensures
        comments[k].reply_to_record_id is Some && comments[k].reply_to_record_id->0@ == record_id
            && k != parent && is_only_at(comments, CommentKeyView::Stable(record_id), parent)
            ==> reply_target(comments, k) == Some(
            ReplyTargetView::Known {
                identity: key_identity(CommentKeyView::Stable(record_id)),
                author: comments[parent].author.name@,
            },
        ),
        comments[k].reply_to_record_id is None && comments[k].reply_to is None ==> reply_target(
            comments,
            k,
        ) is None,
        comments[k].reply_to_record_id is Some || comments[k].reply_to is Some ==> reply_target(
            comments,
            k,
        ) is Some,
{
    if is_only_at(comments, CommentKeyView::Stable(record_id), parent) {
        let key = CommentKeyView::Stable(record_id);
        let at = choose|at: int| is_only_at(comments, key, at);
        assert(is_only_at(comments, key, at));
        assert(crate::review_comment::key_matches(key, comments[parent]));
        assert(at == parent);
        assert(only_at(comments, key) == Some(parent));
    }
}

/// Comments are told by their times, those of one time by their records, and those without one
/// first.
pub proof fn comments_are_told_in_order(comments: Seq<StoredReviewComment>, i: int, j: int)
    requires
        0 <= i < j < comments.len(),
    ensures
        ranked_comments(comments).len() == comments.len(),
        ({
            let a = ranked_comments(comments)[i];
            let b = ranked_comments(comments)[j];
            let x = nanos_or_first(a.created_at@);
            let y = nanos_or_first(b.created_at@);
            &&& x <= y
            &&& x == y ==> a.record_id is None || (b.record_id is Some && text_le(
                a.record_id->0@,
                b.record_id->0@,
            ))
            &&& x == y && opt_string_view(a.record_id) == opt_string_view(b.record_id) ==> a.id
                <= b.id
        }),
{
    let le = told_order(comments);
    let len = comments.len();
    assert forall|a: int, b: int|
        #![trigger le(a, b)]
        0 <= a < len && 0 <= b < len implies le(a, b) || le(b, a) by {
        lemma_comment_order(comments[a], comments[b], comments[b]);
    }
    assert forall|a: int, b: int, c: int|
        #![trigger le(a, b), le(b, c)]
        0 <= a < len && 0 <= b < len && 0 <= c < len && le(a, b) && le(b, c) implies le(a, c) by {
        lemma_comment_order(comments[a], comments[b], comments[c]);
    }
    lemma_ranking_exists(len, le);
    let order = choose|order: Seq<int>| is_ranking(order, len, le);
    assert(is_ranking(order, len, le));
    assert(sorts_before(le, order[i], order[j]));
    assert(ranked_comments(comments)[i] == comments[order[i]]);
    assert(ranked_comments(comments)[j] == comments[order[j]]);
    assert(comment_le(ranked_comments(comments)[i], ranked_comments(comments)[j]));
}

/// Several ranges are told one after the other, each as it is told alone.
pub proof fn ranges_are_told_one_by_one(a: Seq<(u32, u32)>, b: Seq<(u32, u32)>)
    requires
        a.len() > 0,
        b.len() > 0,
    ensures
        line_ranges_label(a + b) == Some(line_ranges_text(a + b)),
        line_ranges_text(a + b) == line_ranges_text(a) + " \u{22ef} "@ + line_ranges_text(b),
    decreases b.len(),
{
    let all = a + b;
    assert(all.drop_last() =~= a + b.drop_last());
    assert(all.last() == b.last());
    if b.len() == 1 {
        assert(all.drop_last() =~= a);
        assert(line_ranges_text(b) == crate::review_rows::line_range_text(b[0]));
    } else {
        ranges_are_told_one_by_one(a, b.drop_last());
        let mark = " \u{22ef} "@;
        assert(line_ranges_text(a) + mark + line_ranges_text(b.drop_last()) + mark
            + crate::review_rows::line_range_text(b.last()) =~= line_ranges_text(a) + mark + (
        line_ranges_text(b.drop_last()) + mark + crate::review_rows::line_range_text(b.last())));
    }
}

} // verus!
