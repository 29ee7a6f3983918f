//! Laws on what follows where comments are written, edited, deleted and restored.

use crate::comment::StackReviewComment;
use crate::comment_laws::{
    cover_the_same, others_stay, same_but_for_text, shown_overlay_is_at_its_lines, stand_for_one,
};
use crate::editor::Editor;
use crate::editor_comments::CommentStamp;
use crate::editor_composer::{
    adds_comment, closes_overlay, follows_submit, publishes_overlay, reply_is_placed, shows_again,
    submits,
};
use crate::editor_editing::{
    edit_keys, ends_edit, follows_removal, is_edited_in_place, keys_without,
};
use crate::editor_effect::{EffectView, EventView, Placeholder};
use crate::editor_projection::{placed, placed_key, restored, restores};
use crate::overlay_height::{overlay_at, overlay_from};
use crate::record_order::rfc3339_nanos;
use crate::review_comment::{Anchor, AnchorRange, CommentKeyView, DiffHunkKey};
use crate::review_snapshot::{
    anchor_with_point, buffer_with_path, Point, ReviewBuffer, ReviewSnapshot,
};
use crate::review_state::{
    comment_ids, deduplicated, greatest, is_repeat, lemma_renumbered_len, renumbered, repeat_count,
    with_ids,
};
use crate::review_store::{
    hunk_at, hunk_comments, is_only_stored, lemma_hunk_from, lemma_only_stored, stored_at, HunkView,
    QueryView,
};
use crate::text::opt_string_view;
use crate::trim::trimmed;
use vstd::prelude::*;
use vstd::string::*;

verus! {

/// Once the first comment at some lines was submitted in the review of a stack, an overlay is open
/// at the same lines and the same hunk, to show it, and has no prompt.
pub proof fn published_overlay_stays_at_its_lines(
    before: Editor,
    after: Editor,
    at: int,
    prompt: Seq<char>,
    stamp: CommentStamp,
    snapshot: ReviewSnapshot,
)
    requires
        submits(before, after, at, prompt, stamp, snapshot),
        0 <= at < before.diff_review_overlays@.len(),
        trimmed(prompt).len() > 0,
        reply_is_placed(before, before.diff_review_overlays@[at], snapshot),
        before.is_stack_review,
        hunk_comments(
            before.hunks(),
            before.diff_review_overlays@[at].hunk_key,
            snapshot,
        ).len() == 0,
        snapshot.path_at(before.diff_review_overlays@[at].anchor_range.start) == Some(
            before.diff_review_overlays@[at].hunk_key.file_path@,
        ),
        snapshot.path_at(before.diff_review_overlays@[at].anchor_range.end) == Some(
            before.diff_review_overlays@[at].hunk_key.file_path@,
        ),
    ensures
        exists|k: int|
            #![trigger after.diff_review_overlays@[k]]
            0 <= k < after.diff_review_overlays@.len() && stand_for_one(
                after.diff_review_overlays@[k].hunk_key,
                before.diff_review_overlays@[at].hunk_key,
                snapshot,
            ) && cover_the_same(
                after.diff_review_overlays@[k].anchor_range,
                before.diff_review_overlays@[at].anchor_range,
                snapshot,
            ),
        after.asked().last() == EffectView::FocusEditor,
{
    let overlay = before.diff_review_overlays@[at];
    let (text, added) = choose|text: String, added: Editor|
        text@ == trimmed(prompt) && #[trigger] adds_comment(
            before,
            added,
            overlay,
            text,
            stamp,
            snapshot,
        ) && follows_submit(before, added, after, at, snapshot);
    assert(publishes_overlay(before, overlay, snapshot));
    let (closed, shown) = choose|closed: Editor, shown: Editor|
        closes_overlay(added, closed, at) && #[trigger] shows_again(
            closed,
            shown,
            overlay.hunk_key,
            overlay.anchor_range,
            snapshot,
        ) && crate::editor_composer::asks(shown, after, EffectView::FocusEditor);
    let k = shown_overlay_is_at_its_lines(
        closed,
        shown,
        overlay.hunk_key,
        overlay.anchor_range,
        false,
        snapshot,
    );
    assert(after.diff_review_overlays@[k] == shown.diff_review_overlays@[k]);
}

/// Once a further comment was submitted, its overlay stays where it is; in the review of a stack its
/// prompt is put away and replies to nothing. No other overlay changes.
pub proof fn further_comments_keep_the_overlay(
    before: Editor,
    after: Editor,
    at: int,
    prompt: Seq<char>,
    stamp: CommentStamp,
    snapshot: ReviewSnapshot,
)
    requires
        submits(before, after, at, prompt, stamp, snapshot),
        0 <= at < before.diff_review_overlays@.len(),
        trimmed(prompt).len() > 0,
        reply_is_placed(before, before.diff_review_overlays@[at], snapshot),
        !before.is_stack_review || hunk_comments(
            before.hunks(),
            before.diff_review_overlays@[at].hunk_key,
            snapshot,
        ).len() > 0,
    ensures
        after.diff_review_overlays@.len() == before.diff_review_overlays@.len(),
        forall|k: int|
            0 <= k < before.diff_review_overlays@.len() && k != at
                ==> #[trigger] after.diff_review_overlays@[k] == before.diff_review_overlays@[k],
        after.diff_review_overlays@[at].id == before.diff_review_overlays@[at].id,
        after.diff_review_overlays@[at].anchor_range == before.diff_review_overlays@[at].anchor_range,
        after.diff_review_overlays@[at].hunk_key == before.diff_review_overlays@[at].hunk_key,
        before.is_stack_review ==> !after.diff_review_overlays@[at].composer_visible
            && after.diff_review_overlays@[at].pending_reply_to is None
            && after.diff_review_overlays@[at].pending_reply_to_record_id is None,
        !before.is_stack_review ==> after.diff_review_overlays@ == before.diff_review_overlays@,
        after.asked().len() >= before.asked().len() + 3,
        after.asked()[(before.asked().len() + 1) as int] == (EffectView::ClearPrompt {
            overlay: before.diff_review_overlays@[at].id,
        }),
        after.asked()[(before.asked().len() + 2) as int] == (EffectView::SetPlaceholder {
            overlay: before.diff_review_overlays@[at].id,
            placeholder: Placeholder::Comment,
        }),
        before.is_stack_review ==> after.asked()[(before.asked().len() + 3) as int]
            == EffectView::FocusEditor,
{
    let overlay = before.diff_review_overlays@[at];
    let (text, added) = choose|text: String, added: Editor|
        text@ == trimmed(prompt) && #[trigger] adds_comment(
            before,
            added,
            overlay,
            text,
            stamp,
            snapshot,
        ) && follows_submit(before, added, after, at, snapshot);
    assert(added.diff_review_overlays == before.diff_review_overlays);
}

/// In the review of a stack, a reply to the record of a comment is submitted where the one comment of
/// that record is the one it was begun for and stands at the hunk of the overlay, and it is not where
/// no comment has that record.
pub proof fn replies_are_submitted_where_they_belong(
    before: Editor,
    at: int,
    snapshot: ReviewSnapshot,
    record_id: Seq<char>,
    h: int,
    i: int,
)
    requires
        before.is_stack_review,
        0 <= at < before.diff_review_overlays@.len(),
        opt_string_view(before.diff_review_overlays@[at].pending_reply_to_record_id) == Some(
            record_id,
        ),
    ensures
        is_only_stored(before.hunks(), QueryView::Key(CommentKeyView::Stable(record_id)), h, i)
            ==> (reply_is_placed(before, before.diff_review_overlays@[at], snapshot)
            <==> stand_for_one(
            before.hunks()[h].key,
            before.diff_review_overlays@[at].hunk_key,
            snapshot,
        ) && before.diff_review_overlays@[at].pending_reply_to == Some(
            before.hunks()[h].comments[i].id,
        )),
        (forall|g: int, j: int|
            #![trigger before.hunks()[g].comments[j]]
            stored_at(before.hunks(), g, j) ==> opt_string_view(
                before.hunks()[g].comments[j].record_id,
            ) != Some(record_id)) ==> !reply_is_placed(
            before,
            before.diff_review_overlays@[at],
            snapshot,
        ),
{
    let query = QueryView::Key(CommentKeyView::Stable(record_id));
    let store = before.hunks();
    if is_only_stored(store, query, h, i) {
        lemma_only_stored(store, query, h, i);
    }
    if forall|g: int, j: int|
        #![trigger store[g].comments[j]]
        stored_at(store, g, j) ==> opt_string_view(store[g].comments[j].record_id) != Some(
            record_id,
        ) {
        assert forall|g: int, j: int| !is_only_stored(store, query, g, j) by {
            if is_only_stored(store, query, g, j) {
                assert(opt_string_view(store[g].comments[j].record_id) != Some(record_id));
            }
        }
    }
}

/// The comments of a hunk are those kept under the first key that stands for it, and there are none
/// where no key does.
pub proof fn hunks_have_their_own_comments(
    store: Seq<HunkView>,
    key: DiffHunkKey,
    snapshot: ReviewSnapshot,
    h: int,
)
    requires
        0 <= h <= store.len(),
        forall|g: int| 0 <= g < h ==> !stand_for_one((#[trigger] store[g]).key, key, snapshot),
        h < store.len() ==> stand_for_one(store[h].key, key, snapshot),
    ensures
        h < store.len() ==> hunk_comments(store, key, snapshot) == store[h].comments,
        h == store.len() ==> hunk_comments(store, key, snapshot).len() == 0,
{
    lemma_hunk_from(store, key, snapshot, 0);
    if let Some(found) = hunk_at(store, key, snapshot) {
        assert(stand_for_one(store[found].key, key, snapshot));
        if h < found {
            assert(!snapshot.same_hunk(store[h].key, key));
        }
    } else if h < store.len() {
        assert(!snapshot.same_hunk(store[h].key, key));
    }
}

proof fn lemma_keys_without(keys: Seq<CommentKeyView>, key: CommentKeyView)
    ensures
        keys_without(keys, key) == keys.filter(|other: CommentKeyView| other != key),
        !keys_without(keys, key).contains(key),
    decreases keys.len(),
{
    reveal(Seq::filter);
    if keys.len() > 0 {
        lemma_keys_without(keys.drop_last(), key);
        let before = keys_without(keys.drop_last(), key);
        let now = keys_without(keys, key);
        if now.contains(key) {
            let k = choose|k: int| 0 <= k < now.len() && now[k] == key;
            if k < before.len() {
                assert(before[k] == key);
            }
        }
    }
}

/// An edit ends with the text that is given and with no editor in place of the comment any longer;
/// the edits of other comments go on, and nothing else of the comment changes, nor any other.
pub proof fn edits_end_with_the_given_text(
    before: Editor,
    after: Editor,
    key: CommentKeyView,
    h: int,
    i: int,
    body: String,
    told: Seq<EffectView>,
    snapshot: ReviewSnapshot,
)
    requires
        ends_edit(before, after, key, h, i, body, told, snapshot),
    ensures
        others_stay(before.hunks(), after.hunks(), h, i),
        same_but_for_text(after.hunks()[h].comments[i], before.hunks()[h].comments[i]),
        after.hunks()[h].comments[i].comment == body,
        !after.hunks()[h].comments[i].is_editing,
        after.hunks()[h].comments[i].resolved == before.hunks()[h].comments[i].resolved,
        is_edited_in_place(before, key, h, snapshot) ==> exists|at: int|
            #![trigger after.diff_review_overlays@[at]]
            0 <= at < after.diff_review_overlays@.len() && edit_keys(
                after.diff_review_overlays@[at],
            ) == edit_keys(before.diff_review_overlays@[at]).filter(
                |other: CommentKeyView| other != key,
            ) && edit_keys(before.diff_review_overlays@[at]).contains(key) && after.asked().last()
                == (EffectView::CloseInlineEditor {
                overlay: before.diff_review_overlays@[at].id,
                key,
            }),
        !is_edited_in_place(before, key, h, snapshot) ==> after.diff_review_overlays
            == before.diff_review_overlays,
{
    if is_edited_in_place(before, key, h, snapshot) {
        let overlays = before.diff_review_overlays@;
        let at = overlay_at(overlays, before.hunks()[h].key, snapshot)->0;
        lemma_keys_without(edit_keys(overlays[at]), key);
        assert(edit_keys(after.diff_review_overlays@[at]) == keys_without(
            edit_keys(overlays[at]),
            key,
        ));
        let asked = before.asked() + told.push(
            EffectView::CloseInlineEditor { overlay: overlays[at].id, key },
        );
        assert(asked.last() == told.push(
            EffectView::CloseInlineEditor { overlay: overlays[at].id, key },
        ).last());
    }
}

/// Once the last comment of a hunk is gone, the overlay at that hunk is closed, and no other; as long
/// as there is one, all stay.
pub proof fn overlays_close_with_their_last_comment(
    before: Editor,
    after: Editor,
    key: DiffHunkKey,
    snapshot: ReviewSnapshot,
    at: int,
)
    requires
        follows_removal(before, after, key, snapshot),
        0 <= at < before.diff_review_overlays@.len(),
        stand_for_one(before.diff_review_overlays@[at].hunk_key, key, snapshot),
        forall|k: int|
            0 <= k < at ==> !stand_for_one(
                (#[trigger] before.diff_review_overlays@[k]).hunk_key,
                key,
                snapshot,
            ),
    ensures
        hunk_comments(before.hunks(), key, snapshot).len() > 0 ==> after.diff_review_overlays
            == before.diff_review_overlays,
        hunk_comments(before.hunks(), key, snapshot).len() == 0 ==> {
            &&& after.diff_review_overlays@ == before.diff_review_overlays@.remove(at)
            &&& after.asked().last() == (EffectView::CloseOverlays {
                overlays: seq![before.diff_review_overlays@[at].id],
            })
        },
        after.hunks() == before.hunks(),
{
    lemma_first_overlay(before, key, snapshot, 0, at);
}

proof fn lemma_first_overlay(
    editor: Editor,
    key: DiffHunkKey,
    snapshot: ReviewSnapshot,
    from: int,
    at: int,
)
    requires
        0 <= from <= at < editor.diff_review_overlays@.len(),
        stand_for_one(editor.diff_review_overlays@[at].hunk_key, key, snapshot),
        forall|k: int|
            from <= k < at ==> !stand_for_one(
                (#[trigger] editor.diff_review_overlays@[k]).hunk_key,
                key,
                snapshot,
            ),
    ensures
        overlay_from(editor.diff_review_overlays@, key, snapshot, from) == Some(at),
    decreases at - from,
{
    if from < at {
        assert(!stand_for_one(editor.diff_review_overlays@[from].hunk_key, key, snapshot));
        lemma_first_overlay(editor, key, snapshot, from + 1, at);
    }
}

/// A comment of a review is restored with all that it is: its number, its record, what it says, who
/// wrote it and where from, what it replies to, when it was written and whether it is resolved; and
/// it is put away exactly where its record is among those that are.
pub proof fn restored_comment_is_as_it_was(
    comment: StackReviewComment,
    range: AnchorRange,
    stashed_record_ids: Seq<String>,
    localized: Map<Seq<char>, String>,
)
    ensures
        ({
            let stored = restored(comment, range, stashed_record_ids, localized);
            &&& stored.id == comment.id
            &&& stored.record_id == comment.record_id
            &&& stored.comment == comment.body
            &&& stored.range.start == range.start
            &&& stored.range.end == range.end
            &&& stored.author == comment.author
            &&& stored.source == comment.source
            &&& stored.reply_to == comment.reply_to
            &&& stored.reply_to_record_id == comment.reply_to_record_id
            &&& stored.created_at == comment.created_at
            &&& stored.created_at_display == if rfc3339_nanos(comment.created_at@) is Some
                && localized.dom().contains(comment.created_at@) {
                Some(localized[comment.created_at@])
            } else {
                None
            }
            &&& stored.resolved == comment.resolved
            &&& !stored.is_editing
            &&& stored.stashed <==> comment.record_id is Some && exists|i: int|
                0 <= i < stashed_record_ids.len() && (#[trigger] stashed_record_ids[i])@
                    == comment.record_id->0@
        }),
{
}

proof fn lemma_buffer(buffers: Seq<ReviewBuffer>, path: Seq<char>, from: int)
    requires
        0 <= from,
    ensures
        buffer_with_path(buffers, path, from) matches Some(at) ==> from <= at < buffers.len()
            && opt_string_view(buffers[at].path) == Some(path),
        buffer_with_path(buffers, path, from) is None ==> forall|k: int|
            from <= k < buffers.len() ==> opt_string_view((#[trigger] buffers[k]).path) != Some(
                path,
            ),
    decreases buffers.len() - from,
{
    if from < buffers.len() {
        lemma_buffer(buffers, path, from + 1);
    }
}

proof fn lemma_anchor(anchors: Seq<(Point, Anchor)>, point: Point, from: int)
    requires
        0 <= from,
    ensures
        anchor_with_point(anchors, point, from) matches Some(anchor) ==> anchors.contains(
            (point, anchor),
        ),
        anchor_with_point(anchors, point, from) is None ==> forall|k: int|
            from <= k < anchors.len() ==> (#[trigger] anchors[k]).0 != point,
    decreases anchors.len() - from,
{
    if from < anchors.len() {
        if anchors[from].0 == point {
            assert(anchors[from] == (point, anchors[from].1));
        } else {
            lemma_anchor(anchors, point, from + 1);
        }
    }
}

/// A comment of a review is placed at the anchors of its file at which its lines begin and end, and
/// is grouped by both, under the path of its file.
pub proof fn placed_comment_is_at_its_lines(comment: StackReviewComment, snapshot: ReviewSnapshot)
    ensures
        placed(comment, snapshot) matches Some(range) ==> exists|b: int|
            #![trigger snapshot.buffers@[b]]
            0 <= b < snapshot.buffers@.len() && opt_string_view(snapshot.buffers@[b].path) == Some(
                comment.path@,
            ) && snapshot.buffers@[b].anchors@.contains(
                (Point { row: comment.start_row, column: comment.start_column }, range.start),
            ) && snapshot.buffers@[b].anchors@.contains(
                (Point { row: comment.end_row, column: comment.end_column }, range.end),
            ),
        placed(comment, snapshot) matches Some(range) ==> {
            let key = placed_key(comment, range);
            &&& key.file_path == comment.path
            &&& key.hunk_start_anchor == range.start
            &&& key.review_range_end_anchor == Some(range.end)
        },
        (forall|b: int|
            0 <= b < snapshot.buffers@.len() ==> opt_string_view(
                (#[trigger] snapshot.buffers@[b]).path,
            ) != Some(comment.path@)) ==> placed(comment, snapshot) is None,
{
    lemma_buffer(snapshot.buffers@, comment.path@, 0);
    if let Some(b) = buffer_with_path(snapshot.buffers@, comment.path@, 0) {
        lemma_anchor(
            snapshot.buffers@[b].anchors@,
            Point { row: comment.start_row, column: comment.start_column },
            0,
        );
        lemma_anchor(
            snapshot.buffers@[b].anchors@,
            Point { row: comment.end_row, column: comment.end_column },
            0,
        );
        assert(opt_string_view(snapshot.buffers@[b].path) == Some(comment.path@));
    }
}

/// Restoring the comments of a review closes no overlay and writes in none, and tells how many there
/// are where it is to tell.
pub proof fn restoring_leaves_the_overlays(
    before: Editor,
    after: Editor,
    comments: Seq<StackReviewComment>,
    stashed_record_ids: Seq<String>,
    tell: bool,
    localized: Map<Seq<char>, String>,
    snapshot: ReviewSnapshot,
)
    requires
        restores(before, after, comments, stashed_record_ids, tell, localized, snapshot),
    ensures
        after.diff_review_overlays == before.diff_review_overlays,
        after.is_stack_review == before.is_stack_review,
        !tell ==> after.asked() == before.asked(),
        tell ==> after.asked().len() == before.asked().len() + 1 && after.asked().last()
            == EffectView::Emit(
            EventView::ReviewCommentsChanged {
                total_count: crate::review_store::total_comments(after.hunks()),
            },
        ),
{
}

/// A comment that gets another number keeps all else.
pub proof fn renumbering_changes_numbers_alone(comments: Seq<StackReviewComment>, i: int)
    requires
        0 <= i < comments.len(),
    ensures
        ({
            let now = with_ids(comments, deduplicated(comment_ids(comments)));
            &&& now.len() == comments.len()
            &&& now[i].id == deduplicated(comment_ids(comments))[i]
            &&& now[i].record_id == comments[i].record_id
            &&& now[i].path == comments[i].path
            &&& now[i].start_row == comments[i].start_row
            &&& now[i].start_column == comments[i].start_column
            &&& now[i].end_row == comments[i].end_row
            &&& now[i].end_column == comments[i].end_column
            &&& now[i].body == comments[i].body
            &&& now[i].created_at == comments[i].created_at
            &&& now[i].resolved == comments[i].resolved
            &&& now[i].author == comments[i].author
            &&& now[i].source == comments[i].source
            &&& now[i].reply_to == comments[i].reply_to
            &&& now[i].reply_to_record_id == comments[i].reply_to_record_id
        }),
{
}

proof fn lemma_unseen_number(ids: Seq<usize>, seen: Set<usize>, next: usize)
    requires
        forall|k: int| 0 <= k < ids.len() ==> #[trigger] ids[k] != next,
    ensures
        repeat_count(ids, seen.insert(next)) == repeat_count(ids, seen),
    decreases ids.len(),
{
    if ids.len() > 0 {
        let rest = ids.drop_first();
        assert(ids[0] != next);
        assert forall|k: int| 0 <= k < rest.len() implies #[trigger] rest[k] != next by {
            assert(rest[k] == ids[k + 1]);
        }
        lemma_unseen_number(rest, seen, next);
        lemma_unseen_number(rest, seen.insert(ids[0]), next);
        assert(seen.insert(next).insert(ids[0]) =~= seen.insert(ids[0]).insert(next));
    }
}

proof fn lemma_new_number(ids: Seq<usize>, seen: Set<usize>, next: usize, i: int)
    requires
        0 <= i < ids.len(),
        forall|k: int| 0 <= k < ids.len() ==> #[trigger] ids[k] < next,
        is_repeat(ids, seen, i),
        next + repeat_count(ids.take(i), seen) < usize::MAX,
    ensures
        renumbered(ids, seen, next).len() == ids.len(),
        renumbered(ids, seen, next)[i] == next + repeat_count(ids.take(i), seen),
    decreases ids.len(),
{
    lemma_renumbered_len(ids, seen, next);
    let rest = ids.drop_first();
    assert(ids[0] < next);
    assert forall|k: int| 0 <= k < rest.len() implies #[trigger] rest[k] < next by {
        assert(rest[k] == ids[k + 1]);
    }
    if i == 0 {
        assert(ids.take(0).len() == 0);
    } else {
        let some = ids.take(i);
        assert(some[0] == ids[0]);
        assert(some.drop_first() =~= rest.take(i - 1));
        if seen.contains(ids[0]) {
            assert forall|k: int| 0 <= k < some.drop_first().len() implies #[trigger] some.drop_first()[k]
                != next by {
                assert(some.drop_first()[k] == ids[k + 1]);
            }
            lemma_unseen_number(some.drop_first(), seen, next);
            assert(is_repeat(rest, seen.insert(next), i - 1)) by {
                assert(rest[i - 1] == ids[i]);
                if !seen.contains(ids[i]) {
                    let j = choose|j: int| 0 <= j < i && #[trigger] ids[j] == ids[i];
                    assert(j > 0);
                    assert(rest[j - 1] == ids[j]);
                }
            }
            lemma_new_number(rest, seen.insert(next), (next + 1) as usize, i - 1);
        } else {
            assert(is_repeat(rest, seen.insert(ids[0]), i - 1)) by {
                assert(rest[i - 1] == ids[i]);
                if !seen.contains(ids[i]) {
                    let j = choose|j: int| 0 <= j < i && #[trigger] ids[j] == ids[i];
                    if j > 0 {
                        assert(rest[j - 1] == ids[j]);
                    }
                }
            }
            lemma_new_number(rest, seen.insert(ids[0]), next, i - 1);
        }
    }
}

/// The greatest of some numbers is one of them and none is greater.
pub proof fn the_greatest_is_one_of_them(ids: Seq<usize>)
    ensures
        forall|k: int| 0 <= k < ids.len() ==> #[trigger] ids[k] <= greatest(ids),
        ids.len() > 0 ==> ids.contains(greatest(ids)),
        ids.len() == 0 ==> greatest(ids) == 0,
    decreases ids.len(),
{
    if ids.len() > 0 {
        let rest = ids.drop_last();
        the_greatest_is_one_of_them(rest);
        assert(ids[ids.len() - 1] == ids.last());
        assert forall|k: int| 0 <= k < ids.len() implies #[trigger] ids[k] <= greatest(ids) by {
            if k < rest.len() {
                assert(rest[k] == ids[k]);
            }
        }
        if rest.len() > 0 {
            let k = choose|k: int| 0 <= k < rest.len() && rest[k] == greatest(rest);
            assert(ids[k] == rest[k]);
        }
    }
}

/// Comments whose numbers stood before get new ones, one after the other from right above the
/// greatest.
pub proof fn new_numbers_follow_the_greatest(ids: Seq<usize>, i: int)
    requires
        0 <= i < ids.len(),
        is_repeat(ids, Set::empty(), i),
        greatest(ids) + 1 + repeat_count(ids.take(i), Set::empty()) < usize::MAX,
    ensures
        deduplicated(ids)[i] == greatest(ids) + 1 + repeat_count(ids.take(i), Set::empty()),
{
    the_greatest_is_one_of_them(ids);
    lemma_new_number(ids, Set::empty(), (greatest(ids) + 1) as usize, i);
}

} // verus!
