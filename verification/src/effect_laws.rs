//! Laws on what an editor asks for and tells, and on the overlays that are shown again.

use crate::comment::{StackReviewComment, StackReviewCommentSource};
use crate::comment_laws::{
    cover_the_same, is_open_at, others_stay, same_but_for_text, shown_overlay_is_at_its_lines,
    stand_for_one,
};
use crate::editing_laws::edits_end_with_the_given_text;
use crate::editor::Editor;
use crate::editor_blame::{has_entries, hovers, BlameContext};
use crate::editor_comments::{
    has_number, is_first_numbered, removes_number, resolves_record, CommentStamp,
};
use crate::editor_composer::{adds_comment, opens_reply, shows_again};
use crate::editor_dismissal::{reveals, visible_comments};
use crate::editor_editing::{begins_edit_of, cancels_edit, deletes_number, removes_at};
use crate::editor_effect::{checkpoint_event, BlockStyle, EffectView, EventView, Placeholder};
use crate::editor_hunks::{
    buffers_with_files, goes_to_hunk, loaded_diffs, row_to_go_to, Direction, HunkSearch,
};
use crate::editor_overlays::{can_show_again, open_overlay_from, shows_overlay};
use crate::editor_projection::{replaces, restored_hunks};
use crate::editor_resolution::{numbers_in, records_in, resolution_effects};
use crate::overlay_height::{overlay_at, overlay_height, resize_effects};
use crate::review_comment::{AnchorRange, CommentKeyView, DiffHunkKey, StoredReviewComment};
use crate::review_snapshot::{Point, ReviewSnapshot};
use crate::review_store::{
    hunk_comments, hunk_from, is_only_stored, lemma_only_stored, lemma_total_with_new_comment,
    lemma_total_without_comment, only_stored, stored_at, total_comments, HunkView, QueryView,
};
use vstd::prelude::*;
use vstd::string::*;

verus! {

/// A new overlay is opened below the row on which its lines end, and on both sides of a split diff
/// exactly where it has comments on a stack to show; where it is to be written in, its prompt gets
/// the focus.
pub proof fn new_overlay_opens_below_its_lines(
    before: Editor,
    after: Editor,
    key: DiffHunkKey,
    range: AnchorRange,
    composer_visible: bool,
    snapshot: ReviewSnapshot,
)
    requires
        shows_overlay(before, after, key, range, composer_visible, snapshot),
        !is_open_at(before.diff_review_overlays@, key, range, snapshot),
    ensures
        after.asked().len() > before.asked().len(),
        before.asked().is_prefix_of(after.asked()),
        composer_visible ==> after.asked().last() == (EffectView::FocusPrompt {
            overlay: before.next_overlay,
        }) && after.asked().len() >= 2,
        ({
            let opened = after.asked()[after.asked().len() - if composer_visible {
                2int
            } else {
                1int
            }];
            let comments = hunk_comments(before.hunks(), key, snapshot);
            &&& opened is OpenOverlay
            &&& opened->OpenOverlay_overlay == before.next_overlay
            &&& opened->OpenOverlay_row == snapshot.point_at(range.end).row
            &&& opened->OpenOverlay_style == BlockStyle::StickyMirrored <==> before.is_stack_review
                && comments.len() > 0
            &&& before.is_stack_review ==> opened->OpenOverlay_height == 1
            &&& !before.is_stack_review ==> opened->OpenOverlay_height == overlay_height(
                comments,
                true,
                composer_visible,
            )
        }),
{
    lemma_not_open(before, key, range, snapshot, 0);
    assert(after.asked().subrange(0, before.asked().len() as int) =~= before.asked());
}

proof fn lemma_not_open(
    editor: Editor,
    key: DiffHunkKey,
    range: AnchorRange,
    snapshot: ReviewSnapshot,
    from: int,
)
    requires
        0 <= from,
        !is_open_at(editor.diff_review_overlays@, key, range, snapshot),
    ensures
        open_overlay_from(editor.diff_review_overlays@, key, range, snapshot, from) is None,
    decreases editor.diff_review_overlays@.len() - from,
{
    let overlays = editor.diff_review_overlays@;
    if from < overlays.len() {
        assert(!(stand_for_one(overlays[from].hunk_key, key, snapshot) && cover_the_same(
            overlays[from].anchor_range,
            range,
            snapshot,
        )));
        lemma_not_open(editor, key, range, snapshot, from + 1);
    }
}

/// Outside the review of a stack the overlay at a hunk gets the height that its comments and its
/// prompt take; in one it is laid out by what it shows.
pub proof fn overlays_get_the_height_they_take(
    is_stack_review: bool,
    overlays: Seq<crate::editor::DiffReviewOverlay>,
    hunks: Seq<HunkView>,
    key: DiffHunkKey,
    snapshot: ReviewSnapshot,
)
    ensures
        is_stack_review || overlay_at(overlays, key, snapshot) is None ==> resize_effects(
            is_stack_review,
            overlays,
            hunks,
            key,
            snapshot,
        ).len() == 0,
        !is_stack_review && overlay_at(overlays, key, snapshot) is Some ==> {
            let effects = resize_effects(is_stack_review, overlays, hunks, key, snapshot);
            let overlay = overlays[overlay_at(overlays, key, snapshot)->0];
            &&& effects.len() == 1
            &&& effects[0] is ResizeOverlay
            &&& effects[0]->ResizeOverlay_overlay == overlay.id
            &&& effects[0]->ResizeOverlay_height == overlay_height(
                hunk_comments(hunks, key, snapshot),
                overlay.comments_expanded,
                overlay.composer_visible,
            )
        },
{
}

/// A reply begins with an empty prompt, in the overlay at the hunk, that says so and has the focus.
pub proof fn replies_begin_with_an_empty_prompt(
    before: Editor,
    after: Editor,
    key: DiffHunkKey,
    id: usize,
    record_id: Option<String>,
    snapshot: ReviewSnapshot,
    at: int,
)
    requires
        opens_reply(before, after, key, id, record_id, snapshot),
        overlay_at(before.diff_review_overlays@, key, snapshot) == Some(at),
    ensures
        after.asked().len() >= before.asked().len() + 3,
        after.asked()[before.asked().len() as int] == (EffectView::ClearPrompt {
            overlay: before.diff_review_overlays@[at].id,
        }),
        after.asked()[(before.asked().len() + 1) as int] == (EffectView::SetPlaceholder {
            overlay: before.diff_review_overlays@[at].id,
            placeholder: Placeholder::Reply,
        }),
        after.asked().last() == (EffectView::FocusPrompt {
            overlay: before.diff_review_overlays@[at].id,
        }),
{
}

/// Where a comment is added, it is told how many there are then.
pub proof fn added_comments_are_counted(
    before: Editor,
    after: Editor,
    overlay: crate::editor::DiffReviewOverlay,
    text: String,
    stamp: CommentStamp,
    snapshot: ReviewSnapshot,
)
    requires
        adds_comment(before, after, overlay, text, stamp, snapshot),
    ensures
        after.asked().len() == before.asked().len() + 1,
        after.asked().last() == EffectView::Emit(
            EventView::ReviewCommentsChanged { total_count: total_comments(after.hunks()) },
        ),
        total_comments(after.hunks()) == total_comments(before.hunks()) + 1,
{
    let comment = crate::editor_comments::new_comment(
        before.is_stack_review,
        before.next_review_comment_id,
        text,
        overlay.anchor_range,
        overlay.comment_author,
        StackReviewCommentSource::LocalHuman,
        overlay.pending_reply_to,
        overlay.pending_reply_to_record_id,
        stamp,
    );
    lemma_total_with_new_comment(before.hunks(), overlay.hunk_key, snapshot, comment);
}

/// Where a comment is removed, it is told which record is gone or, where it has none, how many
/// comments are left.
pub proof fn removed_comments_are_told(
    before: Editor,
    after: Editor,
    key: CommentKeyView,
    h: int,
    i: int,
)
    requires
        removes_at(before, after, key, h, i),
        stored_at(before.hunks(), h, i),
    ensures
        total_comments(after.hunks()) + 1 == total_comments(before.hunks()),
        after.asked().len() == before.asked().len() + 1,
        after.asked().last() == EffectView::Emit(
            match key {
                CommentKeyView::Stable(record_id) => EventView::StackReviewCommentDeleted {
                    record_id,
                },
                CommentKeyView::Legacy(_) => EventView::ReviewCommentsChanged {
                    total_count: total_comments(after.hunks()),
                },
            },
        ),
        after.diff_review_overlays == before.diff_review_overlays,
{
    lemma_total_without_comment(before.hunks(), h, i);
}

/// Where the comment of a record is resolved or reopened, that record is told, and which of both.
pub proof fn resolved_records_are_told(
    before: Editor,
    after: Editor,
    record_id: Seq<char>,
    resolved: bool,
    h: int,
    i: int,
)
    requires
        resolves_record(before, after, record_id, resolved),
        is_only_stored(before.hunks(), QueryView::Key(CommentKeyView::Stable(record_id)), h, i),
    ensures
        after.asked().len() == before.asked().len() + 1,
        after.asked().last() == EffectView::Emit(
            EventView::StackReviewCommentResolutionChanged {
                record_ids: seq![record_id],
                resolved,
            },
        ),
{
    lemma_only_stored(
        before.hunks(),
        QueryView::Key(CommentKeyView::Stable(record_id)),
        h,
        i,
    );
}

proof fn lemma_told(keys: Seq<CommentKeyView>, key: CommentKeyView)
    ensures
        key matches CommentKeyView::Stable(record_id) ==> (records_in(keys).contains(record_id)
            <==> keys.contains(key)),
        key matches CommentKeyView::Legacy(id) ==> (numbers_in(keys).contains(id) <==> keys.contains(
            key,
        )),
        records_in(keys).len() + numbers_in(keys).len() == keys.len(),
    decreases keys.len(),
{
    if keys.len() > 0 {
        let rest = keys.drop_last();
        let last = keys.last();
        lemma_told(rest, key);
        assert(keys =~= rest.push(last));
        vstd::seq_lib::lemma_seq_contains_after_push(rest, last, key);
        match last {
            CommentKeyView::Stable(one) => {
                if let CommentKeyView::Stable(record_id) = key {
                    vstd::seq_lib::lemma_seq_contains_after_push(records_in(rest), one, record_id);
                }
            },
            CommentKeyView::Legacy(one) => {
                if let CommentKeyView::Legacy(id) = key {
                    vstd::seq_lib::lemma_seq_contains_after_push(numbers_in(rest), one, id);
                }
            },
        }
    }
}

/// Where a thread is resolved or reopened, each comment in it is told, by its record or by its number,
/// and no other is.
pub proof fn resolved_threads_are_told(keys: Seq<CommentKeyView>, resolved: bool, key: CommentKeyView)
    ensures
        keys.contains(key) <==> exists|e: int|
            #![trigger resolution_effects(keys, resolved)[e]]
            0 <= e < resolution_effects(keys, resolved).len() && match key {
                CommentKeyView::Stable(record_id) => resolution_effects(keys, resolved)[e] is Emit
                    && resolution_effects(keys, resolved)[e]->Emit_0 is StackReviewCommentResolutionChanged
                    && resolution_effects(
                    keys,
                    resolved,
                )[e]->Emit_0->StackReviewCommentResolutionChanged_record_ids.contains(record_id)
                    && resolution_effects(
                    keys,
                    resolved,
                )[e]->Emit_0->StackReviewCommentResolutionChanged_resolved == resolved,
                CommentKeyView::Legacy(id) => resolution_effects(keys, resolved)[e] is Emit
                    && resolution_effects(keys, resolved)[e]->Emit_0 is ReviewCommentResolutionChanged
                    && resolution_effects(
                    keys,
                    resolved,
                )[e]->Emit_0->ReviewCommentResolutionChanged_ids.contains(id) && resolution_effects(
                    keys,
                    resolved,
                )[e]->Emit_0->ReviewCommentResolutionChanged_resolved == resolved,
            },
{
    lemma_told(keys, key);
    let effects = resolution_effects(keys, resolved);
    let records = records_in(keys);
    let numbers = numbers_in(keys);
    if keys.contains(key) {
        match key {
            CommentKeyView::Stable(record_id) => {
                assert(records.contains(record_id));
                assert(effects[0]->Emit_0->StackReviewCommentResolutionChanged_record_ids
                    == records);
            },
            CommentKeyView::Legacy(id) => {
                assert(numbers.contains(id));
                let e: int = if records.len() > 0 {
                    1
                } else {
                    0
                };
                assert(effects[e]->Emit_0->ReviewCommentResolutionChanged_ids == numbers);
            },
        }
    }
}

/// The checkpoint before a comment is asked for by its record or, where it has none, by its number.
pub proof fn checkpoints_are_asked_for_by_key(comment: StoredReviewComment)
    ensures
        comment.record_id matches Some(record_id) ==> checkpoint_event(comment) == (
        EventView::StackReviewCommentCheckpointRequested { record_id: record_id@ }),
        comment.record_id is None ==> checkpoint_event(comment) == (
        EventView::ReviewCommentCheckpointRequested { id: comment.id }),
{
}

/// Going to a hunk goes to the beginning of its row, and changes nothing in the editor.
pub proof fn one_goes_to_the_beginning_of_a_row(
    before: Editor,
    after: Editor,
    search: HunkSearch,
    position: Point,
    direction: Direction,
    wrap_around: bool,
)
    requires
        goes_to_hunk(before, after, search, position, direction, wrap_around),
    ensures
        row_to_go_to(search, position, direction, wrap_around) is None ==> after == before,
        row_to_go_to(search, position, direction, wrap_around) matches Some(row)
            ==> after.asked().len() == before.asked().len() + 1 && after.asked().last() == (
        EffectView::GoTo { point: Point { row, column: 0 } }) && after.hunks() == before.hunks()
            && after.diff_review_overlays == before.diff_review_overlays,
{
}

/// A popover at the cursor is shown only where there is a blame: where none was begun, one is, and
/// the popover is awaited until something was found out.
pub proof fn hovering_begins_a_blame(
    before: Editor,
    after: Editor,
    has_entry: bool,
    has_place: bool,
    context: BlameContext,
)
    requires
        hovers(before, after, has_entry, has_place, context),
    ensures
        before.blame_state.blame is Some ==> after.blame_state.blame == before.blame_state.blame,
        before.blame_state.blame is None && (!before.has_project || context.without_file) ==> after
            == before,
        before.blame_state.blame is None && before.has_project && !context.without_file
            ==> after.blame_state.blame == Some(context.fresh) && (!context.has_entries
            ==> after.blame_state.hover_awaited),
        before.blame_state.blame is Some && !(has_entry && has_place) ==> after == before,
        before.blame_state.blame is Some && has_entry && has_place
            && before.blame_state.inline_blame_popover is None ==> after.blame_state.popover_awaited,
        has_entries(before, context) ==> before.blame_state.blame is Some && context.has_entries,
{
}

proof fn lemma_same_comments(
    store: Seq<HunkView>,
    a: DiffHunkKey,
    b: DiffHunkKey,
    snapshot: ReviewSnapshot,
    from: int,
)
    requires
        0 <= from,
        stand_for_one(a, b, snapshot),
    ensures
        hunk_from(store, a, snapshot, from) == hunk_from(store, b, snapshot, from),
        hunk_comments(store, a, snapshot) == hunk_comments(store, b, snapshot) || from > 0,
    decreases store.len() - from,
{
    if from < store.len() {
        lemma_same_comments(store, a, b, snapshot, from + 1);
    }
}

/// Whether an overlay is open at a hunk and at the lines of a range.
pub open spec fn is_shown_at(
    editor: Editor,
    key: DiffHunkKey,
    range: AnchorRange,
    snapshot: ReviewSnapshot,
) -> bool {
    is_open_at(editor.diff_review_overlays@, key, range, snapshot)
}

proof fn lemma_shows_again_keeps(
    before: Editor,
    after: Editor,
    key: DiffHunkKey,
    range: AnchorRange,
    snapshot: ReviewSnapshot,
    other: DiffHunkKey,
    lines: AnchorRange,
)
    requires
        shows_again(before, after, key, range, snapshot),
        is_shown_at(before, other, lines, snapshot),
        hunk_comments(before.hunks(), other, snapshot).len() > 0,
    ensures
        is_shown_at(after, other, lines, snapshot),
        after.hunks() == before.hunks(),
{
    if can_show_again(before.is_stack_review, key, range, snapshot) {
        let at = shown_overlay_is_at_its_lines(before, after, key, range, false, snapshot);
        let overlays = before.diff_review_overlays@;
        let k = choose|k: int|
            0 <= k < overlays.len() && stand_for_one(
                (#[trigger] overlays[k]).hunk_key,
                other,
                snapshot,
            ) && cover_the_same(overlays[k].anchor_range, lines, snapshot);
        lemma_same_comments(before.hunks(), overlays[k].hunk_key, other, snapshot, 0);
        let now = after.diff_review_overlays@;
        let j = choose|j: int|
            0 <= j < now.len() && (#[trigger] now[j]).id == overlays[k].id && now[j].anchor_range
                == overlays[k].anchor_range && now[j].hunk_key == overlays[k].hunk_key;
        assert(stand_for_one(now[j].hunk_key, other, snapshot));
    }
}

/// Where overlays are shown again, each hunk with comments has one, at the lines of its first comment,
/// if these are still in its file; and no comment changes.
pub proof fn hunks_with_comments_are_shown_again(
    before: Editor,
    after: Editor,
    hunks: Seq<HunkView>,
    snapshot: ReviewSnapshot,
    h: int,
)
    requires
        reveals(before, after, hunks, snapshot),
        0 <= h < hunks.len(),
        hunks[h].comments.len() > 0,
        hunk_comments(before.hunks(), hunks[h].key, snapshot).len() > 0,
        can_show_again(
            before.is_stack_review,
            hunks[h].key,
            hunks[h].comments[0].range,
            snapshot,
        ),
    ensures
        is_shown_at(after, hunks[h].key, hunks[h].comments[0].range, snapshot),
    decreases hunks.len(),
{
    let rest = hunks.drop_last();
    let last = hunks.last();
    if last.comments.len() == 0 {
        assert(rest[h] == hunks[h]);
        hunks_with_comments_are_shown_again(before, after, rest, snapshot, h);
    } else {
        let shown = choose|shown: Editor|
            reveals(before, shown, rest, snapshot) && #[trigger] shows_again(
                shown,
                after,
                last.key,
                last.comments[0].range,
                snapshot,
            );
        lemma_reveals_keeps(before, shown, rest, snapshot);
        if h < rest.len() {
            assert(rest[h] == hunks[h]);
            hunks_with_comments_are_shown_again(before, shown, rest, snapshot, h);
            lemma_shows_again_keeps(
                shown,
                after,
                last.key,
                last.comments[0].range,
                snapshot,
                hunks[h].key,
                hunks[h].comments[0].range,
            );
        } else {
            let at = shown_overlay_is_at_its_lines(
                shown,
                after,
                last.key,
                last.comments[0].range,
                false,
                snapshot,
            );
            assert(stand_for_one(after.diff_review_overlays@[at].hunk_key, last.key, snapshot));
        }
    }
}

proof fn lemma_reveals_keeps(
    before: Editor,
    after: Editor,
    hunks: Seq<HunkView>,
    snapshot: ReviewSnapshot,
)
    requires
        reveals(before, after, hunks, snapshot),
    ensures
        after.hunks() == before.hunks(),
        after.is_stack_review == before.is_stack_review,
    decreases hunks.len(),
{
    if hunks.len() > 0 {
        let rest = hunks.drop_last();
        let last = hunks.last();
        if last.comments.len() == 0 {
            lemma_reveals_keeps(before, after, rest, snapshot);
        } else {
            let shown = choose|shown: Editor|
                reveals(before, shown, rest, snapshot) && #[trigger] shows_again(
                    shown,
                    after,
                    last.key,
                    last.comments[0].range,
                    snapshot,
                );
            lemma_reveals_keeps(before, shown, rest, snapshot);
            if can_show_again(shown.is_stack_review, last.key, last.comments[0].range, snapshot) {
                let at = shown_overlay_is_at_its_lines(
                    shown,
                    after,
                    last.key,
                    last.comments[0].range,
                    false,
                    snapshot,
                );
            }
        }
    }
}

/// Where the comments of a review take the place of those of an editor, its comments are then exactly
/// those that can be placed, and nothing else is told.
pub proof fn replaced_comments_are_those_of_the_review(
    before: Editor,
    after: Editor,
    comments: Seq<StackReviewComment>,
    stashed_record_ids: Seq<String>,
    localized: Map<Seq<char>, String>,
    snapshot: ReviewSnapshot,
)
    requires
        replaces(before, after, comments, stashed_record_ids, localized, snapshot),
    ensures
        after.hunks() == restored_hunks(comments, stashed_record_ids, localized, snapshot),
        after.is_stack_review == before.is_stack_review,
{
    let (first, dropped) = choose|first: Editor, dropped: Editor|
        crate::editor_projection::restores(
            before,
            first,
            comments,
            stashed_record_ids,
            false,
            localized,
            snapshot,
        ) && #[trigger] crate::editor_projection::drops_unused(first, dropped, snapshot) && reveals(
            dropped,
            after,
            dropped.hunks(),
            snapshot,
        );
    lemma_reveals_keeps(dropped, after, dropped.hunks(), snapshot);
}

/// Giving up an edit leaves every comment as it was, but that the one is no longer edited.
pub proof fn given_up_edits_change_nothing(
    before: Editor,
    after: Editor,
    key: CommentKeyView,
    snapshot: ReviewSnapshot,
    h: int,
    i: int,
)
    requires
        cancels_edit(before, after, key, snapshot),
        is_only_stored(before.hunks(), QueryView::Key(key), h, i),
    ensures
        others_stay(before.hunks(), after.hunks(), h, i),
        same_but_for_text(after.hunks()[h].comments[i], before.hunks()[h].comments[i]),
        after.hunks()[h].comments[i].comment == before.hunks()[h].comments[i].comment,
        after.hunks()[h].comments[i].resolved == before.hunks()[h].comments[i].resolved,
        !after.hunks()[h].comments[i].is_editing,
{
    lemma_only_stored(before.hunks(), QueryView::Key(key), h, i);
    edits_end_with_the_given_text(
        before,
        after,
        key,
        h,
        i,
        before.hunks()[h].comments[i].comment,
        Seq::empty(),
        snapshot,
    );
}

/// A comment from GitHub is not edited, nor is one whose key finds several.
pub proof fn github_comments_are_not_edited(
    before: Editor,
    after: Editor,
    key: CommentKeyView,
    snapshot: ReviewSnapshot,
)
    requires
        begins_edit_of(before, after, key, snapshot),
        forall|h: int, i: int|
            #![trigger before.hunks()[h].comments[i]]
            is_only_stored(before.hunks(), QueryView::Key(key), h, i)
                ==> before.hunks()[h].comments[i].source == StackReviewCommentSource::Github,
    ensures
        after == before,
{
    if let Some((h, i)) = only_stored(before.hunks(), QueryView::Key(key)) {
        assert(is_only_stored(before.hunks(), QueryView::Key(key), h, i));
        assert(before.hunks()[h].comments[i].source == StackReviewCommentSource::Github);
    }
}

/// A comment that is deleted by its number is gone, unless it comes from GitHub.
pub proof fn deleted_numbers_are_gone(
    before: Editor,
    after: Editor,
    id: usize,
    snapshot: ReviewSnapshot,
    h: int,
    i: int,
)
    requires
        deletes_number(before, after, id, snapshot),
        is_first_numbered(before.hunks(), id, h, i),
    ensures
        before.hunks()[h].comments[i].source == StackReviewCommentSource::Github ==> after == before,
        before.hunks()[h].comments[i].source != StackReviewCommentSource::Github ==> total_comments(
            after.hunks(),
        ) + 1 == total_comments(before.hunks()) && after.hunks().len() == before.hunks().len()
            && after.hunks()[h].comments.len() + 1 == before.hunks()[h].comments.len(),
{
    assert(before.hunks()[h].comments[i].id == id);
    assert(has_number(before.hunks(), id));
    let (x, y) = choose|x: int, y: int| #[trigger]
        is_first_numbered(before.hunks(), id, x, y) && crate::editor_editing::deletes_first(
            before,
            after,
            id,
            x,
            y,
            snapshot,
        );
    assert(before.hunks()[x].comments[y].id == id);
    assert(x == h && y == i);
    if before.hunks()[h].comments[i].source != StackReviewCommentSource::Github {
        let removed = choose|removed: Editor| #[trigger]
            removes_number(before, removed, id) && crate::editor_editing::follows_removal(
                removed,
                after,
                before.hunks()[h].key,
                snapshot,
            );
        assert(after.stored_review_comments == removed.stored_review_comments);
        crate::comment_laws::removing_takes_one_comment(before, removed, id, h, i);
        lemma_total_without_comment(before.hunks(), h, i);
        crate::editor_comments::lemma_total_mapped(
            crate::review_store::without_comment(before.hunks(), h, i),
            |comment: StoredReviewComment| crate::editor_comments::without_reply(comment, id),
        );
    }
}

/// The comments that are visible are those of each overlay's hunk.
pub proof fn visible_comments_are_those_of_the_overlays(
    overlays: Seq<crate::editor::DiffReviewOverlay>,
    more: Seq<crate::editor::DiffReviewOverlay>,
    hunks: Seq<HunkView>,
    snapshot: ReviewSnapshot,
    overlay: crate::editor::DiffReviewOverlay,
)
    ensures
        visible_comments(overlays + more, hunks, snapshot) == visible_comments(
            overlays,
            hunks,
            snapshot,
        ) + visible_comments(more, hunks, snapshot),
        visible_comments(seq![overlay], hunks, snapshot) == hunk_comments(
            hunks,
            overlay.hunk_key,
            snapshot,
        ).len(),
    decreases more.len(),
{
    reveal_with_fuel(visible_comments, 2);
    assert(seq![overlay].drop_last().len() == 0);
    if more.len() == 0 {
        assert(overlays + more =~= overlays);
    } else {
        visible_comments_are_those_of_the_overlays(
            overlays,
            more.drop_last(),
            hunks,
            snapshot,
            overlay,
        );
        assert((overlays + more).drop_last() =~= overlays + more.drop_last());
        assert((overlays + more).last() == more.last());
    }
}

/// The buffers whose diffs are loaded are those with a file, in their order, and what is loaded is
/// what could be.
pub proof fn diffs_of_files_are_loaded(buffers: Seq<(u64, bool)>, diffs: Seq<Option<u64>>)
    ensures
        buffers_with_files(buffers) == buffers.filter(|buffer: (u64, bool)| buffer.1).map_values(
            |buffer: (u64, bool)| buffer.0,
        ),
        loaded_diffs(diffs) == diffs.filter(|diff: Option<u64>| diff is Some).map_values(
            |diff: Option<u64>| diff->0,
        ),
    decreases buffers.len() + diffs.len(),
{
    reveal(Seq::filter);
    let with_file = |buffer: (u64, bool)| buffer.1;
    let number = |buffer: (u64, bool)| buffer.0;
    let is_loaded = |diff: Option<u64>| diff is Some;
    let loaded = |diff: Option<u64>| diff->0;
    if buffers.len() > 0 {
        diffs_of_files_are_loaded(buffers.drop_last(), diffs);
    } else if diffs.len() > 0 {
        diffs_of_files_are_loaded(buffers, diffs.drop_last());
    }
    assert(buffers_with_files(buffers) =~= buffers.filter(with_file).map_values(number));
    assert(loaded_diffs(diffs) =~= diffs.filter(is_loaded).map_values(loaded));
}

/// An overlay that is open where one is to be written in is used again: its prompt is for a comment and
/// gets the focus. Where nothing is to be written, nothing happens.
pub proof fn open_overlays_are_used_again(
    before: Editor,
    after: Editor,
    key: DiffHunkKey,
    range: AnchorRange,
    composer_visible: bool,
    snapshot: ReviewSnapshot,
)
    requires
        shows_overlay(before, after, key, range, composer_visible, snapshot),
        is_open_at(before.diff_review_overlays@, key, range, snapshot),
    ensures
        after.next_overlay == before.next_overlay,
        !composer_visible ==> after == before,
        composer_visible ==> exists|at: int|
            #![trigger before.diff_review_overlays@[at]]
            0 <= at < before.diff_review_overlays@.len() && cover_the_same(
                before.diff_review_overlays@[at].anchor_range,
                range,
                snapshot,
            ) && after.asked().len() > before.asked().len() + 1
                && after.asked()[before.asked().len() as int] == (EffectView::SetPlaceholder {
                overlay: before.diff_review_overlays@[at].id,
                placeholder: Placeholder::Comment,
            }) && after.asked().last() == (EffectView::FocusPrompt {
                overlay: before.diff_review_overlays@[at].id,
            }),
{
    let at = shown_overlay_is_at_its_lines(before, after, key, range, composer_visible, snapshot);
    let overlays = before.diff_review_overlays@;
    lemma_is_open(before, key, range, snapshot, 0);
    let found = open_overlay_from(overlays, key, range, snapshot, 0)->0;
    assert(cover_the_same(overlays[found].anchor_range, range, snapshot));
}

proof fn lemma_is_open(
    editor: Editor,
    key: DiffHunkKey,
    range: AnchorRange,
    snapshot: ReviewSnapshot,
    from: int,
)
    requires
        0 <= from,
        exists|k: int|
            from <= k < editor.diff_review_overlays@.len() && stand_for_one(
                (#[trigger] editor.diff_review_overlays@[k]).hunk_key,
                key,
                snapshot,
            ) && cover_the_same(editor.diff_review_overlays@[k].anchor_range, range, snapshot),
    ensures
        open_overlay_from(editor.diff_review_overlays@, key, range, snapshot, from) matches Some(at)
            && from <= at < editor.diff_review_overlays@.len() && cover_the_same(
            editor.diff_review_overlays@[at].anchor_range,
            range,
            snapshot,
        ),
    decreases editor.diff_review_overlays@.len() - from,
{
    let overlays = editor.diff_review_overlays@;
    let k = choose|k: int|
        from <= k < overlays.len() && stand_for_one(
            (#[trigger] overlays[k]).hunk_key,
            key,
            snapshot,
        ) && cover_the_same(overlays[k].anchor_range, range, snapshot);
    if k > from {
        lemma_is_open(editor, key, range, snapshot, from + 1);
    }
}

} // verus!
