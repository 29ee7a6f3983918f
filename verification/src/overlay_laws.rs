//! Laws on overlays, on the comments of an editor as those of a review, and on blame.

use crate::comment::StackReviewComment;
use crate::comment_laws::{cover_the_same, shown_overlay_is_at_its_lines};
use crate::editor::{DiffReviewOverlay, Editor};
use crate::editor_blame::{shows_popover, starts_blame, toggles_inline_blame, BlameContext};
use crate::editor_dismissal::{
    buffer_row, editing_overlay, focused_overlay, overlay_ids, shows_selected, toggles,
    with_composers_closed, with_expanded,
};
use crate::editor_editing::edit_keys;
use crate::editor_effect::EffectView;
use crate::editor_overlays::{
    close_effects, ids_unless, in_use, is_key_for, overlays_where, reviewed_path, shows_overlay,
};
use crate::editor_projection::{
    by_number, number_order, projected, projected_comments, projected_hunks,
};
use crate::editor_resolution::{is_active_comment, keys_at, on_row, resolves_thread, thread_places};
use crate::overlay_height::{
    body_lines, body_lines_from, comments_height, line_feed_at, overlay_height, visual_lines,
};
use crate::ranking::{
    is_ranking, lemma_permuted_multiset, lemma_ranking_covers, lemma_ranking_exists,
    lemma_ranking_permutes, sorts_before, total_preorder,
};
use crate::review_comment::{
    comment_key, Anchor, AnchorRange, CommentKeyView, DiffHunkKey, StoredReviewComment,
};
use crate::review_snapshot::ReviewSnapshot;
use crate::review_store::{all_comments, hunk_comments, stored_at, HunkView};
use vstd::prelude::*;
use vstd::string::*;

verus! {

/// Lines that are selected for a comment have an overlay, in which it can be written: at lines that
/// begin and end where they do. In the review of a stack they have to be in one file, whose comments
/// are grouped by both ends of the lines; elsewhere they are grouped by the hunk.
pub proof fn selected_lines_have_an_overlay(
    before: Editor,
    after: Editor,
    selected: AnchorRange,
    hunk_start: Anchor,
    snapshot: ReviewSnapshot,
) -> (at: int)
    requires
        shows_selected(before, after, selected, hunk_start, snapshot),
        before.is_stack_review ==> snapshot.path_at(selected.start) is Some && snapshot.path_at(
            selected.end,
        ) == snapshot.path_at(selected.start),
    ensures
        0 <= at < after.diff_review_overlays@.len(),
        cover_the_same(after.diff_review_overlays@[at].anchor_range, selected, snapshot),
        after.diff_review_overlays@[at].composer_visible,
        after.diff_review_overlays@[at].pending_reply_to is None,
        snapshot.path_at(selected.start) is Some ==> after.diff_review_overlays@[at].hunk_key.file_path@
            == snapshot.path_at(selected.start)->0,
        before.is_stack_review ==> snapshot.point_at(
            after.diff_review_overlays@[at].hunk_key.hunk_start_anchor,
        ) == snapshot.point_at(selected.start)
            && after.diff_review_overlays@[at].hunk_key.review_range_end_anchor is Some
            && snapshot.point_at(
            after.diff_review_overlays@[at].hunk_key.review_range_end_anchor->0,
        ) == snapshot.point_at(selected.end),
        !before.is_stack_review ==> snapshot.point_at(
            after.diff_review_overlays@[at].hunk_key.hunk_start_anchor,
        ) == snapshot.point_at(hunk_start)
            && after.diff_review_overlays@[at].hunk_key.review_range_end_anchor is None,
        after.hunks() == before.hunks(),
{
    let path = reviewed_path(before.is_stack_review, selected, snapshot)->0;
    let key = choose|key: DiffHunkKey|
        is_key_for(key, before.is_stack_review, path, hunk_start, selected)
            && #[trigger] shows_overlay(before, after, key, selected, true, snapshot);
    shown_overlay_is_at_its_lines(before, after, key, selected, true, snapshot)
}

/// Lines of a stack under review that are in no file, or in two, have no overlay.
pub proof fn lines_of_two_files_have_no_overlay(
    before: Editor,
    after: Editor,
    selected: AnchorRange,
    hunk_start: Anchor,
    snapshot: ReviewSnapshot,
)
    requires
        shows_selected(before, after, selected, hunk_start, snapshot),
        before.is_stack_review,
        snapshot.path_at(selected.start) is None || snapshot.path_at(selected.end)
            != snapshot.path_at(selected.start),
    ensures
        after == before,
{
}

/// Toggling the comments of an overlay folds them away if they are shown, and else shows them; no
/// other overlay changes, and toggling twice changes nothing.
pub proof fn toggling_twice_changes_no_overlay(
    first: Editor,
    second: Editor,
    third: Editor,
    at: int,
    snapshot: ReviewSnapshot,
)
    requires
        0 <= at < first.diff_review_overlays@.len(),
        toggles(first, second, at, snapshot),
        toggles(second, third, at, snapshot),
    ensures
        second.diff_review_overlays@.len() == first.diff_review_overlays@.len(),
        second.diff_review_overlays@[at].comments_expanded
            != first.diff_review_overlays@[at].comments_expanded,
        forall|k: int|
            0 <= k < first.diff_review_overlays@.len() && k != at
                ==> #[trigger] second.diff_review_overlays@[k] == first.diff_review_overlays@[k],
        second.hunks() == first.hunks(),
        third.diff_review_overlays@ == first.diff_review_overlays@,
{
    assert(third.diff_review_overlays@ =~= first.diff_review_overlays@);
}

/// Showing or folding away the comments of all overlays does so in each, and changes nothing else.
pub proof fn expanding_changes_nothing_else(overlay: DiffReviewOverlay, expanded: bool)
    ensures
        with_expanded(overlay, expanded).comments_expanded == expanded,
        with_expanded(overlay, expanded).anchor_range == overlay.anchor_range,
        with_expanded(overlay, expanded).id == overlay.id,
        with_expanded(with_expanded(overlay, expanded), overlay.comments_expanded) == overlay,
{
}

/// The overlay that is toggled is the one in focus or, where none is, the first.
pub proof fn the_focused_overlay_counts(overlays: Seq<DiffReviewOverlay>, focused: u64, at: int)
    requires
        0 <= at < overlays.len(),
        overlays[at].id == focused,
        forall|k: int| 0 <= k < at ==> (#[trigger] overlays[k]).id != focused,
    ensures
        focused_overlay(overlays, Some(focused)) == Some(at),
        focused_overlay(overlays, None) == Some(0int),
        focused_overlay(Seq::empty(), Some(focused)) is None,
{
    lemma_numbered(overlays, focused, 0, at);
}

proof fn lemma_numbered(overlays: Seq<DiffReviewOverlay>, overlay: u64, from: int, at: int)
    requires
        0 <= from <= at < overlays.len(),
        overlays[at].id == overlay,
        forall|k: int| from <= k < at ==> (#[trigger] overlays[k]).id != overlay,
    ensures
        crate::editor_overlays::overlay_numbered(overlays, overlay, from) == Some(at),
    decreases at - from,
{
    if from < at {
        lemma_numbered(overlays, overlay, from + 1, at);
    }
}

/// Of the overlays, those that are kept stay, in their order, and exactly the numbers of the others
/// are closed.
pub proof fn overlays_are_kept_or_closed(
    overlays: Seq<DiffReviewOverlay>,
    keep: spec_fn(DiffReviewOverlay) -> bool,
)
    ensures
        overlays_where(overlays, keep) == overlays.filter(keep),
        ids_unless(overlays, keep) == overlays.filter(
            |overlay: DiffReviewOverlay| !keep(overlay),
        ).map_values(|overlay: DiffReviewOverlay| overlay.id),
    decreases overlays.len(),
{
    reveal(Seq::filter);
    let lost = |overlay: DiffReviewOverlay| !keep(overlay);
    let id = |overlay: DiffReviewOverlay| overlay.id;
    if overlays.len() > 0 {
        overlays_are_kept_or_closed(overlays.drop_last(), keep);
        assert(ids_unless(overlays, keep) =~= overlays.filter(lost).map_values(id));
    } else {
        assert(ids_unless(overlays, keep) =~= overlays.filter(lost).map_values(id));
    }
}

/// An overlay stays open where it has comments to show and, where that counts, where something is
/// being written in it, and nowhere else.
pub proof fn overlays_in_use_stay_open(
    hunks: Seq<HunkView>,
    snapshot: ReviewSnapshot,
    overlay: DiffReviewOverlay,
)
    ensures
        in_use(hunks, snapshot, false)(overlay) <==> hunk_comments(
            hunks,
            overlay.hunk_key,
            snapshot,
        ).len() > 0,
        in_use(hunks, snapshot, true)(overlay) <==> overlay.composer_visible || hunk_comments(
            hunks,
            overlay.hunk_key,
            snapshot,
        ).len() > 0,
{
}

/// Once prompts are put away, nothing is being written anywhere, and else the overlays are as they
/// were.
pub proof fn no_prompt_stays_open(overlays: Seq<DiffReviewOverlay>, i: int)
    requires
        0 <= i < overlays.len(),
    ensures
        with_composers_closed(overlays).len() == overlays.len(),
        !with_composers_closed(overlays)[i].composer_visible,
        overlays[i].composer_visible ==> with_composers_closed(overlays)[i].pending_reply_to is None
            && with_composers_closed(overlays)[i].pending_reply_to_record_id is None,
        with_composers_closed(overlays)[i].id == overlays[i].id,
        with_composers_closed(overlays)[i].anchor_range == overlays[i].anchor_range,
        with_composers_closed(overlays)[i].hunk_key == overlays[i].hunk_key,
        with_composers_closed(overlays)[i].comments_expanded == overlays[i].comments_expanded,
        !overlays[i].composer_visible ==> with_composers_closed(overlays)[i] == overlays[i],
{
}

/// A comment that is edited in place is found in the first overlay in which it is.
pub proof fn edits_are_found_in_their_overlay(
    overlays: Seq<DiffReviewOverlay>,
    key: CommentKeyView,
    from: int,
)
    requires
        0 <= from,
    ensures
        editing_overlay(overlays, key, from) matches Some(at) ==> from <= at < overlays.len()
            && edit_keys(overlays[at]).contains(key),
        editing_overlay(overlays, key, from) is None ==> forall|k: int|
            from <= k < overlays.len() ==> !edit_keys(#[trigger] overlays[k]).contains(key),
    decreases overlays.len() - from,
{
    if from < overlays.len() {
        edits_are_found_in_their_overlay(overlays, key, from + 1);
    }
}

/// Each line of a comment takes as many lines as its characters fill, and at least one.
pub proof fn lines_hold_their_columns(len: nat)
    ensures
        visual_lines(len) >= 1,
        len <= 24 * visual_lines(len),
        len > 0 ==> 24 * (visual_lines(len) - 1) < len,
        len == 0 ==> visual_lines(len) == 1,
{
}

proof fn lemma_feed(text: Seq<char>, from: int, at: int)
    requires
        0 <= from <= at <= text.len(),
        forall|k: int| from <= k < at ==> text[k] != '\n',
        at < text.len() ==> text[at] == '\n',
    ensures
        line_feed_at(text, from) == at,
    decreases at - from,
{
    if from < at {
        lemma_feed(text, from + 1, at);
    }
}

proof fn lemma_lines_shift(text: Seq<char>, before: Seq<char>, from: int)
    requires
        0 <= from <= text.len(),
    ensures
        body_lines_from(before + text, before.len() + from) == body_lines_from(text, from),
    decreases text.len() - from,
{
    let whole = before + text;
    lemma_feed_shift(text, before, from);
    let end = line_feed_at(text, from);
    lemma_feed_bounds(text, from);
    if end < text.len() {
        lemma_lines_shift(text, before, end + 1);
    }
}

proof fn lemma_feed_bounds(text: Seq<char>, from: int)
    requires
        0 <= from <= text.len(),
    ensures
        from <= line_feed_at(text, from) <= text.len(),
    decreases text.len() - from,
{
    if from < text.len() && text[from] != '\n' {
        lemma_feed_bounds(text, from + 1);
    }
}

proof fn lemma_feed_shift(text: Seq<char>, before: Seq<char>, from: int)
    requires
        0 <= from <= text.len(),
    ensures
        line_feed_at(before + text, before.len() + from) == before.len() + line_feed_at(text, from),
    decreases text.len() - from,
{
    if from < text.len() {
        assert((before + text)[before.len() + from] == text[from]);
        if text[from] != '\n' {
            lemma_feed_shift(text, before, from + 1);
        }
    }
}

/// The lines of a comment are counted one by one.
pub proof fn lines_are_counted_one_by_one(line: Seq<char>, rest: Seq<char>)
    requires
        !line.contains('\n'),
    ensures
        body_lines(line) == visual_lines(line.len()),
        body_lines(line + seq!['\n'] + rest) == visual_lines(line.len()) + body_lines(rest),
{
    let whole = line + seq!['\n'] + rest;
    assert forall|k: int| 0 <= k < line.len() implies line[k] != '\n' by {
        assert(line.contains(line[k]));
    }
    lemma_feed(line, 0, line.len() as int);
    assert forall|k: int| 0 <= k < line.len() implies whole[k] != '\n' by {
        assert(whole[k] == line[k]);
    }
    assert(whole[line.len() as int] == '\n');
    lemma_feed(whole, 0, line.len() as int);
    lemma_lines_shift(rest, line + seq!['\n'], 0);
}

/// The prompt takes two lines more, and every comment that is shown its own lines and one more.
pub proof fn heights_add_up(
    comments: Seq<StoredReviewComment>,
    comment: StoredReviewComment,
    expanded: bool,
)
    requires
        comments_height(comments.push(comment)) < 0x1000_0000,
    ensures
        overlay_height(comments.push(comment), expanded, true) == overlay_height(
            comments.push(comment),
            expanded,
            false,
        ) + 2,
        overlay_height(comments.push(comment), true, false) == 1 + comments_height(
            comments,
        ) + body_lines(comment.comment@) + 1,
        overlay_height(comments.push(comment), false, false) == 1,
        overlay_height(Seq::empty(), expanded, false) == 0,
        overlay_height(Seq::empty(), expanded, true) == 2,
{
    assert(comments.push(comment).drop_last() =~= comments);
}

/// The lines that an overlay is for are told as those of their buffer, both ends of them.
pub proof fn lines_are_those_of_the_buffer(anchor: Anchor, snapshot: ReviewSnapshot)
    ensures
        snapshot.buffer_at(anchor) is Some ==> buffer_row(anchor, snapshot) == snapshot.buffer_at(
            anchor,
        )->0.point.row,
        snapshot.buffer_at(anchor) is None ==> buffer_row(anchor, snapshot) == snapshot.point_at(
            anchor,
        ).row,
{
}

proof fn lemma_projected_comments(
    key: DiffHunkKey,
    comments: Seq<StoredReviewComment>,
    snapshot: ReviewSnapshot,
    shown: StackReviewComment,
)
    ensures
        projected_comments(key, comments, snapshot).contains(shown) <==> exists|i: int|
            0 <= i < comments.len() && projected(key, #[trigger] comments[i], snapshot) == Some(shown),
    decreases comments.len(),
{
    if comments.len() > 0 {
        let rest = comments.drop_last();
        lemma_projected_comments(key, rest, snapshot, shown);
        let before = projected_comments(key, rest, snapshot);
        let now = projected_comments(key, comments, snapshot);
        if now.contains(shown) {
            let k = choose|k: int| 0 <= k < now.len() && now[k] == shown;
            if k < before.len() {
                assert(before[k] == shown);
                let i = choose|i: int|
                    0 <= i < rest.len() && projected(key, #[trigger] rest[i], snapshot) == Some(
                        shown,
                    );
                assert(comments[i] == rest[i]);
            } else {
                assert(projected(key, comments[comments.len() - 1], snapshot) == Some(shown));
            }
        }
        if exists|i: int|
            0 <= i < comments.len() && projected(key, #[trigger] comments[i], snapshot) == Some(
                shown,
            ) {
            let i = choose|i: int|
                0 <= i < comments.len() && projected(key, #[trigger] comments[i], snapshot) == Some(
                    shown,
                );
            if i < rest.len() {
                assert(projected(key, rest[i], snapshot) == Some(shown));
                let k = choose|k: int| 0 <= k < before.len() && before[k] == shown;
                assert(now[k] == shown);
            } else {
                assert(now[now.len() - 1] == shown);
            }
        }
    }
}

proof fn lemma_projected_hunks(
    hunks: Seq<HunkView>,
    snapshot: ReviewSnapshot,
    shown: StackReviewComment,
)
    ensures
        projected_hunks(hunks, snapshot).contains(shown) <==> exists|h: int, i: int|
            #![trigger hunks[h].comments[i]]
            stored_at(hunks, h, i) && projected(hunks[h].key, hunks[h].comments[i], snapshot)
                == Some(shown),
    decreases hunks.len(),
{
    if hunks.len() > 0 {
        let rest = hunks.drop_last();
        let last = hunks.last();
        lemma_projected_hunks(rest, snapshot, shown);
        lemma_projected_comments(last.key, last.comments, snapshot, shown);
        let before = projected_hunks(rest, snapshot);
        let more = projected_comments(last.key, last.comments, snapshot);
        let now = projected_hunks(hunks, snapshot);
        if now.contains(shown) {
            let k = choose|k: int| 0 <= k < now.len() && now[k] == shown;
            if k < before.len() {
                assert(before[k] == shown);
                let (h, i) = choose|h: int, i: int|
                    #![trigger rest[h].comments[i]]
                    stored_at(rest, h, i) && projected(rest[h].key, rest[h].comments[i], snapshot)
                        == Some(shown);
                assert(hunks[h].comments[i] == rest[h].comments[i]);
            } else {
                assert(more[k - before.len()] == shown);
                let i = choose|i: int|
                    0 <= i < last.comments.len() && projected(
                        last.key,
                        #[trigger] last.comments[i],
                        snapshot,
                    ) == Some(shown);
                assert(hunks[hunks.len() - 1].comments[i] == last.comments[i]);
            }
        }
        if exists|h: int, i: int|
            #![trigger hunks[h].comments[i]]
            stored_at(hunks, h, i) && projected(hunks[h].key, hunks[h].comments[i], snapshot)
                == Some(shown) {
            let (h, i) = choose|h: int, i: int|
                #![trigger hunks[h].comments[i]]
                stored_at(hunks, h, i) && projected(hunks[h].key, hunks[h].comments[i], snapshot)
                    == Some(shown);
            if h < rest.len() {
                assert(rest[h].comments[i] == hunks[h].comments[i]);
                let k = choose|k: int| 0 <= k < before.len() && before[k] == shown;
                assert(now[k] == shown);
            } else {
                assert(projected(last.key, last.comments[i], snapshot) == Some(shown));
                let k = choose|k: int| 0 <= k < more.len() && more[k] == shown;
                assert(now[before.len() + k] == shown);
            }
        }
    }
}

/// The comments of a review are those of the editor whose lines can be told, each as it is there, in
/// the order of their numbers.
pub proof fn all_comments_are_projected(
    hunks: Seq<HunkView>,
    snapshot: ReviewSnapshot,
    shown: StackReviewComment,
)
    ensures
        by_number(projected_hunks(hunks, snapshot)).contains(shown) <==> exists|h: int, i: int|
            #![trigger hunks[h].comments[i]]
            stored_at(hunks, h, i) && projected(hunks[h].key, hunks[h].comments[i], snapshot)
                == Some(shown),
        by_number(projected_hunks(hunks, snapshot)).to_multiset() == projected_hunks(
            hunks,
            snapshot,
        ).to_multiset(),
        forall|i: int, j: int|
            0 <= i < j < by_number(projected_hunks(hunks, snapshot)).len() ==> (
            #[trigger] by_number(projected_hunks(hunks, snapshot))[i]).id <= (#[trigger] by_number(
                projected_hunks(hunks, snapshot),
            )[j]).id,
{
    let all = projected_hunks(hunks, snapshot);
    let le = number_order(all);
    let sorted = by_number(all);
    lemma_projected_hunks(hunks, snapshot, shown);
    assert(total_preorder(le, all.len()));
    lemma_ranking_exists(all.len(), le);
    let order = choose|order: Seq<int>| is_ranking(order, all.len(), number_order(all));
    assert(is_ranking(order, all.len(), le));
    lemma_ranking_permutes(order, all.len(), le);
    lemma_permuted_multiset(all, order);
    assert(sorted =~= crate::ranking::arranged(all, order));
    assert forall|i: int, j: int| 0 <= i < j < sorted.len() implies (#[trigger] sorted[i]).id <= (
    #[trigger] sorted[j]).id by {
        assert(sorts_before(le, order[i], order[j]));
    }
    if sorted.contains(shown) {
        let k = choose|k: int| 0 <= k < sorted.len() && sorted[k] == shown;
        assert(all[order[k]] == shown);
        assert(all.contains(shown));
    }
    if all.contains(shown) {
        let k = choose|k: int| 0 <= k < all.len() && all[k] == shown;
        lemma_ranking_covers(order, all.len(), le, k);
        let i = choose|i: int| 0 <= i < order.len() && order[i] == k;
        assert(sorted[i] == shown);
    }
}

/// Resolving, or reopening, a thread marks the comments in it and no others, and changes nothing else
/// of any comment.
pub proof fn resolving_marks_the_thread(
    before: Editor,
    after: Editor,
    id: usize,
    resolved: bool,
    h: int,
    i: int,
)
    requires
        resolves_thread(before, after, id, resolved),
        stored_at(before.hunks(), h, i),
    ensures
        stored_at(after.hunks(), h, i),
        after.hunks()[h].comments[i] == (StoredReviewComment {
            resolved: after.hunks()[h].comments[i].resolved,
            ..before.hunks()[h].comments[i]
        }),
        ({
            let comments = all_comments(before.hunks());
            let comment = before.hunks()[h].comments[i];
            let now = after.hunks()[h].comments[i];
            match thread_places(comments, id) {
                Some(places) => if exists|k: int|
                    #![trigger places[k]]
                    0 <= k < places.len() && comment_key(comments[places[k]]) == comment_key(
                        comment,
                    ) {
                    now.resolved == resolved
                } else {
                    now.resolved == comment.resolved
                },
                None => now.resolved == comment.resolved,
            }
        }),
{
    let comments = all_comments(before.hunks());
    let comment = before.hunks()[h].comments[i];
    if let Some(places) = thread_places(comments, id) {
        let keys = keys_at(comments, places);
        assert(keys.contains(comment_key(comment)) <==> exists|k: int|
            #![trigger places[k]]
            0 <= k < places.len() && comment_key(comments[places[k]]) == comment_key(comment)) by {
            if keys.contains(comment_key(comment)) {
                let k = choose|k: int| 0 <= k < keys.len() && keys[k] == comment_key(comment);
                assert(comment_key(comments[places[k]]) == comment_key(comment));
            }
            if exists|k: int|
                #![trigger places[k]]
                0 <= k < places.len() && comment_key(comments[places[k]]) == comment_key(comment) {
                let k = choose|k: int|
                    #![trigger places[k]]
                    0 <= k < places.len() && comment_key(comments[places[k]]) == comment_key(
                        comment,
                    );
                assert(keys[k] == comment_key(comment));
            }
        }
    }
}

/// What is toggled at a row is a comment whose lines, from the first to the last, take in that row,
/// and an open one where there is one.
pub proof fn the_open_comment_is_toggled(
    comments: Seq<StoredReviewComment>,
    snapshot: ReviewSnapshot,
    row: u32,
    at: int,
    k: int,
)
    requires
        is_active_comment(comments, snapshot, row, at),
        0 <= k < comments.len(),
        snapshot.point_at(comments[k].range.start).row <= row,
        row <= snapshot.point_at(comments[k].range.end).row,
        !comments[k].resolved,
    ensures
        0 <= at <= k,
        !comments[at].resolved,
        snapshot.point_at(comments[at].range.start).row <= row,
        row <= snapshot.point_at(comments[at].range.end).row,
{
    assert(on_row(comments[k], snapshot, row));
}

/// A blame is begun only in a project and, for a single buffer, only where it has a file; what is
/// asked for is the blame that is then awaited.
pub proof fn blame_needs_a_project(
    before: Editor,
    after: Editor,
    user_triggered: bool,
    context: BlameContext,
)
    requires
        starts_blame(before, after, user_triggered, context),
    ensures
        !before.has_project || context.without_file ==> after == before,
        before.has_project && !context.without_file ==> {
            &&& after.blame_state.blame == Some(context.fresh)
            &&& after.asked().len() == before.asked().len() + 1
            &&& after.asked().last() == (EffectView::StartBlame {
                blame: context.fresh,
                user_triggered,
                focused: context.contains_focused,
            })
            &&& after.blame_state.show_git_blame_gutter == before.blame_state.show_git_blame_gutter
            &&& after.blame_state.git_blame_inline_enabled
                == before.blame_state.git_blame_inline_enabled
        },
        after.hunks() == before.hunks(),
{
}

/// Switching the blame of a line switches it over: where it is switched off nothing is shown any
/// longer, and where it is switched on it is shown at once unless there is a delay.
pub proof fn inline_blame_is_switched_over(
    before: Editor,
    after: Editor,
    user_triggered: bool,
    context: BlameContext,
)
    requires
        toggles_inline_blame(before, after, user_triggered, context),
    ensures
        after.blame_state.git_blame_inline_enabled != before.blame_state.git_blame_inline_enabled,
        before.blame_state.git_blame_inline_enabled ==> !after.blame_state.show_git_blame_inline
            && after.blame_state.blame == before.blame_state.blame,
        !before.blame_state.git_blame_inline_enabled ==> (after.blame_state.show_git_blame_inline
            <==> !context.delayed),
        !before.blame_state.git_blame_inline_enabled && before.has_project && !context.without_file
            ==> after.blame_state.blame == Some(context.fresh),
        after.blame_state.show_git_blame_gutter == before.blame_state.show_git_blame_gutter,
{
}

/// A popover that is shown stays and no longer goes away; one that is not is awaited, and asked for
/// at once or after a delay.
pub proof fn popovers_stay_or_are_awaited(before: Editor, after: Editor, at_once: bool)
    requires
        shows_popover(before, after, at_once),
    ensures
        before.blame_state.inline_blame_popover is Some
            <==> after.blame_state.inline_blame_popover is Some,
        after.blame_state.inline_blame_popover matches Some(popover) ==> !popover.hiding
            && popover.keyboard_grace
            == before.blame_state.inline_blame_popover->0.keyboard_grace,
        before.blame_state.inline_blame_popover is None ==> after.blame_state.popover_awaited
            && after.asked().last() == (EffectView::ShowBlamePopover { at_once }),
        before.blame_state.inline_blame_popover is Some ==> after.blame_state.popover_awaited
            == before.blame_state.popover_awaited && after.asked().last()
            == EffectView::KeepBlamePopover,
        after.blame_state.blame == before.blame_state.blame,
{
}

/// Where all overlays are closed, each is, by its number; where there is none, nothing is asked for.
pub proof fn all_overlays_are_closed_by_number(overlays: Seq<DiffReviewOverlay>, i: int)
    ensures
        overlays.len() == 0 ==> close_effects(overlay_ids(overlays)).len() == 0,
        overlays.len() > 0 ==> close_effects(overlay_ids(overlays)).len() == 1 && close_effects(
            overlay_ids(overlays),
        )[0] is CloseOverlays && close_effects(
            overlay_ids(overlays),
        )[0]->CloseOverlays_overlays.len() == overlays.len(),
        0 <= i < overlays.len() ==> close_effects(
            overlay_ids(overlays),
        )[0]->CloseOverlays_overlays[i] == overlays[i].id,
{
}

} // verus!
