//! Laws on writing, editing and deleting comments.

use crate::comment::{StackReviewCommentAuthor, StackReviewCommentSource};
use crate::editor::{DiffReviewOverlay, Editor};
use crate::editor_comments::{
    is_first_numbered, new_comment, removes_number, resolves_record, CommentStamp,
};
use crate::editor_composer::{adds_comment, follows_submit, opens_reply, reply_is_placed, submits};
use crate::editor_editing::{begins_edit, confirms_edit, deletes, edit_keys, ends_edit, writes_text};
use crate::editor_effect::EffectView;
use crate::editor_laws::place_of_new;
use crate::editor_overlays::{open_overlay_from, overlay_numbered, overlays_where, shows_overlay};
use crate::editor_projection::projected;
use crate::overlay_height::overlay_at;
use crate::record_order::rfc3339_nanos;
use crate::review_comment::{AnchorRange, CommentKeyView, DiffHunkKey, StoredReviewComment};
use crate::review_snapshot::ReviewSnapshot;
use crate::review_store::{
    hunk_at, hunk_comments, is_only_stored, lemma_hunk_from, only_stored, stored_at,
    with_new_comment, HunkView, QueryView,
};
use crate::trim::{is_white_space, trimmed};
use vstd::prelude::*;

verus! {

/// Whether `comment` is what was written at some lines, by whom, and in reply to what. It has a
/// record, and replies to one, only in the review of a stack.
pub open spec fn is_as_written(
    comment: StoredReviewComment,
    is_stack_review: bool,
    body: Seq<char>,
    range: AnchorRange,
    author: StackReviewCommentAuthor,
    source: StackReviewCommentSource,
    reply_to: Option<usize>,
    reply_to_record_id: Option<String>,
    stamp: CommentStamp,
) -> bool {
    &&& comment.comment@ == body
    &&& comment.range.start == range.start
    &&& comment.range.end == range.end
    &&& comment.author == author
    &&& comment.source == source
    &&& comment.reply_to == reply_to
    &&& comment.created_at == stamp.created_at
    &&& comment.created_at_display == if rfc3339_nanos(stamp.created_at@) is Some {
        stamp.localized
    } else {
        None
    }
    &&& is_stack_review ==> comment.record_id == Some(stamp.record_id)
        && comment.reply_to_record_id == reply_to_record_id
    &&& !is_stack_review ==> comment.record_id is None && comment.reply_to_record_id is None
    &&& !comment.is_editing && !comment.resolved && !comment.stashed
}

/// Whether one more comment is stored than before, of number `id` and at place `i` of hunk `h`, and
/// every other is where and as it was.
pub open spec fn is_one_more(
    before: Seq<HunkView>,
    after: Seq<HunkView>,
    id: usize,
    h: int,
    i: int,
) -> bool {
    &&& stored_at(after, h, i)
    &&& !stored_at(before, h, i)
    &&& after[h].comments[i].id == id
    &&& forall|g: int, j: int|
        #![trigger after[g].comments[j]]
        stored_at(after, g, j) && !(g == h && j == i) ==> stored_at(before, g, j)
            && after[g].comments[j] == before[g].comments[j] && after[g].key == before[g].key
    &&& forall|g: int, j: int|
        #![trigger before[g].comments[j]]
        stored_at(before, g, j) ==> stored_at(after, g, j) && after[g].comments[j]
            == before[g].comments[j]
}

/// A comment that is added is stored as it was written, at the hunk that it was written at, and
/// every other stays where and as it was.
pub proof fn added_comment_is_as_written(
    store: Seq<HunkView>,
    is_stack_review: bool,
    id: usize,
    body: String,
    key: DiffHunkKey,
    range: AnchorRange,
    author: StackReviewCommentAuthor,
    source: StackReviewCommentSource,
    reply_to: Option<usize>,
    reply_to_record_id: Option<String>,
    stamp: CommentStamp,
    snapshot: ReviewSnapshot,
)
    ensures
        exists|h: int, i: int|
            #![trigger is_one_more(
                store,
                with_new_comment(
                    store,
                    key,
                    snapshot,
                    new_comment(
                        is_stack_review,
                        id,
                        body,
                        range,
                        author,
                        source,
                        reply_to,
                        reply_to_record_id,
                        stamp,
                    ),
                ),
                id,
                h,
                i,
            )]
            {
                let after = with_new_comment(
                    store,
                    key,
                    snapshot,
                    new_comment(
                        is_stack_review,
                        id,
                        body,
                        range,
                        author,
                        source,
                        reply_to,
                        reply_to_record_id,
                        stamp,
                    ),
                );
                &&& is_one_more(store, after, id, h, i)
                &&& is_as_written(
                    after[h].comments[i],
                    is_stack_review,
                    body@,
                    range,
                    author,
                    source,
                    reply_to,
                    reply_to_record_id,
                    stamp,
                )
                &&& after[h].key == key || (h < store.len() && stand_for_one(
                    after[h].key,
                    key,
                    snapshot,
                ))
            },
{
    let comment = new_comment(
        is_stack_review,
        id,
        body,
        range,
        author,
        source,
        reply_to,
        reply_to_record_id,
        stamp,
    );
    lemma_one_more(store, key, snapshot, comment);
    let (h, i) = place_of_new(store, key, snapshot);
    lemma_hunk_from(store, key, snapshot, 0);
    assert(is_one_more(store, with_new_comment(store, key, snapshot, comment), id, h, i));
}

proof fn lemma_one_more(
    store: Seq<HunkView>,
    key: DiffHunkKey,
    snapshot: ReviewSnapshot,
    comment: StoredReviewComment,
)
    ensures
        ({
            let after = with_new_comment(store, key, snapshot, comment);
            let (h, i) = place_of_new(store, key, snapshot);
            &&& is_one_more(store, after, comment.id, h, i)
            &&& after[h].comments[i] == comment
            &&& after[h].key == key || (h < store.len() && snapshot.same_hunk(after[h].key, key))
        }),
{
    let after = with_new_comment(store, key, snapshot, comment);
    let (h, i) = place_of_new(store, key, snapshot);
    lemma_hunk_from(store, key, snapshot, 0);
    assert forall|g: int, j: int|
        #![trigger after[g].comments[j]]
        stored_at(after, g, j) && !(g == h && j == i) implies stored_at(store, g, j)
        && after[g].comments[j] == store[g].comments[j] && after[g].key == store[g].key by {}
    assert forall|g: int, j: int|
        #![trigger store[g].comments[j]]
        stored_at(store, g, j) implies stored_at(after, g, j) && after[g].comments[j]
        == store[g].comments[j] by {}
}

/// What is written in an overlay is stored as it was written, without the white space around it: at
/// the hunk of the overlay and at both ends of its lines, signed as the overlay is, and in reply to
/// what it replies to. It gets the next number, and every other comment stays where and as it was.
pub proof fn submitted_comment_is_as_written(
    before: Editor,
    after: Editor,
    at: int,
    prompt: Seq<char>,
    stamp: CommentStamp,
    snapshot: ReviewSnapshot,
) -> (place: (int, int))
    requires
        submits(before, after, at, prompt, stamp, snapshot),
        0 <= at < before.diff_review_overlays@.len(),
        trimmed(prompt).len() > 0,
        reply_is_placed(before, before.diff_review_overlays@[at], snapshot),
    ensures
        is_one_more(
            before.hunks(),
            after.hunks(),
            before.next_review_comment_id,
            place.0,
            place.1,
        ),
        is_as_written(
            after.hunks()[place.0].comments[place.1],
            before.is_stack_review,
            trimmed(prompt),
            before.diff_review_overlays@[at].anchor_range,
            before.diff_review_overlays@[at].comment_author,
            StackReviewCommentSource::LocalHuman,
            before.diff_review_overlays@[at].pending_reply_to,
            before.diff_review_overlays@[at].pending_reply_to_record_id,
            stamp,
        ),
        after.hunks()[place.0].key == before.diff_review_overlays@[at].hunk_key || stand_for_one(
            after.hunks()[place.0].key,
            before.diff_review_overlays@[at].hunk_key,
            snapshot,
        ),
        after.next_review_comment_id == before.next_review_comment_id + 1,
{
    let overlay = before.diff_review_overlays@[at];
    let (text, added) = choose|text: String, added: Editor|
        text@ == trimmed(prompt) && #[trigger] adds_comment(
            before,
            added,
            overlay,
            text,
            stamp,
            snapshot,
        ) && follows_submit(before, added, after, at, snapshot);
    let comment = new_comment(
        before.is_stack_review,
        before.next_review_comment_id,
        text,
        overlay.anchor_range,
        overlay.comment_author,
        StackReviewCommentSource::LocalHuman,
        overlay.pending_reply_to,
        overlay.pending_reply_to_record_id,
        stamp,
    );
    lemma_one_more(before.hunks(), overlay.hunk_key, snapshot, comment);
    assert(after.stored_review_comments == added.stored_review_comments);
    place_of_new(before.hunks(), overlay.hunk_key, snapshot)
}

/// What is written in an overlay is a comment of the review on the rows and columns at which the
/// lines of the overlay begin and end.
pub proof fn submitted_comment_is_at_the_selected_lines(
    before: Editor,
    after: Editor,
    at: int,
    prompt: Seq<char>,
    stamp: CommentStamp,
    snapshot: ReviewSnapshot,
    shown: ReviewSnapshot,
    key: DiffHunkKey,
)
    requires
        submits(before, after, at, prompt, stamp, snapshot),
        0 <= at < before.diff_review_overlays@.len(),
        trimmed(prompt).len() > 0,
        reply_is_placed(before, before.diff_review_overlays@[at], snapshot),
        key.file_path@.len() > 0,
        shown.buffer_at(before.diff_review_overlays@[at].anchor_range.start) is Some,
        shown.buffer_at(before.diff_review_overlays@[at].anchor_range.end) is Some,
        shown.buffer_at(before.diff_review_overlays@[at].anchor_range.start)->0.buffer_id
            == shown.buffer_at(before.diff_review_overlays@[at].anchor_range.end)->0.buffer_id,
    ensures
        exists|h: int, i: int|
            #![trigger after.hunks()[h].comments[i]]
            {
                let range = before.diff_review_overlays@[at].anchor_range;
                let comment = projected(key, after.hunks()[h].comments[i], shown);
                &&& stored_at(after.hunks(), h, i)
                &&& after.hunks()[h].comments[i].id == before.next_review_comment_id
                &&& comment is Some
                &&& comment->0.path == key.file_path
                &&& comment->0.start_row == shown.buffer_at(range.start)->0.point.row
                &&& comment->0.start_column == shown.buffer_at(range.start)->0.point.column
                &&& comment->0.end_row == shown.buffer_at(range.end)->0.point.row
                &&& comment->0.end_column == shown.buffer_at(range.end)->0.point.column
                &&& comment->0.body@ == trimmed(prompt)
            },
{
    let (h, i) = submitted_comment_is_as_written(before, after, at, prompt, stamp, snapshot);
    assert(after.hunks()[h].comments[i].id == before.next_review_comment_id);
}

/// A comment of the review has the rows and the columns at which its lines begin and end, and says
/// what it says in the editor.
pub proof fn projected_comment_is_as_stored(
    key: DiffHunkKey,
    comment: StoredReviewComment,
    snapshot: ReviewSnapshot,
)
    ensures
        ({
            let start = snapshot.buffer_at(comment.range.start);
            let end = snapshot.buffer_at(comment.range.end);
            let shown = projected(key, comment, snapshot);
            &&& shown is Some <==> start is Some && end is Some && start->0.buffer_id
                == end->0.buffer_id && (key.file_path@.len() > 0 || snapshot.file_at(
                comment.range.start,
            ) is Some)
            &&& shown is Some ==> {
                &&& shown->0.id == comment.id
                &&& shown->0.record_id == comment.record_id
                &&& key.file_path@.len() > 0 ==> shown->0.path == key.file_path
                &&& shown->0.start_row == start->0.point.row
                &&& shown->0.start_column == start->0.point.column
                &&& shown->0.end_row == end->0.point.row
                &&& shown->0.end_column == end->0.point.column
                &&& shown->0.body == comment.comment
                &&& shown->0.created_at == comment.created_at
                &&& shown->0.resolved == comment.resolved
                &&& shown->0.author == comment.author
                &&& shown->0.source == comment.source
                &&& shown->0.reply_to == comment.reply_to
                &&& shown->0.reply_to_record_id == comment.reply_to_record_id
            }
        }),
{
}

/// White space alone is not submitted, and neither is a reply to what cannot be told or stands
/// elsewhere.
pub proof fn blank_comments_are_not_stored(
    before: Editor,
    after: Editor,
    at: int,
    prompt: Seq<char>,
    stamp: CommentStamp,
    snapshot: ReviewSnapshot,
)
    requires
        submits(before, after, at, prompt, stamp, snapshot),
        forall|k: int| 0 <= k < prompt.len() ==> is_white_space(#[trigger] prompt[k]),
    ensures
        after == before,
{
    crate::trim::lemma_trimmed_empty(prompt);
}

/// What is left of a text without the white space around it is a part of it that begins and ends
/// with something else, and only white space stands around that part.
pub proof fn trimming_takes_white_space_alone(s: Seq<char>) -> (ends: (int, int))
    ensures
        0 <= ends.0 <= ends.1 <= s.len(),
        trimmed(s) == s.subrange(ends.0, ends.1),
        forall|k: int| 0 <= k < ends.0 ==> is_white_space(#[trigger] s[k]),
        forall|k: int| ends.1 <= k < s.len() ==> is_white_space(#[trigger] s[k]),
        ends.0 < ends.1 ==> !is_white_space(s[ends.0]) && !is_white_space(s[ends.1 - 1]),
    decreases s.len(),
{
    if s.len() > 0 && is_white_space(s[0]) {
        let rest = s.drop_first();
        let (from, to) = trimming_takes_white_space_alone(rest);
        assert(trimmed(s) == trimmed(rest));
        assert(rest.subrange(from, to) =~= s.subrange(from + 1, to + 1));
        assert forall|k: int| 0 <= k < from + 1 implies is_white_space(#[trigger] s[k]) by {
            if k > 0 {
                assert(rest[k - 1] == s[k]);
            }
        }
        assert forall|k: int| to + 1 <= k < s.len() implies is_white_space(#[trigger] s[k]) by {
            assert(rest[k - 1] == s[k]);
        }
        (from + 1, to + 1)
    } else {
        let to = lemma_trim_end_at(s);
        assert(crate::trim::trim_start(s) == s);
        assert(s.subrange(0, to) =~= s.take(to));
        (0, to)
    }
}

proof fn lemma_trim_end_at(s: Seq<char>) -> (to: int)
    ensures
        0 <= to <= s.len(),
        crate::trim::trim_end(s) == s.take(to),
        forall|k: int| to <= k < s.len() ==> is_white_space(#[trigger] s[k]),
        to > 0 ==> !is_white_space(s[to - 1]),
    decreases s.len(),
{
    if s.len() > 0 && is_white_space(s.last()) {
        let rest = s.drop_last();
        let to = lemma_trim_end_at(rest);
        assert(rest.take(to) =~= s.take(to));
        assert forall|k: int| to <= k < s.len() implies is_white_space(#[trigger] s[k]) by {
            if k < rest.len() {
                assert(rest[k] == s[k]);
            }
        }
        to
    } else {
        assert(s.take(s.len() as int) =~= s);
        s.len() as int
    }
}

/// An overlay that is found by its number has it.
pub proof fn overlays_are_found_by_number(overlays: Seq<DiffReviewOverlay>, overlay: u64, from: int)
    requires
        0 <= from,
    ensures
        overlay_numbered(overlays, overlay, from) matches Some(at) ==> from <= at < overlays.len()
            && overlays[at].id == overlay,
        overlay_numbered(overlays, overlay, from) is None ==> forall|k: int|
            from <= k < overlays.len() ==> (#[trigger] overlays[k]).id != overlay,
    decreases overlays.len() - from,
{
    if from < overlays.len() && overlays[from].id != overlay {
        overlays_are_found_by_number(overlays, overlay, from + 1);
    }
}

proof fn lemma_open_overlay(
    overlays: Seq<DiffReviewOverlay>,
    key: DiffHunkKey,
    range: AnchorRange,
    snapshot: ReviewSnapshot,
    from: int,
)
    requires
        0 <= from,
    ensures
        open_overlay_from(overlays, key, range, snapshot, from) matches Some(at) ==> from <= at
            < overlays.len() && snapshot.same_hunk(overlays[at].hunk_key, key)
            && snapshot.same_range(overlays[at].anchor_range, range),
        open_overlay_from(overlays, key, range, snapshot, from) is None ==> forall|k: int|
            from <= k < overlays.len() ==> !(snapshot.same_hunk(
                (#[trigger] overlays[k]).hunk_key,
                key,
            ) && snapshot.same_range(overlays[k].anchor_range, range)),
    decreases overlays.len() - from,
{
    if from < overlays.len() {
        lemma_open_overlay(overlays, key, range, snapshot, from + 1);
    }
}

proof fn lemma_kept_overlay(
    overlays: Seq<DiffReviewOverlay>,
    keep: spec_fn(DiffReviewOverlay) -> bool,
    k: int,
)
    requires
        0 <= k < overlays.len(),
        keep(overlays[k]),
    ensures
        overlays_where(overlays, keep).contains(overlays[k]),
    decreases overlays.len(),
{
    let now = overlays_where(overlays, keep);
    let before = overlays_where(overlays.drop_last(), keep);
    if k < overlays.len() - 1 {
        lemma_kept_overlay(overlays.drop_last(), keep, k);
        let j = choose|j: int| 0 <= j < before.len() && before[j] == overlays[k];
        assert(now[j] == overlays[k]);
    } else {
        assert(now[now.len() - 1] == overlays[k]);
    }
}

/// Whether two ranges begin at one point and end at one.
pub open spec fn cover_the_same(a: AnchorRange, b: AnchorRange, snapshot: ReviewSnapshot) -> bool {
    &&& snapshot.point_at(a.start) == snapshot.point_at(b.start)
    &&& snapshot.point_at(a.end) == snapshot.point_at(b.end)
}

/// Whether two keys are of one file and begin at one point and, where they name lines, both do, and
/// these end at one.
pub open spec fn stand_for_one(a: DiffHunkKey, b: DiffHunkKey, snapshot: ReviewSnapshot) -> bool {
    &&& a.file_path@ == b.file_path@
    &&& snapshot.point_at(a.hunk_start_anchor) == snapshot.point_at(b.hunk_start_anchor)
    &&& a.review_range_end_anchor is Some <==> b.review_range_end_anchor is Some
    &&& a.review_range_end_anchor is Some ==> snapshot.point_at(a.review_range_end_anchor->0)
        == snapshot.point_at(b.review_range_end_anchor->0)
}

/// Whether an overlay is open at these lines of this hunk.
pub open spec fn is_open_at(
    overlays: Seq<DiffReviewOverlay>,
    key: DiffHunkKey,
    range: AnchorRange,
    snapshot: ReviewSnapshot,
) -> bool {
    exists|k: int|
        0 <= k < overlays.len() && stand_for_one((#[trigger] overlays[k]).hunk_key, key, snapshot)
            && cover_the_same(overlays[k].anchor_range, range, snapshot)
}

/// Where an overlay is asked for, one is open at these lines of this hunk, ready to be written in
/// where that is asked for. A new one is at exactly these lines and signs for the current user. No
/// comment is changed, and no overlay with comments to show is closed.
pub proof fn shown_overlay_is_at_its_lines(
    before: Editor,
    after: Editor,
    key: DiffHunkKey,
    range: AnchorRange,
    composer_visible: bool,
    snapshot: ReviewSnapshot,
) -> (at: int)
    requires
        shows_overlay(before, after, key, range, composer_visible, snapshot),
    ensures
        0 <= at < after.diff_review_overlays@.len(),
        is_open_at(before.diff_review_overlays@, key, range, snapshot) ==> {
            let overlay = after.diff_review_overlays@[at];
            &&& after.diff_review_overlays@.len() == before.diff_review_overlays@.len()
            &&& overlay.id == before.diff_review_overlays@[at].id
            &&& stand_for_one(overlay.hunk_key, key, snapshot)
            &&& cover_the_same(overlay.anchor_range, range, snapshot)
        },
        !is_open_at(before.diff_review_overlays@, key, range, snapshot) ==> {
            let overlay = after.diff_review_overlays@[at];
            &&& overlay.id == before.next_overlay
            &&& overlay.hunk_key == key
            &&& overlay.anchor_range.start == range.start
            &&& overlay.anchor_range.end == range.end
            &&& overlay.composer_visible == composer_visible
            &&& before.current_user is Some ==> overlay.comment_author.login == Some(
                before.current_user->0.username,
            )
            &&& before.current_user is None ==> overlay.comment_author.login is None
            &&& before.current_user is Some ==> overlay.user_avatar_uri == Some(
                before.current_user->0.avatar_uri,
            )
            &&& before.current_user is Some && before.current_user->0.name is Some
                ==> overlay.comment_author.name == before.current_user->0.name->0
            &&& before.current_user is Some && before.current_user->0.name is None
                ==> overlay.comment_author.name == before.current_user->0.username
            &&& overlay.pending_reply_to is None && overlay.pending_reply_to_record_id is None
            &&& overlay.comments_expanded
        },
        composer_visible ==> after.diff_review_overlays@[at].composer_visible
            && after.diff_review_overlays@[at].pending_reply_to is None
            && after.diff_review_overlays@[at].pending_reply_to_record_id is None,
        after.hunks() == before.hunks(),
        forall|k: int|
            0 <= k < before.diff_review_overlays@.len() && hunk_comments(
                before.hunks(),
                (#[trigger] before.diff_review_overlays@[k]).hunk_key,
                snapshot,
            ).len() > 0 ==> exists|j: int|
                0 <= j < after.diff_review_overlays@.len() && (
                #[trigger] after.diff_review_overlays@[j]).id == before.diff_review_overlays@[k].id
                    && after.diff_review_overlays@[j].anchor_range
                    == before.diff_review_overlays@[k].anchor_range
                    && after.diff_review_overlays@[j].hunk_key
                    == before.diff_review_overlays@[k].hunk_key,
{
    let overlays = before.diff_review_overlays@;
    let now = after.diff_review_overlays@;
    lemma_open_overlay(overlays, key, range, snapshot, 0);
    match open_overlay_from(overlays, key, range, snapshot, 0) {
        Some(at) => {
            assert forall|k: int|
                0 <= k < overlays.len() && hunk_comments(
                    before.hunks(),
                    (#[trigger] overlays[k]).hunk_key,
                    snapshot,
                ).len() > 0 implies exists|j: int|
                0 <= j < now.len() && (#[trigger] now[j]).id == overlays[k].id
                    && now[j].anchor_range == overlays[k].anchor_range && now[j].hunk_key
                    == overlays[k].hunk_key by {
                assert(now[k].id == overlays[k].id);
            }
            at
        },
        None => {
            let keep = crate::editor_overlays::in_use(before.hunks(), snapshot, false);
            let kept = overlays_where(overlays, keep);
            assert(now.drop_last() == kept);
            assert forall|k: int|
                0 <= k < overlays.len() && hunk_comments(
                    before.hunks(),
                    (#[trigger] overlays[k]).hunk_key,
                    snapshot,
                ).len() > 0 implies exists|j: int|
                0 <= j < now.len() && (#[trigger] now[j]).id == overlays[k].id
                    && now[j].anchor_range == overlays[k].anchor_range && now[j].hunk_key
                    == overlays[k].hunk_key by {
                lemma_kept_overlay(overlays, keep, k);
                let j = choose|j: int| 0 <= j < kept.len() && kept[j] == overlays[k];
                assert(now.drop_last()[j] == now[j]);
                assert(now[j].id == overlays[k].id);
            }
            now.len() - 1
        },
    }
}

proof fn lemma_overlay_at(
    overlays: Seq<DiffReviewOverlay>,
    key: DiffHunkKey,
    snapshot: ReviewSnapshot,
    from: int,
)
    requires
        0 <= from,
    ensures
        crate::overlay_height::overlay_from(overlays, key, snapshot, from) matches Some(at) ==> from
            <= at < overlays.len() && stand_for_one(overlays[at].hunk_key, key, snapshot),
        crate::overlay_height::overlay_from(overlays, key, snapshot, from) is None ==> forall|k: int|
            from <= k < overlays.len() ==> !stand_for_one(
                (#[trigger] overlays[k]).hunk_key,
                key,
                snapshot,
            ),
    decreases overlays.len() - from,
{
    if from < overlays.len() {
        lemma_overlay_at(overlays, key, snapshot, from + 1);
    }
}

/// Where an overlay is at the hunk of a comment, a reply to that comment, and to its record where it
/// has one, is written in it. Nothing else of it changes, no other overlay does, and no comment.
pub proof fn replies_are_written_at_their_hunk(
    before: Editor,
    after: Editor,
    key: DiffHunkKey,
    id: usize,
    record_id: Option<String>,
    snapshot: ReviewSnapshot,
    k: int,
) -> (at: int)
    requires
        opens_reply(before, after, key, id, record_id, snapshot),
        0 <= k < before.diff_review_overlays@.len(),
        stand_for_one(before.diff_review_overlays@[k].hunk_key, key, snapshot),
    ensures
        0 <= at < before.diff_review_overlays@.len(),
        after.diff_review_overlays@.len() == before.diff_review_overlays@.len(),
        stand_for_one(after.diff_review_overlays@[at].hunk_key, key, snapshot),
        after.diff_review_overlays@[at].pending_reply_to == Some(id),
        after.diff_review_overlays@[at].pending_reply_to_record_id == record_id,
        after.diff_review_overlays@[at].composer_visible,
        after.diff_review_overlays@[at].id == before.diff_review_overlays@[at].id,
        after.diff_review_overlays@[at].anchor_range == before.diff_review_overlays@[at].anchor_range,
        after.diff_review_overlays@[at].hunk_key == before.diff_review_overlays@[at].hunk_key,
        after.diff_review_overlays@[at].comment_author
            == before.diff_review_overlays@[at].comment_author,
        forall|j: int|
            0 <= j < before.diff_review_overlays@.len() && j != at
                ==> #[trigger] after.diff_review_overlays@[j] == before.diff_review_overlays@[j],
        after.hunks() == before.hunks(),
{
    lemma_overlay_at(before.diff_review_overlays@, key, snapshot, 0);
    overlay_at(before.diff_review_overlays@, key, snapshot)->0
}

/// Whether every comment but the one at place `i` of hunk `h` is where and as it was.
pub open spec fn others_stay(before: Seq<HunkView>, after: Seq<HunkView>, h: int, i: int) -> bool {
    &&& after.len() == before.len()
    &&& forall|g: int|
        0 <= g < before.len() ==> (#[trigger] after[g]).key == before[g].key
            && after[g].comments.len() == before[g].comments.len()
    &&& forall|g: int, j: int|
        #![trigger after[g].comments[j]]
        stored_at(before, g, j) && !(g == h && j == i) ==> after[g].comments[j]
            == before[g].comments[j]
}

/// Whether two comments differ in nothing but their texts, whether they are edited and whether they
/// are resolved.
pub open spec fn same_but_for_text(a: StoredReviewComment, b: StoredReviewComment) -> bool {
    &&& a.id == b.id
    &&& a.record_id == b.record_id
    &&& a.range.start == b.range.start
    &&& a.range.end == b.range.end
    &&& a.author == b.author
    &&& a.source == b.source
    &&& a.reply_to == b.reply_to
    &&& a.reply_to_record_id == b.reply_to_record_id
    &&& a.created_at == b.created_at
    &&& a.created_at_display == b.created_at_display
    &&& a.stashed == b.stashed
}

/// A comment that begins to be edited keeps its text, which the editor that is opened for it begins
/// with, and no other comment changes.
pub proof fn editing_begins_with_the_text(
    before: Editor,
    after: Editor,
    key: CommentKeyView,
    h: int,
    i: int,
    snapshot: ReviewSnapshot,
)
    requires
        begins_edit(before, after, key, h, i, snapshot),
    ensures
        others_stay(before.hunks(), after.hunks(), h, i),
        same_but_for_text(after.hunks()[h].comments[i], before.hunks()[h].comments[i]),
        after.hunks()[h].comments[i].comment == before.hunks()[h].comments[i].comment,
        after.hunks()[h].comments[i].resolved == before.hunks()[h].comments[i].resolved,
        after.hunks()[h].comments[i].is_editing,
        after.asked() == before.asked() || exists|at: int|
            #![trigger after.diff_review_overlays@[at]]
            0 <= at < after.diff_review_overlays@.len() && stand_for_one(
                after.diff_review_overlays@[at].hunk_key,
                before.hunks()[h].key,
                snapshot,
            ) && edit_keys(after.diff_review_overlays@[at]).contains(key) && after.asked()
                == before.asked().push(
                EffectView::OpenInlineEditor {
                    overlay: after.diff_review_overlays@[at].id,
                    key,
                    text: before.hunks()[h].comments[i].comment@,
                },
            ),
{
    let overlays = before.diff_review_overlays@;
    lemma_overlay_at(overlays, before.hunks()[h].key, snapshot, 0);
    let shown = overlay_at(overlays, before.hunks()[h].key, snapshot);
    if shown is Some && !edit_keys(overlays[shown->0]).contains(key) {
        let keys = edit_keys(after.diff_review_overlays@[shown->0]);
        assert(keys[keys.len() - 1] == key);
        assert(after.diff_review_overlays@[shown->0].id == overlays[shown->0].id);
    }
}

/// A comment whose edit is confirmed has the text that was written, without the white space around
/// it, unless nothing is left of that; it is no longer edited, and nothing else of it changes, nor
/// any other comment.
pub proof fn confirmed_text_is_stored(
    before: Editor,
    after: Editor,
    key: CommentKeyView,
    h: int,
    i: int,
    text: Seq<char>,
    snapshot: ReviewSnapshot,
)
    requires
        confirms_edit(before, after, key, h, i, text, snapshot),
    ensures
        others_stay(before.hunks(), after.hunks(), h, i),
        same_but_for_text(after.hunks()[h].comments[i], before.hunks()[h].comments[i]),
        after.hunks()[h].comments[i].resolved == before.hunks()[h].comments[i].resolved,
        !after.hunks()[h].comments[i].is_editing,
        writes_text(before, key, h, text, snapshot) ==> trimmed(text).len() > 0
            && after.hunks()[h].comments[i].comment@ == trimmed(text),
        !writes_text(before, key, h, text, snapshot) ==> after.hunks()[h].comments[i].comment
            == before.hunks()[h].comments[i].comment,
        forall|at: int|
            0 <= at < before.diff_review_overlays@.len() && overlay_at(
                before.diff_review_overlays@,
                before.hunks()[h].key,
                snapshot,
            ) == Some(at) && edit_keys(#[trigger] before.diff_review_overlays@[at]).contains(key)
                && trimmed(text).len() > 0 ==> writes_text(before, key, h, text, snapshot),
{
    if writes_text(before, key, h, text, snapshot) {
        let body = choose|body: String|
            body@ == trimmed(text) && #[trigger] ends_edit(
                before,
                after,
                key,
                h,
                i,
                body,
                seq![crate::editor_editing::changed_effect(before)],
                snapshot,
            );
        assert(after.hunks()[h].comments[i].comment == body);
    }
}

/// Whether one comment fewer is stored than before, that at place `i` of hunk `h`: those before it
/// in its hunk are where they were, and those behind it move up.
pub open spec fn is_one_fewer(before: Seq<HunkView>, after: Seq<HunkView>, h: int, i: int) -> bool {
    &&& after.len() == before.len()
    &&& forall|g: int|
        0 <= g < before.len() && g != h ==> #[trigger] after[g] == before[g]
    &&& after[h].key == before[h].key
    &&& after[h].comments.len() + 1 == before[h].comments.len()
    &&& forall|j: int|
        0 <= j < after[h].comments.len() ==> #[trigger] after[h].comments[j]
            == before[h].comments[if j < i {
            j
        } else {
            j + 1
        }]
}

/// A comment that is deleted by its key is gone, and no other is; one that comes from GitHub stays.
pub proof fn deleting_takes_one_comment(
    before: Editor,
    after: Editor,
    key: CommentKeyView,
    snapshot: ReviewSnapshot,
)
    requires
        deletes(before, after, key, snapshot),
    ensures
        after.hunks() == before.hunks() || exists|h: int, i: int|
            #![trigger is_one_fewer(before.hunks(), after.hunks(), h, i)]
            is_one_fewer(before.hunks(), after.hunks(), h, i) && stored_at(before.hunks(), h, i)
                && before.hunks()[h].comments[i].source != StackReviewCommentSource::Github && (
            match key {
                CommentKeyView::Stable(record_id) => before.hunks()[h].comments[i].record_id is Some
                    && before.hunks()[h].comments[i].record_id->0@ == record_id,
                CommentKeyView::Legacy(id) => before.hunks()[h].comments[i].record_id is None
                    && before.hunks()[h].comments[i].id == id,
            }),
        forall|h: int, i: int|
            #![trigger before.hunks()[h].comments[i]]
            is_only_stored(before.hunks(), QueryView::Key(key), h, i)
                && before.hunks()[h].comments[i].source != StackReviewCommentSource::Github
                && hunk_at(before.hunks(), before.hunks()[h].key, snapshot) == Some(h)
                ==> is_one_fewer(before.hunks(), after.hunks(), h, i),
{
    assert forall|h: int, i: int|
        #![trigger before.hunks()[h].comments[i]]
        is_only_stored(before.hunks(), QueryView::Key(key), h, i) implies only_stored(
        before.hunks(),
        QueryView::Key(key),
    ) == Some((h, i)) by {
        crate::review_store::lemma_only_stored(before.hunks(), QueryView::Key(key), h, i);
    }
    if let Some((h, i)) = only_stored(before.hunks(), QueryView::Key(key)) {
        assert(is_only_stored(before.hunks(), QueryView::Key(key), h, i));
        if crate::editor_editing::can_delete_at(before, h, i, snapshot) {
            let removed = choose|removed: Editor| #[trigger]
                crate::editor_editing::removes_at(before, removed, key, h, i)
                    && crate::editor_editing::follows_removal(
                    removed,
                    after,
                    before.hunks()[h].key,
                    snapshot,
                );
            assert(after.stored_review_comments == removed.stored_review_comments);
            assert(is_one_fewer(before.hunks(), after.hunks(), h, i));
        }
    }
}

/// Resolving, or reopening, the comment of a record changes nothing but that.
pub proof fn resolving_changes_one_comment(
    before: Editor,
    after: Editor,
    record_id: Seq<char>,
    resolved: bool,
    h: int,
    i: int,
)
    requires
        resolves_record(before, after, record_id, resolved),
        is_only_stored(before.hunks(), QueryView::Key(CommentKeyView::Stable(record_id)), h, i),
    ensures
        others_stay(before.hunks(), after.hunks(), h, i),
        after.hunks()[h].comments[i].resolved == resolved,
        same_but_for_text(after.hunks()[h].comments[i], before.hunks()[h].comments[i]),
        after.hunks()[h].comments[i].comment == before.hunks()[h].comments[i].comment,
        after.hunks()[h].comments[i].is_editing == before.hunks()[h].comments[i].is_editing,
{
    crate::review_store::lemma_only_stored(
        before.hunks(),
        QueryView::Key(CommentKeyView::Stable(record_id)),
        h,
        i,
    );
}

/// A comment that is removed by its number is gone, the first of that number; of the others, those
/// that replied to that number reply to nothing any longer, and else they are as they were.
pub proof fn removing_takes_one_comment(before: Editor, after: Editor, id: usize, h: int, i: int)
    requires
        removes_number(before, after, id),
        is_first_numbered(before.hunks(), id, h, i),
    ensures
        after.hunks().len() == before.hunks().len(),
        forall|g: int, j: int|
            #![trigger after.hunks()[g].comments[j]]
            stored_at(after.hunks(), g, j) ==> {
                let then = before.hunks()[g].comments[if g == h && j >= i {
                    j + 1
                } else {
                    j
                }];
                let now = after.hunks()[g].comments[j];
                &&& now.reply_to == if then.reply_to == Some(id) {
                    None
                } else {
                    then.reply_to
                }
                &&& now == (StoredReviewComment { reply_to: now.reply_to, ..then })
            },
        forall|g: int|
            0 <= g < before.hunks().len() ==> (#[trigger] after.hunks()[g]).comments.len()
                == before.hunks()[g].comments.len() - if g == h {
                1int
            } else {
                0
            },
{
    assert(before.hunks()[h].comments[i].id == id);
    let (x, y) = choose|x: int, y: int| #[trigger]
        is_first_numbered(before.hunks(), id, x, y) && after.hunks()
            == crate::editor_comments::map_store(
            crate::review_store::without_comment(before.hunks(), x, y),
            |comment: StoredReviewComment| crate::editor_comments::without_reply(comment, id),
        );
    assert(before.hunks()[x].comments[y].id == id);
    assert(x == h && y == i);
}

} // verus!
