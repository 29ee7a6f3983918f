//! The comments of an editor as those of a review, and back.

use crate::comment::{copied_text, StackReviewComment};
use crate::editor::{show_time, shown_time, Editor};
use crate::editor_dismissal::reveals;
use crate::editor_effect::{EditorEvent, EffectView, EventView};
use crate::editor_overlays::{close_effects, ids_unless, in_use, overlays_where};
use crate::ranking::{is_ranking, lemma_ranking_unique, positions, rank};
use crate::review_comment::{Anchor, AnchorRange, DiffHunkKey, StoredReviewComment};
use crate::review_snapshot::{Point, ReviewSnapshot};
use crate::review_store::{
    lemma_hunk_from, lemma_total_with_new_comment, store_comment, store_view, total_comments, with_new_comment,
    HunkComments, HunkView,
};
use crate::text::same_text;
use crate::text_map::TextMap;
use vstd::prelude::*;
use vstd::string::*;

verus! {

/// A comment of a hunk as one of a review. There is none where its lines are not in one buffer
/// or no path can be told.
pub open spec fn projected(
    key: DiffHunkKey,
    comment: StoredReviewComment,
    snapshot: ReviewSnapshot,
) -> Option<StackReviewComment> {
    let path = if key.file_path@.len() == 0 {
        snapshot.file_at(comment.range.start)
    } else {
        Some(key.file_path)
    };
    match (snapshot.buffer_at(comment.range.start), snapshot.buffer_at(comment.range.end), path) {
        (Some(start), Some(end), Some(path)) => if start.buffer_id == end.buffer_id {
            Some(
                StackReviewComment {
                    id: comment.id,
                    record_id: comment.record_id,
                    path,
                    start_row: start.point.row,
                    start_column: start.point.column,
                    end_row: end.point.row,
                    end_column: end.point.column,
                    body: comment.comment,
                    created_at: comment.created_at,
                    resolved: comment.resolved,
                    author: comment.author,
                    source: comment.source,
                    reply_to: comment.reply_to,
                    reply_to_record_id: comment.reply_to_record_id,
                },
            )
        } else {
            None
        },
        _ => None,
    }
}

/// The comments of a hunk as those of a review.
pub open spec fn projected_comments(
    key: DiffHunkKey,
    comments: Seq<StoredReviewComment>,
    snapshot: ReviewSnapshot,
) -> Seq<StackReviewComment>
    decreases comments.len(),
{
    if comments.len() == 0 {
        Seq::empty()
    } else {
        let before = projected_comments(key, comments.drop_last(), snapshot);
        match projected(key, comments.last(), snapshot) {
            Some(comment) => before.push(comment),
            None => before,
        }
    }
}

/// The comments of all hunks as those of a review.
pub open spec fn projected_hunks(hunks: Seq<HunkView>, snapshot: ReviewSnapshot) -> Seq<
    StackReviewComment,
>
    decreases hunks.len(),
{
    if hunks.len() == 0 {
        Seq::empty()
    } else {
        projected_hunks(hunks.drop_last(), snapshot) + projected_comments(
            hunks.last().key,
            hunks.last().comments,
            snapshot,
        )
    }
}

/// The order of the numbers of comments.
pub open spec fn number_order(comments: Seq<StackReviewComment>) -> spec_fn(int, int) -> bool {
    |a: int, b: int| comments[a].id <= comments[b].id
}

/// Comments in the order of their numbers; those of the same number keep their order.
pub open spec fn by_number(comments: Seq<StackReviewComment>) -> Seq<StackReviewComment> {
    let order = choose|order: Seq<int>| is_ranking(order, comments.len(), number_order(comments));
    Seq::new(order.len(), |k: int| comments[order[k]])
}

fn project(key: &DiffHunkKey, comment: &StoredReviewComment, snapshot: &ReviewSnapshot) -> (shown:
    Option<StackReviewComment>)
    ensures
        shown == projected(*key, *comment, *snapshot),
{
    let start = snapshot.buffer_of(comment.range.start);
    let end = snapshot.buffer_of(comment.range.end);
    match (start, end) {
        (Some(start), Some(end)) => {
            if start.buffer_id != end.buffer_id {
                return None;
            }
            let path = if key.file_path.as_str().unicode_len() == 0 {
                match snapshot.file_path_at(comment.range.start) {
                    Some(path) => path,
                    None => {
                        return None;
                    },
                }
            } else {
                key.file_path.clone()
            };
            Some(
                StackReviewComment {
                    id: comment.id,
                    record_id: copied_text(&comment.record_id),
                    path,
                    start_row: start.point.row,
                    start_column: start.point.column,
                    end_row: end.point.row,
                    end_column: end.point.column,
                    body: comment.comment.clone(),
                    created_at: comment.created_at.clone(),
                    resolved: comment.resolved,
                    author: comment.author.copied(),
                    source: comment.source,
                    reply_to: comment.reply_to,
                    reply_to_record_id: copied_text(&comment.reply_to_record_id),
                },
            )
        },
        (Some(_), None) => None,
        (None, Some(_)) => None,
        (None, None) => None,
    }
}

fn sort_by_number(comments: &Vec<StackReviewComment>) -> (sorted: Vec<StackReviewComment>)
    ensures
        sorted@ == by_number(comments@),
{
    let ghost le = number_order(comments@);
    let len: usize = comments.len();
    let not_after = |a: usize, b: usize| -> (answer: bool)
        requires
            a < comments@.len(),
            b < comments@.len(),
        ensures
            answer == (comments@[a as int].id <= comments@[b as int].id),
        { comments[a].id <= comments[b].id };
    let order = rank(len, not_after, Ghost(le));
    let mut sorted: Vec<StackReviewComment> = Vec::new();
    let mut k: usize = 0;
    while k < order.len()
        invariant
            k <= order@.len(),
            len == comments@.len(),
            is_ranking(positions(order@), len as nat, le),
            sorted@.len() == k,
            forall|j: int|
                0 <= j < k ==> #[trigger] sorted@[j] == comments@[positions(order@)[j]],
        decreases order.len() - k,
    {
        assert(positions(order@)[k as int] == order@[k as int] as int);
        sorted.push(comments[order[k]].copied());
        k += 1;
    }
    proof {
        let chosen = choose|order: Seq<int>|
            is_ranking(order, comments@.len(), number_order(comments@));
        assert(is_ranking(positions(order@), comments@.len(), number_order(comments@)));
        lemma_ranking_unique(chosen, positions(order@), comments@.len(), number_order(comments@));
        assert(sorted@ =~= by_number(comments@));
    }
    sorted
}

/// Whether a text is among some.
pub open spec fn text_among(texts: Seq<String>, text: Seq<char>) -> bool {
    exists|i: int| 0 <= i < texts.len() && (#[trigger] texts[i])@ == text
}

pub(crate) fn is_text_among(texts: &[String], text: &str) -> (among: bool)
    ensures
        among == text_among(texts@, text@),
{
    let mut i: usize = 0;
    while i < texts.len()
        invariant
            i <= texts@.len(),
            forall|j: int| 0 <= j < i ==> (#[trigger] texts@[j])@ != text@,
        decreases texts.len() - i,
    {
        if same_text(texts[i].as_str(), text) {
            assert(texts@[i as int]@ == text@);
            return true;
        }
        i += 1;
    }
    false
}

/// What the reader's clock and zone make of a time, where that is known.
pub open spec fn localized_time(localized: Map<Seq<char>, String>, created_at: Seq<char>) -> Option<
    String,
> {
    if localized.contains_key(created_at) {
        Some(localized[created_at])
    } else {
        None
    }
}

/// A comment of a review as one of an editor.
pub open spec fn restored(
    comment: StackReviewComment,
    range: AnchorRange,
    stashed_record_ids: Seq<String>,
    localized: Map<Seq<char>, String>,
) -> StoredReviewComment {
    StoredReviewComment {
        id: comment.id,
        record_id: comment.record_id,
        comment: comment.body,
        range,
        is_editing: false,
        author: comment.author,
        source: comment.source,
        reply_to: comment.reply_to,
        reply_to_record_id: comment.reply_to_record_id,
        created_at: comment.created_at,
        created_at_display: shown_time(
            comment.created_at@,
            localized_time(localized, comment.created_at@),
        ),
        resolved: comment.resolved,
        stashed: match comment.record_id {
            Some(record_id) => text_among(stashed_record_ids, record_id@),
            None => false,
        },
    }
}

/// The lines of a comment of a review, where they can be told.
pub open spec fn placed(comment: StackReviewComment, snapshot: ReviewSnapshot) -> Option<
    AnchorRange,
> {
    let start = snapshot.anchor_in(
        comment.path@,
        Point { row: comment.start_row, column: comment.start_column },
    );
    let end = snapshot.anchor_in(
        comment.path@,
        Point { row: comment.end_row, column: comment.end_column },
    );
    match (start, end) {
        (Some(start), Some(end)) => Some(AnchorRange { start, end }),
        _ => None,
    }
}

/// The hunk of a comment of a review.
pub open spec fn placed_key(comment: StackReviewComment, range: AnchorRange) -> DiffHunkKey {
    DiffHunkKey {
        file_path: comment.path,
        hunk_start_anchor: range.start,
        review_range_end_anchor: Some(range.end),
    }
}

/// The comments of a review, those whose lines can be told, by hunks.
pub open spec fn restored_hunks(
    comments: Seq<StackReviewComment>,
    stashed_record_ids: Seq<String>,
    localized: Map<Seq<char>, String>,
    snapshot: ReviewSnapshot,
) -> Seq<HunkView>
    decreases comments.len(),
{
    if comments.len() == 0 {
        Seq::empty()
    } else {
        let before = restored_hunks(comments.drop_last(), stashed_record_ids, localized, snapshot);
        let comment = comments.last();
        match placed(comment, snapshot) {
            Some(range) => with_new_comment(
                before,
                placed_key(comment, range),
                snapshot,
                restored(comment, range, stashed_record_ids, localized),
            ),
            None => before,
        }
    }
}

/// The number after all those of some comments, or the largest.
pub open spec fn number_after(comments: Seq<StackReviewComment>) -> usize
    decreases comments.len(),
{
    if comments.len() == 0 {
        0
    } else {
        let before = number_after(comments.drop_last());
        let id = comments.last().id;
        let next: usize = if id < usize::MAX {
            (id + 1) as usize
        } else {
            usize::MAX
        };
        if next > before {
            next
        } else {
            before
        }
    }
}

proof fn lemma_restored_fits(
    comments: Seq<StackReviewComment>,
    stashed_record_ids: Seq<String>,
    localized: Map<Seq<char>, String>,
    snapshot: ReviewSnapshot,
)
    ensures
        total_comments(restored_hunks(comments, stashed_record_ids, localized, snapshot))
            <= comments.len(),
        restored_hunks(comments, stashed_record_ids, localized, snapshot).len() <= comments.len(),
    decreases comments.len(),
{
    if comments.len() > 0 {
        lemma_restored_fits(comments.drop_last(), stashed_record_ids, localized, snapshot);
        let before = restored_hunks(comments.drop_last(), stashed_record_ids, localized, snapshot);
        let comment = comments.last();
        if let Some(range) = placed(comment, snapshot) {
            lemma_hunk_from(before, placed_key(comment, range), snapshot, 0);
            lemma_total_with_new_comment(
                before,
                placed_key(comment, range),
                snapshot,
                restored(comment, range, stashed_record_ids, localized),
            );
        }
    }
}

/// What putting the comments of a review in the place of those of an editor does.
pub open spec fn restores(
    before: Editor,
    after: Editor,
    comments: Seq<StackReviewComment>,
    stashed_record_ids: Seq<String>,
    tell: bool,
    localized: Map<Seq<char>, String>,
    snapshot: ReviewSnapshot,
) -> bool {
    let hunks = restored_hunks(comments, stashed_record_ids, localized, snapshot);
    &&& after == (Editor {
        stored_review_comments: after.stored_review_comments,
        next_review_comment_id: number_after(comments),
        effects: after.effects,
        ..before
    })
    &&& after.hunks() == hunks
    &&& after.asked() == if tell {
        before.asked().push(
            EffectView::Emit(
                EventView::ReviewCommentsChanged { total_count: total_comments(hunks) },
            ),
        )
    } else {
        before.asked()
    }
}

/// What closing the overlays that are not in use does.
pub open spec fn drops_unused(before: Editor, after: Editor, snapshot: ReviewSnapshot) -> bool {
    let keep = in_use(before.hunks(), snapshot, true);
    let overlays = before.diff_review_overlays@;
    &&& after == (Editor {
        diff_review_overlays: after.diff_review_overlays,
        effects: after.effects,
        ..before
    })
    &&& after.diff_review_overlays@ == overlays_where(overlays, keep)
    &&& after.asked() == before.asked() + close_effects(ids_unless(overlays, keep))
}

/// What replacing the comments of an editor by those of a review does: the overlays that are no
/// longer in use are closed, and those of the comments shown.
pub open spec fn replaces(
    before: Editor,
    after: Editor,
    comments: Seq<StackReviewComment>,
    stashed_record_ids: Seq<String>,
    localized: Map<Seq<char>, String>,
    snapshot: ReviewSnapshot,
) -> bool {
    exists|restored: Editor, dropped: Editor|
        restores(before, restored, comments, stashed_record_ids, false, localized, snapshot)
            && #[trigger] drops_unused(restored, dropped, snapshot) && reveals(
            dropped,
            after,
            dropped.hunks(),
            snapshot,
        )
}

impl Editor {
    /// The path of the file under review at an anchor.
    pub fn review_file_path_at(&self, anchor: Anchor, snapshot: &ReviewSnapshot) -> (path: Option<
        String,
    >)
        ensures
            path == snapshot.file_at(anchor),
    {
        snapshot.file_path_at(anchor)
    }

    /// The comments as those of a review, in the order of their numbers.
    pub fn stack_review_comments(&self, snapshot: &ReviewSnapshot) -> (comments: Vec<
        StackReviewComment,
    >)
        ensures
            comments@ == by_number(projected_hunks(self.hunks(), *snapshot)),
    {
        let ghost hunks = self.hunks();
        let mut comments: Vec<StackReviewComment> = Vec::new();
        let mut h: usize = 0;
        assert(hunks.take(0) =~= Seq::empty());
        while h < self.stored_review_comments.len()
            invariant
                h <= hunks.len(),
                hunks == self.hunks(),
                comments@ == projected_hunks(hunks.take(h as int), *snapshot),
            decreases hunks.len() - h,
        {
            let ghost before = comments@;
            let key = &self.stored_review_comments[h].key;
            let stored = &self.stored_review_comments[h].comments;
            let mut i: usize = 0;
            assert(before + projected_comments(*key, stored@.take(0), *snapshot) =~= before);
            while i < stored.len()
                invariant
                    i <= stored@.len(),
                    comments@ == before + projected_comments(
                        *key,
                        stored@.take(i as int),
                        *snapshot,
                    ),
                decreases stored.len() - i,
            {
                proof {
                    assert(stored@.take(i + 1).drop_last() =~= stored@.take(i as int));
                    assert(stored@.take(i + 1).last() == stored@[i as int]);
                }
                match project(key, &stored[i], snapshot) {
                    Some(comment) => {
                        comments.push(comment);
                    },
                    None => {},
                }
                assert(comments@ =~= before + projected_comments(
                    *key,
                    stored@.take(i + 1),
                    *snapshot,
                ));
                i += 1;
            }
            proof {
                assert(stored@.take(i as int) =~= stored@);
                assert(hunks.take(h + 1).drop_last() =~= hunks.take(h as int));
                assert(hunks.take(h + 1).last() == self.stored_review_comments@[h as int]@);
            }
            h += 1;
        }
        assert(hunks.take(h as int) =~= hunks);
        sort_by_number(&comments)
    }

    /// Puts the comments of a review in the place of those there are.
    pub fn restore_stack_review_comments(
        &mut self,
        comments: &[StackReviewComment],
        localized: &TextMap<String>,
        snapshot: &ReviewSnapshot,
    )
        requires
            old(self).wf(),
            localized.wf(),
        ensures
            final(self).wf(),
            restores(
                *old(self),
                *final(self),
                comments@,
                Seq::empty(),
                true,
                localized@,
                *snapshot,
            ),
    {
        let none: Vec<String> = Vec::new();
        assert(none@ =~= Seq::empty());
        self.restore_stack_review_comments_with_stashed(
            comments,
            none.as_slice(),
            true,
            localized,
            snapshot,
        );
    }

    /// Puts the comments of a review in the place of those there are. Those of the records in
    /// `stashed_record_ids` are put away.
    pub fn restore_stack_review_comments_with_stashed(
        &mut self,
        comments: &[StackReviewComment],
        stashed_record_ids: &[String],
        emit_source_changed: bool,
        localized: &TextMap<String>,
        snapshot: &ReviewSnapshot,
    )
        requires
            old(self).wf(),
            localized.wf(),
        ensures
            final(self).wf(),
            restores(
                *old(self),
                *final(self),
                comments@,
                stashed_record_ids@,
                emit_source_changed,
                localized@,
                *snapshot,
            ),
    {
        let ghost stashed_ids = stashed_record_ids@;
        let mut store: Vec<HunkComments> = Vec::new();
        let mut next_id: usize = 0;
        let mut k: usize = 0;
        let len: usize = comments.len();
        proof {
            assert(comments@.take(0) =~= Seq::empty());
            assert(store_view(store@) =~= Seq::empty());
        }
        while k < len
            invariant
                k <= len,
                len == comments@.len(),
                localized.wf(),
                next_id == number_after(comments@.take(k as int)),
                store_view(store@) == restored_hunks(
                    comments@.take(k as int),
                    stashed_record_ids@,
                    localized@,
                    *snapshot,
                ),
            decreases len - k,
        {
            let comment = &comments[k];
            proof {
                assert(comments@.take(k + 1).drop_last() =~= comments@.take(k as int));
                assert(comments@.take(k + 1).last() == *comment);
            }
            let next: usize = if comment.id < usize::MAX {
                comment.id + 1
            } else {
                usize::MAX
            };
            if next > next_id {
                next_id = next;
            }
            let start = snapshot.find_anchor(
                comment.path.as_str(),
                Point { row: comment.start_row, column: comment.start_column },
            );
            let end = snapshot.find_anchor(
                comment.path.as_str(),
                Point { row: comment.end_row, column: comment.end_column },
            );
            if let (Some(start), Some(end)) = (start, end) {
                let range = AnchorRange { start, end };
                let shown = match localized.get(comment.created_at.as_str()) {
                    Some(text) => Some(text.clone()),
                    None => None,
                };
                let stored = StoredReviewComment {
                    id: comment.id,
                    record_id: copied_text(&comment.record_id),
                    comment: comment.body.clone(),
                    range,
                    is_editing: false,
                    author: comment.author.copied(),
                    source: comment.source,
                    reply_to: comment.reply_to,
                    reply_to_record_id: copied_text(&comment.reply_to_record_id),
                    created_at: comment.created_at.clone(),
                    created_at_display: show_time(comment.created_at.as_str(), &shown),
                    resolved: comment.resolved,
                    stashed: match &comment.record_id {
                        Some(record_id) => is_text_among(stashed_record_ids, record_id.as_str()),
                        None => false,
                    },
                };
                let key = DiffHunkKey {
                    file_path: comment.path.clone(),
                    hunk_start_anchor: start,
                    review_range_end_anchor: Some(end),
                };
                assert(stored == restored(*comment, range, stashed_record_ids@, localized@));
                store_comment(&mut store, key, snapshot, stored);
            }
            k += 1;
        }
        proof {
            assert(comments@.take(k as int) =~= comments@);
            lemma_restored_fits(comments@, stashed_record_ids@, localized@, *snapshot);
        }
        self.stored_review_comments = store;
        self.next_review_comment_id = next_id;
        if emit_source_changed {
            let total_count: usize = self.total_review_comment_count();
            self.emit(EditorEvent::ReviewCommentsChanged { total_count });
        }
    }

    /// Puts the comments of the review of a stack in the place of those there are, and shows
    /// them.
    pub fn replace_stack_review_comment_projection(
        &mut self,
        comments: &[StackReviewComment],
        stashed_record_ids: &[String],
        localized: &TextMap<String>,
        snapshot: &ReviewSnapshot,
    )
        requires
            old(self).wf(),
            localized.wf(),
            old(self).next_overlay + comments@.len() <= u64::MAX,
        ensures
            final(self).wf(),
            if old(self).is_stack_review {
                replaces(
                    *old(self),
                    *final(self),
                    comments@,
                    stashed_record_ids@,
                    localized@,
                    *snapshot,
                )
            } else {
                *final(self) == *old(self)
            },
    {
        if !self.is_stack_review {
            return ;
        }
        self.restore_stack_review_comments_with_stashed(
            comments,
            stashed_record_ids,
            false,
            localized,
            snapshot,
        );
        let ghost restored = *self;
        proof {
            lemma_restored_fits(comments@, stashed_record_ids@, localized@, *snapshot);
        }
        self.dismiss_empty_stack_review_projection_overlays(snapshot);
        let ghost dropped = *self;
        assert(drops_unused(restored, dropped, *snapshot));
        self.reveal_restored_stack_review_comments(snapshot);
    }
}

} // verus!
