//! Editing and deleting the comments of an editor.

use crate::comment::StackReviewCommentSource;
use crate::editor::{overlays_ok, DiffReviewOverlay, Editor};
use crate::editor_comments::{
    find_first_numbered, has_number, is_first_numbered, removes_number, with_editing,
};
use crate::editor_composer::closes_overlay;
use crate::editor_effect::{EditorEffect, EditorEvent, EffectView, EventView};
use crate::overlay_height::{overlay_at, resize_effects};
use crate::review_comment::{
    CommentKeyView, DiffHunkKey, ReviewCommentKey, StoredReviewComment,
};
use crate::review_snapshot::ReviewSnapshot;
use crate::review_store::{
    find_hunk, find_only_stored, hunk_at, hunk_comments, lemma_total_with_comment,
    lemma_total_without_comment, only_stored, replace_comment, stored_at, take_comment,
    total_comments, with_comment, without_comment, CommentQuery, QueryView,
};
use crate::trim::{trim_text, trimmed};
use vstd::prelude::*;
use vstd::string::*;

verus! {

/// The comments that are edited in place in an overlay.
pub open spec fn edit_keys(overlay: DiffReviewOverlay) -> Seq<CommentKeyView> {
    overlay.inline_edits@.map_values(|key: ReviewCommentKey| key@)
}

/// The keys but for one.
pub open spec fn keys_without(keys: Seq<CommentKeyView>, key: CommentKeyView) -> Seq<CommentKeyView>
    decreases keys.len(),
{
    if keys.len() == 0 {
        Seq::empty()
    } else if keys.last() == key {
        keys_without(keys.drop_last(), key)
    } else {
        keys_without(keys.drop_last(), key).push(keys.last())
    }
}

/// The overlays differ in nothing but that in the one at `at` the comments of `keys` are edited.
pub open spec fn changes_edits(
    before: Seq<DiffReviewOverlay>,
    after: Seq<DiffReviewOverlay>,
    at: int,
    keys: Seq<CommentKeyView>,
) -> bool {
    &&& 0 <= at < before.len()
    &&& after.len() == before.len()
    &&& forall|i: int| 0 <= i < before.len() && i != at ==> #[trigger] after[i] == before[i]
    &&& after[at] == (DiffReviewOverlay { inline_edits: after[at].inline_edits, ..before[at] })
    &&& edit_keys(after[at]) == keys
}

proof fn lemma_edits_ok(
    before: Seq<DiffReviewOverlay>,
    after: Seq<DiffReviewOverlay>,
    at: int,
    keys: Seq<CommentKeyView>,
    next_overlay: u64,
)
    requires
        overlays_ok(before, next_overlay),
        changes_edits(before, after, at, keys),
    ensures
        overlays_ok(after, next_overlay),
{
    assert forall|i: int| 0 <= i < after.len() implies (#[trigger] after[i]).id
        < next_overlay by {
        assert(after[i].id == before[i].id);
    }
    assert forall|i: int, j: int|
        #![trigger after[i], after[j]]
        0 <= i < j < after.len() implies after[i].id != after[j].id by {
        assert(after[i].id == before[i].id);
        assert(after[j].id == before[j].id);
    }
}

/// What beginning to edit the comment at place `i` of hunk `h` does: where an overlay shows it,
/// an editor is opened in its place, unless one is open.
pub open spec fn begins_edit(
    before: Editor,
    after: Editor,
    key: CommentKeyView,
    h: int,
    i: int,
    snapshot: ReviewSnapshot,
) -> bool {
    let comment = before.hunks()[h].comments[i];
    let overlays = before.diff_review_overlays@;
    let shown = overlay_at(overlays, before.hunks()[h].key, snapshot);
    &&& stored_at(before.hunks(), h, i)
    &&& after == (Editor {
        stored_review_comments: after.stored_review_comments,
        diff_review_overlays: after.diff_review_overlays,
        effects: after.effects,
        ..before
    })
    &&& after.hunks() == with_comment(before.hunks(), h, i, with_editing(comment, true))
    &&& if shown is Some && !edit_keys(overlays[shown->0]).contains(key) {
        &&& changes_edits(
            overlays,
            after.diff_review_overlays@,
            shown->0,
            edit_keys(overlays[shown->0]).push(key),
        )
        &&& after.asked() == before.asked().push(
            EffectView::OpenInlineEditor {
                overlay: overlays[shown->0].id,
                key,
                text: comment.comment@,
            },
        )
    } else {
        &&& after.diff_review_overlays == before.diff_review_overlays
        &&& after.effects == before.effects
    }
}

/// Whether an editor is open in place of the comment that `key` finds in hunk `h`.
pub open spec fn is_edited_in_place(
    editor: Editor,
    key: CommentKeyView,
    h: int,
    snapshot: ReviewSnapshot,
) -> bool {
    let overlays = editor.diff_review_overlays@;
    match overlay_at(overlays, editor.hunks()[h].key, snapshot) {
        Some(at) => edit_keys(overlays[at]).contains(key),
        None => false,
    }
}

/// What ending to edit the comment at place `i` of hunk `h` does. It has the text `body` then,
/// and `told` says so.
pub open spec fn ends_edit(
    before: Editor,
    after: Editor,
    key: CommentKeyView,
    h: int,
    i: int,
    body: String,
    told: Seq<EffectView>,
    snapshot: ReviewSnapshot,
) -> bool {
    let comment = before.hunks()[h].comments[i];
    let overlays = before.diff_review_overlays@;
    let shown = overlay_at(overlays, before.hunks()[h].key, snapshot);
    &&& stored_at(before.hunks(), h, i)
    &&& after == (Editor {
        stored_review_comments: after.stored_review_comments,
        diff_review_overlays: after.diff_review_overlays,
        effects: after.effects,
        ..before
    })
    &&& after.hunks() == with_comment(
        before.hunks(),
        h,
        i,
        (StoredReviewComment { comment: body, is_editing: false, ..comment }),
    )
    &&& if is_edited_in_place(before, key, h, snapshot) {
        &&& changes_edits(
            overlays,
            after.diff_review_overlays@,
            shown->0,
            keys_without(edit_keys(overlays[shown->0]), key),
        )
        &&& after.asked() == before.asked() + told.push(
            EffectView::CloseInlineEditor { overlay: overlays[shown->0].id, key },
        )
    } else {
        &&& after.diff_review_overlays == before.diff_review_overlays
        &&& after.asked() == before.asked() + told
    }
}

/// What tells that comments were changed.
pub open spec fn changed_effect(editor: Editor) -> EffectView {
    EffectView::Emit(
        EventView::ReviewCommentsChanged { total_count: total_comments(editor.hunks()) },
    )
}

/// Whether confirming an edit gives the comment another text.
pub open spec fn writes_text(
    editor: Editor,
    key: CommentKeyView,
    h: int,
    text: Seq<char>,
    snapshot: ReviewSnapshot,
) -> bool {
    is_edited_in_place(editor, key, h, snapshot) && trimmed(text).len() > 0
}

/// What confirming an edit does.
pub open spec fn confirms_edit(
    before: Editor,
    after: Editor,
    key: CommentKeyView,
    h: int,
    i: int,
    text: Seq<char>,
    snapshot: ReviewSnapshot,
) -> bool {
    if writes_text(before, key, h, text, snapshot) {
        exists|body: String|
            body@ == trimmed(text) && #[trigger] ends_edit(
                before,
                after,
                key,
                h,
                i,
                body,
                seq![changed_effect(before)],
                snapshot,
            )
    } else {
        ends_edit(
            before,
            after,
            key,
            h,
            i,
            before.hunks()[h].comments[i].comment,
            Seq::empty(),
            snapshot,
        )
    }
}

/// What follows where a comment was removed from a hunk: the overlay there is closed where it
/// has no comments to show any longer, and else gets its height anew.
pub open spec fn follows_removal(
    before: Editor,
    after: Editor,
    key: DiffHunkKey,
    snapshot: ReviewSnapshot,
) -> bool {
    if hunk_comments(before.hunks(), key, snapshot).len() == 0 {
        match overlay_at(before.diff_review_overlays@, key, snapshot) {
            Some(at) => closes_overlay(before, after, at),
            None => after == before,
        }
    } else {
        &&& after == (Editor { effects: after.effects, ..before })
        &&& after.asked() == before.asked() + resize_effects(
            before.is_stack_review,
            before.diff_review_overlays@,
            before.hunks(),
            key,
            snapshot,
        )
    }
}

/// What removing the comment at place `i` of hunk `h`, and telling so, does.
pub open spec fn removes_at(
    before: Editor,
    after: Editor,
    key: CommentKeyView,
    h: int,
    i: int,
) -> bool {
    &&& after == (Editor {
        stored_review_comments: after.stored_review_comments,
        effects: after.effects,
        ..before
    })
    &&& after.hunks() == without_comment(before.hunks(), h, i)
    &&& after.asked() == before.asked().push(
        EffectView::Emit(
            match key {
                CommentKeyView::Stable(record_id) => EventView::StackReviewCommentDeleted {
                    record_id,
                },
                CommentKeyView::Legacy(_) => EventView::ReviewCommentsChanged {
                    total_count: (total_comments(before.hunks()) - 1) as nat,
                },
            },
        ),
    )
}

/// Whether the comment at place `i` of hunk `h` can be deleted: it does not come from GitHub,
/// and its hunk can be told from the others.
pub open spec fn can_delete_at(
    editor: Editor,
    h: int,
    i: int,
    snapshot: ReviewSnapshot,
) -> bool {
    &&& editor.hunks()[h].comments[i].source != StackReviewCommentSource::Github
    &&& hunk_at(editor.hunks(), editor.hunks()[h].key, snapshot) == Some(h)
}

/// What deleting the one comment that `key` finds does.
pub open spec fn deletes(
    before: Editor,
    after: Editor,
    key: CommentKeyView,
    snapshot: ReviewSnapshot,
) -> bool {
    match only_stored(before.hunks(), QueryView::Key(key)) {
        Some((h, i)) => if can_delete_at(before, h, i, snapshot) {
            exists|removed: Editor| #[trigger]
                removes_at(before, removed, key, h, i) && follows_removal(
                    removed,
                    after,
                    before.hunks()[h].key,
                    snapshot,
                )
        } else {
            after == before
        },
        None => after == before,
    }
}

pub(crate) fn contains_key(keys: &Vec<ReviewCommentKey>, key: &ReviewCommentKey) -> (has: bool)
    ensures
        has == keys@.map_values(|key: ReviewCommentKey| key@).contains(key@),
{
    let ghost views = keys@.map_values(|key: ReviewCommentKey| key@);
    let mut k: usize = 0;
    while k < keys.len()
        invariant
            k <= keys@.len(),
            views == keys@.map_values(|key: ReviewCommentKey| key@),
            forall|j: int| 0 <= j < k ==> #[trigger] views[j] != key@,
        decreases keys.len() - k,
    {
        assert(views[k as int] == keys@[k as int]@);
        if keys[k].same(key) {
            return true;
        }
        k += 1;
    }
    false
}

fn drop_key(keys: &Vec<ReviewCommentKey>, key: &ReviewCommentKey) -> (rest: Vec<ReviewCommentKey>)
    ensures
        rest@.map_values(|key: ReviewCommentKey| key@) == keys_without(
            keys@.map_values(|key: ReviewCommentKey| key@),
            key@,
        ),
{
    let ghost views = keys@.map_values(|key: ReviewCommentKey| key@);
    let mut rest: Vec<ReviewCommentKey> = Vec::new();
    let mut k: usize = 0;
    assert(rest@.map_values(|key: ReviewCommentKey| key@) =~= keys_without(views.take(0), key@));
    while k < keys.len()
        invariant
            k <= keys@.len(),
            views == keys@.map_values(|key: ReviewCommentKey| key@),
            rest@.map_values(|key: ReviewCommentKey| key@) == keys_without(
                views.take(k as int),
                key@,
            ),
        decreases keys.len() - k,
    {
        proof {
            assert(views.take(k + 1).drop_last() =~= views.take(k as int));
            assert(views.take(k + 1).last() == keys@[k as int]@);
        }
        if !keys[k].same(key) {
            let ghost before = rest@;
            rest.push(keys[k].copied());
            assert(rest@.map_values(|key: ReviewCommentKey| key@) =~= before.map_values(
                |key: ReviewCommentKey| key@,
            ).push(keys@[k as int]@));
        }
        k += 1;
    }
    assert(views.take(k as int) =~= views);
    rest
}

impl Editor {
    /// Begins to edit the one comment of number `id` that has no record.
    pub fn edit_review_comment(&mut self, id: usize, snapshot: &ReviewSnapshot)
        requires
            old(self).wf(),
        ensures
            final(self).wf(),
            begins_edit_of(*old(self), *final(self), CommentKeyView::Legacy(id), *snapshot),
    {
        self.edit_review_comment_by_key(ReviewCommentKey::Legacy(id), snapshot);
    }

    /// Begins to edit the one comment of a record.
    pub fn edit_stack_review_comment(&mut self, record_id: &str, snapshot: &ReviewSnapshot)
        requires
            old(self).wf(),
        ensures
            final(self).wf(),
            begins_edit_of(
                *old(self),
                *final(self),
                CommentKeyView::Stable(record_id@),
                *snapshot,
            ),
    {
        self.edit_review_comment_by_key(ReviewCommentKey::Stable(record_id.to_owned()), snapshot);
    }

    /// Begins to edit the one comment that `key` finds, unless it comes from GitHub.
    pub fn edit_review_comment_by_key(&mut self, key: ReviewCommentKey, snapshot: &ReviewSnapshot)
        requires
            old(self).wf(),
        ensures
            final(self).wf(),
            begins_edit_of(*old(self), *final(self), key@, *snapshot),
    {
        let ghost before = self.hunks();
        let ghost key_view = key@;
        let query = CommentQuery::Key(key.copied());
        match find_only_stored(&self.stored_review_comments, &query) {
            Some((h, i)) => {
                assert(before[h as int].comments == self.stored_review_comments@[h as int].comments@);
                if self.stored_review_comments[h].comments[i].source
                    == StackReviewCommentSource::Github {
                    return ;
                }
                let hunk_key = self.stored_review_comments[h].key.copied();
                let mut comment = self.stored_review_comments[h].comments[i].copied();
                let text = comment.comment.clone();
                comment.is_editing = true;
                proof {
                    lemma_total_with_comment(before, h as int, i as int, comment);
                }
                replace_comment(&mut self.stored_review_comments, h, i, comment);
                match self.find_overlay(&hunk_key, snapshot) {
                    Some(at) => {
                        if !contains_key(&self.diff_review_overlays[at].inline_edits, &key) {
                            let ghost overlays = self.diff_review_overlays@;
                            let overlay: u64 = self.diff_review_overlays[at].id;
                            self.diff_review_overlays[at].inline_edits.push(key.copied());
                            proof {
                                let now = self.diff_review_overlays@;
                                assert(edit_keys(now[at as int]) =~= edit_keys(
                                    overlays[at as int],
                                ).push(key_view));
                                lemma_edits_ok(
                                    overlays,
                                    now,
                                    at as int,
                                    edit_keys(overlays[at as int]).push(key_view),
                                    self.next_overlay,
                                );
                            }
                            self.ask(EditorEffect::OpenInlineEditor { overlay, key, text });
                        }
                    },
                    None => {},
                }
                assert(begins_edit(
                    *old(self),
                    *self,
                    key_view,
                    h as int,
                    i as int,
                    *snapshot,
                ));
            },
            None => {},
        }
    }

    fn write_body(&mut self, h: usize, i: usize, body: String)
        requires
            old(self).wf(),
            stored_at(old(self).hunks(), h as int, i as int),
        ensures
            final(self).wf(),
            *final(self) == (Editor {
                stored_review_comments: final(self).stored_review_comments,
                ..*old(self)
            }),
            final(self).hunks() == with_comment(
                old(self).hunks(),
                h as int,
                i as int,
                (StoredReviewComment {
                    comment: body,
                    is_editing: false,
                    ..old(self).hunks()[h as int].comments[i as int]
                }),
            ),
            total_comments(final(self).hunks()) == total_comments(old(self).hunks()),
    {
        let ghost before = self.hunks();
        assert(before[h as int].comments == self.stored_review_comments@[h as int].comments@);
        let mut comment = self.stored_review_comments[h].comments[i].copied();
        comment.comment = body;
        comment.is_editing = false;
        proof {
            lemma_total_with_comment(before, h as int, i as int, comment);
        }
        replace_comment(&mut self.stored_review_comments, h, i, comment);
    }

    fn end_edit(
        &mut self,
        key: &ReviewCommentKey,
        h: usize,
        i: usize,
        body: String,
        tell: bool,
        snapshot: &ReviewSnapshot,
    )
        requires
            old(self).wf(),
            stored_at(old(self).hunks(), h as int, i as int),
        ensures
            final(self).wf(),
            ends_edit(
                *old(self),
                *final(self),
                key@,
                h as int,
                i as int,
                body,
                if tell {
                    seq![changed_effect(*old(self))]
                } else {
                    Seq::empty()
                },
                *snapshot,
            ),
    {
        let hunk_key = self.stored_review_comments[h].key.copied();
        self.write_body(h, i, body);
        if tell {
            let total_count: usize = self.total_review_comment_count();
            self.emit(EditorEvent::ReviewCommentsChanged { total_count });
        }
        let ghost told: Seq<EffectView> = if tell {
            seq![changed_effect(*old(self))]
        } else {
            Seq::empty()
        };
        let ghost asked = self.asked();
        assert(asked =~= old(self).asked() + told);
        self.close_inline_editor(&hunk_key, key, snapshot);
        assert forall|effect: EffectView| #[trigger]
            asked.push(effect) == old(self).asked() + told.push(effect) by {
            assert(asked.push(effect) =~= old(self).asked() + told.push(effect));
        }
    }

    fn close_inline_editor(
        &mut self,
        hunk_key: &DiffHunkKey,
        key: &ReviewCommentKey,
        snapshot: &ReviewSnapshot,
    )
        requires
            old(self).wf(),
        ensures
            final(self).wf(),
            *final(self) == (Editor {
                diff_review_overlays: final(self).diff_review_overlays,
                effects: final(self).effects,
                ..*old(self)
            }),
            ({
                let overlays = old(self).diff_review_overlays@;
                let shown = overlay_at(overlays, *hunk_key, *snapshot);
                if shown is Some && edit_keys(overlays[shown->0]).contains(key@) {
                    &&& changes_edits(
                        overlays,
                        final(self).diff_review_overlays@,
                        shown->0,
                        keys_without(edit_keys(overlays[shown->0]), key@),
                    )
                    &&& final(self).asked() == old(self).asked().push(
                        EffectView::CloseInlineEditor {
                            overlay: overlays[shown->0].id,
                            key: key@,
                        },
                    )
                } else {
                    *final(self) == *old(self)
                }
            }),
    {
        match self.find_overlay(hunk_key, snapshot) {
            Some(at) => {
                if contains_key(&self.diff_review_overlays[at].inline_edits, key) {
                    let ghost overlays = self.diff_review_overlays@;
                    let overlay: u64 = self.diff_review_overlays[at].id;
                    let rest = drop_key(&self.diff_review_overlays[at].inline_edits, key);
                    self.diff_review_overlays[at].inline_edits = rest;
                    proof {
                        let now = self.diff_review_overlays@;
                        lemma_edits_ok(
                            overlays,
                            now,
                            at as int,
                            keys_without(edit_keys(overlays[at as int]), key@),
                            self.next_overlay,
                        );
                    }
                    self.ask(EditorEffect::CloseInlineEditor { overlay, key: key.copied() });
                }
            },
            None => {},
        }
    }

    /// Confirms the edit of the one comment of number `id` that has no record.
    pub fn confirm_edit_review_comment(&mut self, id: usize, text: &str, snapshot: &ReviewSnapshot)
        requires
            old(self).wf(),
        ensures
            final(self).wf(),
            match only_stored(old(self).hunks(), QueryView::Key(CommentKeyView::Legacy(id))) {
                Some((h, i)) => confirms_edit(
                    *old(self),
                    *final(self),
                    CommentKeyView::Legacy(id),
                    h,
                    i,
                    text@,
                    *snapshot,
                ),
                None => *final(self) == *old(self),
            },
    {
        self.confirm_review_comment_edit_by_key(ReviewCommentKey::Legacy(id), text, snapshot);
    }

    /// Confirms the edit of the one comment of a record.
    pub fn confirm_stack_review_comment_edit(
        &mut self,
        record_id: &str,
        text: &str,
        snapshot: &ReviewSnapshot,
    )
        requires
            old(self).wf(),
        ensures
            final(self).wf(),
            match only_stored(
                old(self).hunks(),
                QueryView::Key(CommentKeyView::Stable(record_id@)),
            ) {
                Some((h, i)) => confirms_edit(
                    *old(self),
                    *final(self),
                    CommentKeyView::Stable(record_id@),
                    h,
                    i,
                    text@,
                    *snapshot,
                ),
                None => *final(self) == *old(self),
            },
    {
        self.confirm_review_comment_edit_by_key(
            ReviewCommentKey::Stable(record_id.to_owned()),
            text,
            snapshot,
        );
    }

    /// Ends the edit of the one comment that `key` finds. It gets the text that was written in
    /// its place, unless there is none.
    pub fn confirm_review_comment_edit_by_key(
        &mut self,
        key: ReviewCommentKey,
        text: &str,
        snapshot: &ReviewSnapshot,
    )
        requires
            old(self).wf(),
        ensures
            final(self).wf(),
            match only_stored(old(self).hunks(), QueryView::Key(key@)) {
                Some((h, i)) => confirms_edit(
                    *old(self),
                    *final(self),
                    key@,
                    h,
                    i,
                    text@,
                    *snapshot,
                ),
                None => *final(self) == *old(self),
            },
    {
        let ghost before = self.hunks();
        let query = CommentQuery::Key(key.copied());
        match find_only_stored(&self.stored_review_comments, &query) {
            Some((h, i)) => {
                assert(before[h as int].comments == self.stored_review_comments@[h as int].comments@);
                let in_place = match self.find_overlay(
                    &self.stored_review_comments[h].key,
                    snapshot,
                ) {
                    Some(at) => contains_key(&self.diff_review_overlays[at].inline_edits, &key),
                    None => false,
                };
                let body = trim_text(text).to_owned();
                if in_place && body.as_str().unicode_len() > 0 {
                    self.end_edit(&key, h, i, body, true, snapshot);
                } else {
                    let body = self.stored_review_comments[h].comments[i].comment.clone();
                    self.end_edit(&key, h, i, body, false, snapshot);
                }
            },
            None => {},
        }
    }

    /// Gives up the edit of the one comment of number `id` that has no record.
    pub fn cancel_edit_review_comment(&mut self, id: usize, snapshot: &ReviewSnapshot)
        requires
            old(self).wf(),
        ensures
            final(self).wf(),
            cancels_edit(*old(self), *final(self), CommentKeyView::Legacy(id), *snapshot),
    {
        self.cancel_review_comment_edit_by_key(ReviewCommentKey::Legacy(id), snapshot);
    }

    /// Gives up the edit of the one comment of a record.
    pub fn cancel_stack_review_comment_edit(&mut self, record_id: &str, snapshot: &ReviewSnapshot)
        requires
            old(self).wf(),
        ensures
            final(self).wf(),
            cancels_edit(*old(self), *final(self), CommentKeyView::Stable(record_id@), *snapshot),
    {
        self.cancel_review_comment_edit_by_key(
            ReviewCommentKey::Stable(record_id.to_owned()),
            snapshot,
        );
    }

    /// Ends the edit of the one comment that `key` finds and leaves it as it was.
    pub fn cancel_review_comment_edit_by_key(
        &mut self,
        key: ReviewCommentKey,
        snapshot: &ReviewSnapshot,
    )
        requires
            old(self).wf(),
        ensures
            final(self).wf(),
            cancels_edit(*old(self), *final(self), key@, *snapshot),
    {
        let ghost before = self.hunks();
        let query = CommentQuery::Key(key.copied());
        match find_only_stored(&self.stored_review_comments, &query) {
            Some((h, i)) => {
                assert(before[h as int].comments == self.stored_review_comments@[h as int].comments@);
                let body = self.stored_review_comments[h].comments[i].comment.clone();
                self.end_edit(&key, h, i, body, false, snapshot);
            },
            None => {},
        }
    }

    fn follow_removal(&mut self, hunk_key: &DiffHunkKey, snapshot: &ReviewSnapshot)
        requires
            old(self).wf(),
        ensures
            final(self).wf(),
            follows_removal(*old(self), *final(self), *hunk_key, *snapshot),
    {
        if self.hunk_comment_count(hunk_key, snapshot) == 0 {
            match self.find_overlay(hunk_key, snapshot) {
                Some(at) => self.close_overlay(at),
                None => {},
            }
        } else {
            self.refresh_diff_review_overlay_height(hunk_key, snapshot);
        }
    }

    /// Deletes the one comment of a record.
    pub fn delete_stack_review_comment(&mut self, record_id: &str, snapshot: &ReviewSnapshot)
        requires
            old(self).wf(),
        ensures
            final(self).wf(),
            deletes(*old(self), *final(self), CommentKeyView::Stable(record_id@), *snapshot),
    {
        self.delete_review_comment_by_key(
            ReviewCommentKey::Stable(record_id.to_owned()),
            snapshot,
        );
    }

    /// Deletes the one comment that `key` finds.
    pub fn delete_review_comment_by_key(&mut self, key: ReviewCommentKey, snapshot: &ReviewSnapshot)
        requires
            old(self).wf(),
        ensures
            final(self).wf(),
            deletes(*old(self), *final(self), key@, *snapshot),
    {
        let ghost before = self.hunks();
        let query = CommentQuery::Key(key.copied());
        match find_only_stored(&self.stored_review_comments, &query) {
            Some((h, i)) => {
                assert(before[h as int].comments == self.stored_review_comments@[h as int].comments@);
                if self.stored_review_comments[h].comments[i].source
                    == StackReviewCommentSource::Github {
                    return ;
                }
                let hunk_key = self.stored_review_comments[h].key.copied();
                let first: usize = match find_hunk(
                    &self.stored_review_comments,
                    &hunk_key,
                    snapshot,
                ) {
                    Some(first) => first,
                    None => {
                        return ;
                    },
                };
                if first != h {
                    return ;
                }
                proof {
                    lemma_total_without_comment(before, h as int, i as int);
                }
                let _ = take_comment(&mut self.stored_review_comments, h, i);
                match &key {
                    ReviewCommentKey::Stable(record_id) => {
                        self.emit(
                            EditorEvent::StackReviewCommentDeleted { record_id: record_id.clone() },
                        );
                    },
                    ReviewCommentKey::Legacy(_) => {
                        let total_count: usize = self.total_review_comment_count();
                        self.emit(EditorEvent::ReviewCommentsChanged { total_count });
                    },
                }
                let ghost removed = *self;
                assert(removes_at(*old(self), removed, key@, h as int, i as int));
                self.follow_removal(&hunk_key, snapshot);
            },
            None => {},
        }
    }

    /// Deletes the comment of number `id`: in the review of a stack the one that has no record,
    /// else the first; but none that comes from GitHub.
    pub fn delete_review_comment(&mut self, id: usize, snapshot: &ReviewSnapshot)
        requires
            old(self).wf(),
        ensures
            final(self).wf(),
            if old(self).is_stack_review {
                deletes(*old(self), *final(self), CommentKeyView::Legacy(id), *snapshot)
            } else {
                deletes_number(*old(self), *final(self), id, *snapshot)
            },
    {
        if self.is_stack_review {
            self.delete_review_comment_by_key(ReviewCommentKey::Legacy(id), snapshot);
            return ;
        }
        let ghost before = self.hunks();
        match find_first_numbered(&self.stored_review_comments, id) {
            Some((h, i)) => {
                assert(before[h as int].comments == self.stored_review_comments@[h as int].comments@);
                assert(before[h as int].comments[i as int].id == id);
                if self.stored_review_comments[h].comments[i].source
                    == StackReviewCommentSource::Github {
                    return ;
                }
                let hunk_key = self.stored_review_comments[h].key.copied();
                let _ = self.remove_review_comment(id);
                let ghost removed = *self;
                assert(removes_number(*old(self), removed, id));
                self.follow_removal(&hunk_key, snapshot);
            },
            None => {
                if self.diff_review_overlays.len() > 0 {
                    let hunk_key = self.diff_review_overlays[0].hunk_key.copied();
                    self.follow_removal(&hunk_key, snapshot);
                }
            },
        }
    }
}

/// What beginning to edit the one comment that `key` finds does, unless it comes from GitHub.
pub open spec fn begins_edit_of(
    before: Editor,
    after: Editor,
    key: CommentKeyView,
    snapshot: ReviewSnapshot,
) -> bool {
    match only_stored(before.hunks(), QueryView::Key(key)) {
        Some((h, i)) => if before.hunks()[h].comments[i].source
            == StackReviewCommentSource::Github {
            after == before
        } else {
            begins_edit(before, after, key, h, i, snapshot)
        },
        None => after == before,
    }
}

/// What giving up the edit of the one comment that `key` finds does.
pub open spec fn cancels_edit(
    before: Editor,
    after: Editor,
    key: CommentKeyView,
    snapshot: ReviewSnapshot,
) -> bool {
    match only_stored(before.hunks(), QueryView::Key(key)) {
        Some((h, i)) => ends_edit(
            before,
            after,
            key,
            h,
            i,
            before.hunks()[h].comments[i].comment,
            Seq::empty(),
            snapshot,
        ),
        None => after == before,
    }
}

/// What deleting the first comment of number `id` does. Where there is none, the first overlay
/// is looked after as if one had been deleted from its hunk.
pub open spec fn deletes_number(
    before: Editor,
    after: Editor,
    id: usize,
    snapshot: ReviewSnapshot,
) -> bool {
    if has_number(before.hunks(), id) {
        exists|h: int, i: int| #[trigger]
            is_first_numbered(before.hunks(), id, h, i) && deletes_first(
                before,
                after,
                id,
                h,
                i,
                snapshot,
            )
    } else if before.diff_review_overlays@.len() > 0 {
        follows_removal(before, after, before.diff_review_overlays@[0].hunk_key, snapshot)
    } else {
        after == before
    }
}

/// What deleting the first comment of number `id`, which stands at place `i` of hunk `h`, does.
pub open spec fn deletes_first(
    before: Editor,
    after: Editor,
    id: usize,
    h: int,
    i: int,
    snapshot: ReviewSnapshot,
) -> bool {
    if before.hunks()[h].comments[i].source == StackReviewCommentSource::Github {
        after == before
    } else {
        exists|removed: Editor| #[trigger]
            removes_number(before, removed, id) && follows_removal(
                removed,
                after,
                before.hunks()[h].key,
                snapshot,
            )
    }
}

} // verus!
