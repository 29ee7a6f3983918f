//! Writing comments and replies in the overlays of an editor.

use crate::comment::{copied_text, StackReviewCommentSource};
use crate::editor::{overlays_ok, DiffReviewOverlay, Editor};
use crate::editor_comments::{new_comment, CommentStamp};
use crate::editor_effect::{EditorEffect, EffectView, EventView, Placeholder};
use crate::editor_overlays::{
    can_show_again, close_effects, lemma_removed_ok, overlay_numbered, shows_overlay,
    without_composer,
};
use crate::overlay_height::{overlay_at, resize_effects};
use crate::review_comment::{AnchorRange, CommentKeyView, DiffHunkKey, ReviewCommentKey};
use crate::review_snapshot::ReviewSnapshot;
use crate::review_store::{
    find_only_stored, hunk_comments, only_stored, total_comments, with_new_comment, CommentQuery,
    QueryView,
};
use crate::text::opt_string_view;
use crate::thread_items::pending_reference;
use crate::trim::{trim_text, trimmed};
use vstd::prelude::*;
use vstd::string::*;

verus! {

/// Whether what a reply in an overlay replies to can be told, and stands at the same hunk. Only
/// the review of a stack asks for that.
pub open spec fn reply_is_placed(
    editor: Editor,
    overlay: DiffReviewOverlay,
    snapshot: ReviewSnapshot,
) -> bool {
    match pending_reference(
        overlay.pending_reply_to,
        opt_string_view(overlay.pending_reply_to_record_id),
    ) {
        Some(key) if editor.is_stack_review => match only_stored(
            editor.hunks(),
            QueryView::Key(key),
        ) {
            Some((h, i)) => snapshot.same_hunk(editor.hunks()[h].key, overlay.hunk_key)
                && overlay.pending_reply_to == Some(editor.hunks()[h].comments[i].id),
            None => false,
        },
        _ => true,
    }
}

/// Whether a comment from this overlay is the first of its hunk, so that the overlay has to be
/// shown anew on both sides.
pub open spec fn publishes_overlay(
    editor: Editor,
    overlay: DiffReviewOverlay,
    snapshot: ReviewSnapshot,
) -> bool {
    &&& editor.is_stack_review
    &&& hunk_comments(editor.hunks(), overlay.hunk_key, snapshot).len() == 0
    &&& snapshot.path_at(overlay.anchor_range.start) is Some
}

/// What adding the comment that was written in an overlay does.
pub open spec fn adds_comment(
    before: Editor,
    after: Editor,
    overlay: DiffReviewOverlay,
    text: String,
    stamp: CommentStamp,
    snapshot: ReviewSnapshot,
) -> bool {
    &&& after == (Editor {
        stored_review_comments: after.stored_review_comments,
        next_review_comment_id: after.next_review_comment_id,
        effects: after.effects,
        ..before
    })
    &&& after.next_review_comment_id == before.next_review_comment_id + 1
    &&& after.hunks() == with_new_comment(
        before.hunks(),
        overlay.hunk_key,
        snapshot,
        new_comment(
            before.is_stack_review,
            before.next_review_comment_id,
            text,
            overlay.anchor_range,
            overlay.comment_author,
            StackReviewCommentSource::LocalHuman,
            overlay.pending_reply_to,
            overlay.pending_reply_to_record_id,
            stamp,
        ),
    )
    &&& after.asked() == before.asked().push(
        EffectView::Emit(
            EventView::ReviewCommentsChanged { total_count: total_comments(before.hunks()) + 1 },
        ),
    )
}

/// What closing one overlay does.
pub open spec fn closes_overlay(before: Editor, after: Editor, at: int) -> bool {
    let overlays = before.diff_review_overlays@;
    &&& after == (Editor {
        diff_review_overlays: after.diff_review_overlays,
        effects: after.effects,
        ..before
    })
    &&& after.diff_review_overlays@ == overlays.remove(at)
    &&& after.asked() == before.asked() + close_effects(seq![overlays[at].id])
}

/// What showing an overlay again does, where its lines are still where they were.
pub open spec fn shows_again(
    before: Editor,
    after: Editor,
    key: DiffHunkKey,
    range: AnchorRange,
    snapshot: ReviewSnapshot,
) -> bool {
    if can_show_again(before.is_stack_review, key, range, snapshot) {
        shows_overlay(before, after, key, range, false, snapshot)
    } else {
        after == before
    }
}

/// What asking for one more thing does.
pub open spec fn asks(before: Editor, after: Editor, effect: EffectView) -> bool {
    &&& after == (Editor { effects: after.effects, ..before })
    &&& after.asked() == before.asked().push(effect)
}

/// What follows where a comment is the first of its hunk: its overlay is shown anew.
pub open spec fn shows_anew(
    before: Editor,
    after: Editor,
    at: int,
    snapshot: ReviewSnapshot,
) -> bool {
    let overlay = before.diff_review_overlays@[at];
    exists|closed: Editor, shown: Editor|
        closes_overlay(before, closed, at) && #[trigger] shows_again(
            closed,
            shown,
            overlay.hunk_key,
            overlay.anchor_range,
            snapshot,
        ) && asks(shown, after, EffectView::FocusEditor)
}

/// What follows where a comment is not the first of its hunk: the prompt is emptied and, in the
/// review of a stack, put away.
pub open spec fn empties_prompt(
    before: Editor,
    after: Editor,
    at: int,
    snapshot: ReviewSnapshot,
) -> bool {
    let overlays = before.diff_review_overlays@;
    let overlay = overlays[at];
    let now = if before.is_stack_review {
        overlays.update(at, without_composer(overlay))
    } else {
        overlays
    };
    let emptied = seq![
        EffectView::ClearPrompt { overlay: overlay.id },
        EffectView::SetPlaceholder { overlay: overlay.id, placeholder: Placeholder::Comment },
    ];
    let focused = if before.is_stack_review {
        seq![EffectView::FocusEditor]
    } else {
        Seq::empty()
    };
    &&& after == (Editor {
        diff_review_overlays: after.diff_review_overlays,
        effects: after.effects,
        ..before
    })
    &&& after.diff_review_overlays@ == now
    &&& after.asked() == before.asked() + emptied + focused + resize_effects(
        before.is_stack_review,
        now,
        before.hunks(),
        overlay.hunk_key,
        snapshot,
    )
}

/// What follows where a comment was added from the overlay at `at`.
pub open spec fn follows_submit(
    before: Editor,
    added: Editor,
    after: Editor,
    at: int,
    snapshot: ReviewSnapshot,
) -> bool {
    if publishes_overlay(before, before.diff_review_overlays@[at], snapshot) {
        shows_anew(added, after, at, snapshot)
    } else {
        empties_prompt(added, after, at, snapshot)
    }
}

/// What submitting what was written in the overlay at `at` does.
pub open spec fn submits(
    before: Editor,
    after: Editor,
    at: int,
    prompt: Seq<char>,
    stamp: CommentStamp,
    snapshot: ReviewSnapshot,
) -> bool {
    if trimmed(prompt).len() == 0 || !reply_is_placed(
        before,
        before.diff_review_overlays@[at],
        snapshot,
    ) {
        after == before
    } else {
        exists|text: String, added: Editor|
            text@ == trimmed(prompt) && #[trigger] adds_comment(
                before,
                added,
                before.diff_review_overlays@[at],
                text,
                stamp,
                snapshot,
            ) && follows_submit(before, added, after, at, snapshot)
    }
}

/// Changing an overlay but for its number keeps the overlays apart.
pub proof fn lemma_updated_ok(
    overlays: Seq<DiffReviewOverlay>,
    at: int,
    overlay: DiffReviewOverlay,
    next_overlay: u64,
)
    requires
        overlays_ok(overlays, next_overlay),
        0 <= at < overlays.len(),
        overlay.id == overlays[at].id,
    ensures
        overlays_ok(overlays.update(at, overlay), next_overlay),
{
    let now = overlays.update(at, overlay);
    assert forall|i: int| 0 <= i < now.len() implies (#[trigger] now[i]).id < next_overlay by {
        assert(now[i].id == overlays[i].id);
    }
    assert forall|i: int, j: int|
        #![trigger now[i], now[j]]
        0 <= i < j < now.len() implies now[i].id != now[j].id by {
        assert(now[i].id == overlays[i].id);
        assert(now[j].id == overlays[j].id);
    }
}

impl Editor {
    fn is_reply_placed(&self, at: usize, snapshot: &ReviewSnapshot) -> (placed: bool)
        requires
            at < self.diff_review_overlays@.len(),
        ensures
            placed == reply_is_placed(*self, self.diff_review_overlays@[at as int], *snapshot),
    {
        if !self.is_stack_review {
            return true;
        }
        let overlay = &self.diff_review_overlays[at];
        let key = match &overlay.pending_reply_to_record_id {
            Some(record_id) => ReviewCommentKey::Stable(record_id.clone()),
            None => match overlay.pending_reply_to {
                Some(id) => ReviewCommentKey::Legacy(id),
                None => {
                    return true;
                },
            },
        };
        match find_only_stored(&self.stored_review_comments, &CommentQuery::Key(key)) {
            Some((h, i)) => {
                assert(self.hunks()[h as int].comments
                    == self.stored_review_comments@[h as int].comments@);
                let parent: usize = self.stored_review_comments[h].comments[i].id;
                let named = match overlay.pending_reply_to {
                    Some(id) => id == parent,
                    None => false,
                };
                snapshot.hunk_keys_match(&self.stored_review_comments[h].key, &overlay.hunk_key)
                    && named
            },
            None => false,
        }
    }

    pub(crate) fn close_overlay(&mut self, at: usize)
        requires
            old(self).wf(),
            at < old(self).diff_review_overlays@.len(),
        ensures
            final(self).wf(),
            closes_overlay(*old(self), *final(self), at as int),
    {
        proof {
            lemma_removed_ok(self.diff_review_overlays@, at as int, self.next_overlay);
        }
        let overlay = self.diff_review_overlays.remove(at);
        let mut overlays: Vec<u64> = Vec::new();
        overlays.push(overlay.id);
        assert(overlays@ =~= seq![overlay.id]);
        self.ask(EditorEffect::CloseOverlays { overlays });
        assert(self.asked() =~= old(self).asked() + close_effects(seq![overlay.id]));
    }

    /// Adds the comment that was written in the overlay that has the focus.
    pub fn submit_diff_review_comment(
        &mut self,
        focused: Option<u64>,
        prompt: &str,
        stamp: CommentStamp,
        snapshot: &ReviewSnapshot,
    )
        requires
            old(self).wf(),
            total_comments(old(self).hunks()) < usize::MAX,
            old(self).next_review_comment_id < usize::MAX,
            old(self).next_overlay < u64::MAX,
        ensures
            final(self).wf(),
            ({
                let at = match focused {
                    Some(overlay) => overlay_numbered(
                        old(self).diff_review_overlays@,
                        overlay,
                        0,
                    ),
                    None => None,
                };
                match at {
                    Some(at) => {
                        submits(*old(self), *final(self), at, prompt@, stamp, *snapshot)
                    },
                    None => *final(self) == *old(self),
                }
            }),
    {
        let at: usize = match focused {
            Some(overlay) => match self.find_numbered_overlay(overlay) {
                Some(at) => at,
                None => {
                    return ;
                },
            },
            None => {
                return ;
            },
        };
        let text = trim_text(prompt).to_owned();
        if text.as_str().unicode_len() == 0 {
            return ;
        }
        let ghost overlay = self.diff_review_overlays@[at as int];
        let anchor_range = self.diff_review_overlays[at].anchor_range;
        let hunk_key = self.diff_review_overlays[at].hunk_key.copied();
        let author = self.diff_review_overlays[at].comment_author.copied();
        let reply_to: Option<usize> = self.diff_review_overlays[at].pending_reply_to;
        let reply_to_record_id = copied_text(
            &self.diff_review_overlays[at].pending_reply_to_record_id,
        );
        let publishes = self.is_stack_review && self.hunk_comment_count(&hunk_key, snapshot) == 0
            && snapshot.file_path_at(anchor_range.start).is_some();
        if !self.is_reply_placed(at, snapshot) {
            return ;
        }
        let _ = self.add_review_comment_with_metadata(
            hunk_key.copied(),
            text,
            anchor_range,
            author,
            StackReviewCommentSource::LocalHuman,
            reply_to,
            reply_to_record_id,
            stamp,
            snapshot,
        );
        let ghost added = *self;
        assert(adds_comment(*old(self), added, overlay, text, stamp, *snapshot));
        if publishes {
            self.close_overlay(at);
            let ghost closed = *self;
            self.show_overlay_again(hunk_key, anchor_range, snapshot);
            let ghost shown = *self;
            assert(shows_again(closed, shown, overlay.hunk_key, overlay.anchor_range, *snapshot));
            self.ask(EditorEffect::FocusEditor);
            assert(shows_anew(added, *self, at as int, *snapshot));
            assert(follows_submit(*old(self), added, *self, at as int, *snapshot));
            return ;
        }
        let id: u64 = self.diff_review_overlays[at].id;
        self.ask(EditorEffect::ClearPrompt { overlay: id });
        self.ask(
            EditorEffect::SetPlaceholder { overlay: id, placeholder: Placeholder::Comment },
        );
        if self.is_stack_review {
            self.diff_review_overlays[at].composer_visible = false;
            self.diff_review_overlays[at].pending_reply_to = None;
            self.diff_review_overlays[at].pending_reply_to_record_id = None;
            proof {
                lemma_updated_ok(
                    added.diff_review_overlays@,
                    at as int,
                    without_composer(overlay),
                    added.next_overlay,
                );
                assert(self.diff_review_overlays@ =~= added.diff_review_overlays@.update(
                    at as int,
                    without_composer(overlay),
                ));
            }
            self.ask(EditorEffect::FocusEditor);
        }
        self.refresh_diff_review_overlay_height(&hunk_key, snapshot);
        proof {
            let emptied = seq![
                EffectView::ClearPrompt { overlay: id },
                EffectView::SetPlaceholder { overlay: id, placeholder: Placeholder::Comment },
            ];
            let focused = if added.is_stack_review {
                seq![EffectView::FocusEditor]
            } else {
                Seq::empty()
            };
            assert(self.asked() =~= added.asked() + emptied + focused + resize_effects(
                added.is_stack_review,
                self.diff_review_overlays@,
                added.hunks(),
                hunk_key,
                *snapshot,
            ));
            assert(empties_prompt(added, *self, at as int, *snapshot));
            assert(follows_submit(*old(self), added, *self, at as int, *snapshot));
        }
    }

    /// Opens the prompt of the overlay at a hunk for a reply.
    fn show_reply_composer(
        &mut self,
        hunk_key: DiffHunkKey,
        comment_id: usize,
        record_id: Option<String>,
        snapshot: &ReviewSnapshot,
    )
        requires
            old(self).wf(),
        ensures
            final(self).wf(),
            opens_reply(*old(self), *final(self), hunk_key, comment_id, record_id, *snapshot),
    {
        match self.find_overlay(&hunk_key, snapshot) {
            Some(at) => {
                let ghost overlays = self.diff_review_overlays@;
                let ghost named = record_id;
                let id: u64 = self.diff_review_overlays[at].id;
                self.diff_review_overlays[at].pending_reply_to = Some(comment_id);
                self.diff_review_overlays[at].pending_reply_to_record_id = record_id;
                self.diff_review_overlays[at].composer_visible = true;
                let ghost now = with_reply(overlays[at as int], comment_id, named);
                proof {
                    lemma_updated_ok(overlays, at as int, now, self.next_overlay);
                    assert(self.diff_review_overlays@ =~= overlays.update(at as int, now));
                }
                self.ask(EditorEffect::ClearPrompt { overlay: id });
                self.ask(
                    EditorEffect::SetPlaceholder { overlay: id, placeholder: Placeholder::Reply },
                );
                self.refresh_diff_review_overlay_height(&hunk_key, snapshot);
                self.ask(EditorEffect::FocusPrompt { overlay: id });
                assert(self.asked() =~= old(self).asked() + seq![
                    EffectView::ClearPrompt { overlay: id },
                    EffectView::SetPlaceholder { overlay: id, placeholder: Placeholder::Reply },
                ] + resize_effects(
                    old(self).is_stack_review,
                    overlays.update(at as int, now),
                    old(self).hunks(),
                    hunk_key,
                    *snapshot,
                ) + seq![EffectView::FocusPrompt { overlay: id }]);
            },
            None => {},
        }
    }

    /// Begins a reply to the one comment of number `id`; in the review of a stack, to the one of
    /// that number that has no record.
    pub fn reply_to_review_comment(&mut self, id: usize, snapshot: &ReviewSnapshot)
        requires
            old(self).wf(),
        ensures
            final(self).wf(),
            match only_stored(
                old(self).hunks(),
                if old(self).is_stack_review {
                    QueryView::Key(CommentKeyView::Legacy(id))
                } else {
                    QueryView::Number(id)
                },
            ) {
                Some((h, _)) => opens_reply(
                    *old(self),
                    *final(self),
                    old(self).hunks()[h].key,
                    id,
                    None,
                    *snapshot,
                ),
                None => *final(self) == *old(self),
            },
    {
        let query = if self.is_stack_review {
            CommentQuery::Key(ReviewCommentKey::Legacy(id))
        } else {
            CommentQuery::Number(id)
        };
        match find_only_stored(&self.stored_review_comments, &query) {
            Some((h, _)) => {
                let key = self.stored_review_comments[h].key.copied();
                self.show_reply_composer(key, id, None, snapshot);
            },
            None => {},
        }
    }

    /// Begins a reply to the one comment of a record.
    pub fn reply_to_stack_review_comment(&mut self, record_id: &str, snapshot: &ReviewSnapshot)
        requires
            old(self).wf(),
        ensures
            final(self).wf(),
            match only_stored(
                old(self).hunks(),
                QueryView::Key(CommentKeyView::Stable(record_id@)),
            ) {
                Some((h, i)) => exists|named: String|
                    named@ == record_id@ && #[trigger] opens_reply(
                        *old(self),
                        *final(self),
                        old(self).hunks()[h].key,
                        old(self).hunks()[h].comments[i].id,
                        Some(named),
                        *snapshot,
                    ),
                None => *final(self) == *old(self),
            },
    {
        let query = CommentQuery::Key(ReviewCommentKey::Stable(record_id.to_owned()));
        match find_only_stored(&self.stored_review_comments, &query) {
            Some((h, i)) => {
                assert(self.hunks()[h as int].comments
                    == self.stored_review_comments@[h as int].comments@);
                let key = self.stored_review_comments[h].key.copied();
                let id: usize = self.stored_review_comments[h].comments[i].id;
                let named = record_id.to_owned();
                self.show_reply_composer(key, id, Some(named), snapshot);
            },
            None => {},
        }
    }
}

/// An overlay in which a reply is being written.
pub open spec fn with_reply(
    overlay: DiffReviewOverlay,
    id: usize,
    record_id: Option<String>,
) -> DiffReviewOverlay {
    DiffReviewOverlay {
        pending_reply_to: Some(id),
        pending_reply_to_record_id: record_id,
        composer_visible: true,
        ..overlay
    }
}

/// What beginning a reply does. Nothing happens where no overlay is at the hunk.
pub open spec fn opens_reply(
    before: Editor,
    after: Editor,
    key: DiffHunkKey,
    id: usize,
    record_id: Option<String>,
    snapshot: ReviewSnapshot,
) -> bool {
    let overlays = before.diff_review_overlays@;
    match overlay_at(overlays, key, snapshot) {
        Some(at) => {
            let overlay = overlays[at].id;
            let now = overlays.update(at, with_reply(overlays[at], id, record_id));
            &&& after == (Editor {
                diff_review_overlays: after.diff_review_overlays,
                effects: after.effects,
                ..before
            })
            &&& after.diff_review_overlays@ == now
            &&& after.asked() == before.asked() + seq![
                EffectView::ClearPrompt { overlay },
                EffectView::SetPlaceholder { overlay, placeholder: Placeholder::Reply },
            ] + resize_effects(before.is_stack_review, now, before.hunks(), key, snapshot) + seq![
                EffectView::FocusPrompt { overlay },
            ]
        },
        None => after == before,
    }
}

} // verus!
