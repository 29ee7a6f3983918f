//! Folding, counting and closing the overlays of an editor, and selecting lines for a new one.

use crate::editor::{overlays_ok, DiffReviewDragState, DiffReviewOverlay, Editor};
use crate::editor_composer::{lemma_updated_ok, shows_again};
use crate::editor_effect::{EditorEffect, EffectView, EventView, EditorEvent};
use crate::editor_overlays::{
    close_effects, ids_unless, in_use, is_key_for, overlay_numbered, overlays_where, reviewed_path,
    shows_overlay, without_composer,
};
use crate::overlay_height::{overlay_at, resize_effects};
use crate::editor_editing::{contains_key, edit_keys};
use crate::review_comment::{
    Anchor, AnchorRange, CommentKeyView, DiffHunkKey, ReviewCommentKey, StoredReviewComment,
};
use crate::review_snapshot::ReviewSnapshot;
use crate::review_store::{
    all_comments, hunk_comments, store_view, total_comments, HunkComments, HunkView,
};
use vstd::prelude::*;
use vstd::string::*;

verus! {

/// The numbers of overlays.
pub open spec fn overlay_ids(overlays: Seq<DiffReviewOverlay>) -> Seq<u64> {
    overlays.map_values(|overlay: DiffReviewOverlay| overlay.id)
}

/// An overlay whose comments are folded away if they were shown, and shown if they were not.
pub open spec fn with_toggled(overlay: DiffReviewOverlay) -> DiffReviewOverlay {
    DiffReviewOverlay { comments_expanded: !overlay.comments_expanded, ..overlay }
}

/// An overlay whose comments are shown, or folded away.
pub open spec fn with_expanded(overlay: DiffReviewOverlay, expanded: bool) -> DiffReviewOverlay {
    DiffReviewOverlay { comments_expanded: expanded, ..overlay }
}

/// What toggling the comments of the overlay at `at` does.
pub open spec fn toggles(before: Editor, after: Editor, at: int, snapshot: ReviewSnapshot) -> bool {
    let overlays = before.diff_review_overlays@;
    let now = overlays.update(at, with_toggled(overlays[at]));
    &&& after == (Editor {
        diff_review_overlays: after.diff_review_overlays,
        effects: after.effects,
        ..before
    })
    &&& after.diff_review_overlays@ == now
    &&& after.asked() == before.asked() + resize_effects(
        before.is_stack_review,
        now,
        before.hunks(),
        overlays[at].hunk_key,
        snapshot,
    )
}

/// How many comments the first overlays show, taken together.
pub open spec fn visible_comments(
    overlays: Seq<DiffReviewOverlay>,
    hunks: Seq<HunkView>,
    snapshot: ReviewSnapshot,
) -> nat
    decreases overlays.len(),
{
    if overlays.len() == 0 {
        0
    } else {
        visible_comments(overlays.drop_last(), hunks, snapshot) + hunk_comments(
            hunks,
            overlays.last().hunk_key,
            snapshot,
        ).len()
    }
}

proof fn lemma_visible_grows(
    overlays: Seq<DiffReviewOverlay>,
    hunks: Seq<HunkView>,
    snapshot: ReviewSnapshot,
    to: int,
)
    requires
        0 <= to <= overlays.len(),
    ensures
        visible_comments(overlays.take(to), hunks, snapshot) <= visible_comments(
            overlays,
            hunks,
            snapshot,
        ),
    decreases overlays.len(),
{
    if to < overlays.len() {
        assert(overlays.drop_last().take(to) =~= overlays.take(to));
        lemma_visible_grows(overlays.drop_last(), hunks, snapshot, to);
    } else {
        assert(overlays.take(to) =~= overlays);
    }
}

/// An overlay in which nothing is being written any longer.
pub open spec fn with_composer_closed(overlay: DiffReviewOverlay) -> DiffReviewOverlay {
    if overlay.composer_visible {
        without_composer(overlay)
    } else {
        overlay
    }
}

/// Overlays in which nothing is being written any longer.
pub open spec fn with_composers_closed(overlays: Seq<DiffReviewOverlay>) -> Seq<
    DiffReviewOverlay,
> {
    overlays.map_values(|overlay: DiffReviewOverlay| with_composer_closed(overlay))
}

/// What gives those of `writing` their heights anew in which something was being written.
pub open spec fn closed_composer_effects(
    editor: Editor,
    writing: Seq<DiffReviewOverlay>,
    now: Seq<DiffReviewOverlay>,
    snapshot: ReviewSnapshot,
) -> Seq<EffectView>
    decreases writing.len(),
{
    if writing.len() == 0 {
        Seq::empty()
    } else {
        let before = closed_composer_effects(editor, writing.drop_last(), now, snapshot);
        if writing.last().composer_visible {
            before + resize_effects(
                editor.is_stack_review,
                now,
                editor.hunks(),
                writing.last().hunk_key,
                snapshot,
            )
        } else {
            before
        }
    }
}

/// Whether something is being written in one of the overlays.
pub open spec fn any_composer(overlays: Seq<DiffReviewOverlay>) -> bool {
    exists|i: int| 0 <= i < overlays.len() && (#[trigger] overlays[i]).composer_visible
}

/// What showing the overlays of hunks with comments again, one after the other, does.
pub open spec fn reveals(
    before: Editor,
    after: Editor,
    hunks: Seq<HunkView>,
    snapshot: ReviewSnapshot,
) -> bool
    decreases hunks.len(),
{
    if hunks.len() == 0 {
        after == before
    } else if hunks.last().comments.len() == 0 {
        reveals(before, after, hunks.drop_last(), snapshot)
    } else {
        exists|shown: Editor|
            reveals(before, shown, hunks.drop_last(), snapshot) && #[trigger] shows_again(
                shown,
                after,
                hunks.last().key,
                hunks.last().comments[0].range,
                snapshot,
            )
    }
}

/// The comments whose lines are still there.
pub open spec fn kept_comments(comments: Seq<StoredReviewComment>, snapshot: ReviewSnapshot) -> Seq<
    StoredReviewComment,
>
    decreases comments.len(),
{
    if comments.len() == 0 {
        Seq::empty()
    } else {
        let before = kept_comments(comments.drop_last(), snapshot);
        let range = comments.last().range;
        if snapshot.valid_at(range.start) && snapshot.valid_at(range.end) {
            before.push(comments.last())
        } else {
            before
        }
    }
}

/// The hunks whose anchors are still valid and which the diff still has, with the comments whose
/// anchors are still valid; those without any are left out.
pub open spec fn kept_hunks(hunks: Seq<HunkView>, snapshot: ReviewSnapshot) -> Seq<HunkView>
    decreases hunks.len(),
{
    if hunks.len() == 0 {
        Seq::empty()
    } else {
        let before = kept_hunks(hunks.drop_last(), snapshot);
        let key = hunks.last().key;
        let comments = kept_comments(hunks.last().comments, snapshot);
        if snapshot.valid_at(key.hunk_start_anchor) && snapshot.has_hunk(key) && comments.len() > 0 {
            before.push(HunkView { key, comments })
        } else {
            before
        }
    }
}

/// Nothing is added by leaving out what is no longer there.
pub proof fn lemma_kept_total(hunks: Seq<HunkView>, snapshot: ReviewSnapshot)
    ensures
        total_comments(kept_hunks(hunks, snapshot)) <= total_comments(hunks),
    decreases hunks.len(),
{
    if hunks.len() > 0 {
        lemma_kept_total(hunks.drop_last(), snapshot);
        lemma_kept_comments(hunks.last().comments, snapshot);
        let now = kept_hunks(hunks, snapshot);
        let before = kept_hunks(hunks.drop_last(), snapshot);
        if now != before {
            assert(now.drop_last() =~= before);
        }
    }
}

proof fn lemma_kept_comments(comments: Seq<StoredReviewComment>, snapshot: ReviewSnapshot)
    ensures
        kept_comments(comments, snapshot).len() <= comments.len(),
    decreases comments.len(),
{
    if comments.len() > 0 {
        lemma_kept_comments(comments.drop_last(), snapshot);
    }
}

fn keep_valid_comments(comments: &Vec<StoredReviewComment>, snapshot: &ReviewSnapshot) -> (kept: Vec<
    StoredReviewComment,
>)
    ensures
        kept@ == kept_comments(comments@, *snapshot),
{
    let mut kept: Vec<StoredReviewComment> = Vec::new();
    let mut i: usize = 0;
    while i < comments.len()
        invariant
            i <= comments@.len(),
            kept@ == kept_comments(comments@.take(i as int), *snapshot),
        decreases comments.len() - i,
    {
        proof {
            assert(comments@.take(i + 1).drop_last() =~= comments@.take(i as int));
            assert(comments@.take(i + 1).last() == comments@[i as int]);
        }
        let range = comments[i].range;
        if snapshot.is_valid(range.start) && snapshot.is_valid(range.end) {
            kept.push(comments[i].copied());
        }
        i += 1;
    }
    assert(comments@.take(i as int) =~= comments@);
    kept
}

fn keep_valid_hunks(store: &Vec<HunkComments>, snapshot: &ReviewSnapshot) -> (kept: Vec<
    HunkComments,
>)
    ensures
        store_view(kept@) == kept_hunks(store_view(store@), *snapshot),
{
    let ghost view = store_view(store@);
    let mut kept: Vec<HunkComments> = Vec::new();
    let mut h: usize = 0;
    assert(store_view(kept@) =~= kept_hunks(view.take(0), *snapshot));
    while h < store.len()
        invariant
            h <= store@.len(),
            view == store_view(store@),
            store_view(kept@) == kept_hunks(view.take(h as int), *snapshot),
        decreases store.len() - h,
    {
        proof {
            assert(view.take(h + 1).drop_last() =~= view.take(h as int));
            assert(view.take(h + 1).last() == store@[h as int]@);
        }
        if snapshot.is_valid(store[h].key.hunk_start_anchor) && snapshot.still_has_hunk(
            &store[h].key,
        ) {
            let comments = keep_valid_comments(&store[h].comments, snapshot);
            if comments.len() > 0 {
                let ghost before = kept@;
                let hunk = HunkComments { key: store[h].key.copied(), comments };
                kept.push(hunk);
                assert(store_view(kept@) =~= store_view(before).push(hunk@));
            }
        }
        h += 1;
    }
    assert(view.take(h as int) =~= view);
    kept
}

impl DiffReviewDragState {
    /// The first and the last of the rows that are being selected.
    pub fn row_range(&self, snapshot: &ReviewSnapshot) -> (rows: (u32, u32))
        ensures
            ({
                let start = snapshot.display_row_at(self.start_anchor);
                let current = snapshot.display_row_at(self.current_anchor);
                rows == if start <= current {
                    (start, current)
                } else {
                    (current, start)
                }
            }),
            rows.0 <= rows.1,
            rows.0 == snapshot.display_row_at(self.start_anchor) && rows.1
                == snapshot.display_row_at(self.current_anchor) || rows.1
                == snapshot.display_row_at(self.start_anchor) && rows.0
                == snapshot.display_row_at(self.current_anchor),
    {
        let start: u32 = snapshot.display_row_of(self.start_anchor);
        let current: u32 = snapshot.display_row_of(self.current_anchor);
        if start <= current {
            (start, current)
        } else {
            (current, start)
        }
    }
}

impl Editor {
    /// Begins to select lines at an anchor.
    pub fn start_diff_review_drag(&mut self, anchor: Anchor)
        ensures
            *final(self) == (Editor {
                diff_review_drag_state: Some(
                    DiffReviewDragState { start_anchor: anchor, current_anchor: anchor },
                ),
                ..*old(self)
            }),
    {
        self.diff_review_drag_state = Some(
            DiffReviewDragState { start_anchor: anchor, current_anchor: anchor },
        );
    }

    /// Selects lines up to an anchor, if lines are being selected.
    pub fn update_diff_review_drag(&mut self, anchor: Anchor)
        ensures
            *final(self) == (Editor {
                diff_review_drag_state: match old(self).diff_review_drag_state {
                    Some(drag) => Some(DiffReviewDragState { current_anchor: anchor, ..drag }),
                    None => None,
                },
                ..*old(self)
            }),
    {
        match self.diff_review_drag_state {
            Some(drag) => {
                self.diff_review_drag_state = Some(
                    DiffReviewDragState {
                        start_anchor: drag.start_anchor,
                        current_anchor: anchor,
                    },
                );
            },
            None => {},
        }
    }

    /// Ends to select lines, and shows an overlay for those that were selected. `selected` is
    /// their range, from the beginning of the first to the end of the last, and `hunk_start`
    /// stands at its beginning.
    pub fn end_diff_review_drag(
        &mut self,
        selected: AnchorRange,
        hunk_start: Anchor,
        snapshot: &ReviewSnapshot,
    )
        requires
            old(self).wf(),
            old(self).next_overlay < u64::MAX,
        ensures
            final(self).wf(),
            match old(self).diff_review_drag_state {
                Some(_) => shows_selected(
                    Editor { diff_review_drag_state: None, ..*old(self) },
                    *final(self),
                    selected,
                    hunk_start,
                    *snapshot,
                ),
                None => *final(self) == *old(self),
            },
    {
        if self.diff_review_drag_state.is_some() {
            self.diff_review_drag_state = None;
            self.show_diff_review_overlay(selected, hunk_start, snapshot);
        }
    }

    /// Gives up selecting lines.
    pub fn cancel_diff_review_drag(&mut self)
        ensures
            *final(self) == (Editor { diff_review_drag_state: None, ..*old(self) }),
    {
        self.diff_review_drag_state = None;
    }

    /// Shows an overlay for the line of the cursor.
    pub fn show_stack_review_comment_at_cursor(
        &mut self,
        line: AnchorRange,
        line_start: Anchor,
        snapshot: &ReviewSnapshot,
    )
        requires
            old(self).wf(),
            old(self).next_overlay < u64::MAX,
        ensures
            final(self).wf(),
            shows_selected(*old(self), *final(self), line, line_start, *snapshot),
    {
        self.show_diff_review_overlay(line, line_start, snapshot);
    }

    /// Closes all overlays.
    pub fn dismiss_all_diff_review_overlays(&mut self)
        requires
            old(self).wf(),
        ensures
            final(self).wf(),
            *final(self) == (Editor {
                diff_review_overlays: final(self).diff_review_overlays,
                effects: final(self).effects,
                ..*old(self)
            }),
            final(self).diff_review_overlays@.len() == 0,
            final(self).asked() == old(self).asked() + close_effects(
                overlay_ids(old(self).diff_review_overlays@),
            ),
    {
        let mut overlays: Vec<u64> = Vec::new();
        let mut k: usize = 0;
        while k < self.diff_review_overlays.len()
            invariant
                k <= self.diff_review_overlays@.len(),
                overlays@ == overlay_ids(self.diff_review_overlays@).take(k as int),
            decreases self.diff_review_overlays.len() - k,
        {
            let id: u64 = self.diff_review_overlays[k].id;
            proof {
                let ids = overlay_ids(self.diff_review_overlays@);
                assert(ids.take(k + 1) =~= ids.take(k as int).push(id));
            }
            overlays.push(id);
            k += 1;
        }
        assert(overlays@ =~= overlay_ids(self.diff_review_overlays@));
        if overlays.len() > 0 {
            self.diff_review_overlays = Vec::new();
            self.ask(EditorEffect::CloseOverlays { overlays });
        }
        assert(self.asked() =~= old(self).asked() + close_effects(
            overlay_ids(old(self).diff_review_overlays@),
        ));
    }

    /// Hands over all comments and closes all overlays. Numbers begin anew.
    pub fn take_all_review_comments(&mut self) -> (comments: Vec<HunkComments>)
        requires
            old(self).wf(),
        ensures
            final(self).wf(),
            comments@ == old(self).stored_review_comments@,
            *final(self) == (Editor {
                stored_review_comments: final(self).stored_review_comments,
                next_review_comment_id: 0,
                diff_review_overlays: final(self).diff_review_overlays,
                effects: final(self).effects,
                ..*old(self)
            }),
            final(self).hunks() == Seq::<HunkView>::empty(),
            final(self).diff_review_overlays@.len() == 0,
            final(self).asked() == (old(self).asked() + close_effects(
                overlay_ids(old(self).diff_review_overlays@),
            )).push(EffectView::Emit(EventView::ReviewCommentsChanged { total_count: 0 })),
    {
        self.dismiss_all_diff_review_overlays();
        let mut comments: Vec<HunkComments> = Vec::new();
        std::mem::swap(&mut comments, &mut self.stored_review_comments);
        self.next_review_comment_id = 0;
        proof {
            assert(self.hunks() =~= Seq::<HunkView>::empty());
            assert(all_comments(self.hunks()).len() == 0);
        }
        self.emit(EditorEvent::ReviewCommentsChanged { total_count: 0 });
        comments
    }

    /// Forgets the comments whose anchors are no longer valid or whose hunks the diff no longer
    /// has.
    pub fn cleanup_orphaned_review_comments(&mut self, snapshot: &ReviewSnapshot)
        requires
            old(self).wf(),
        ensures
            final(self).wf(),
            ({
                let kept = kept_hunks(old(self).hunks(), *snapshot);
                &&& *final(self) == (Editor {
                    stored_review_comments: final(self).stored_review_comments,
                    effects: final(self).effects,
                    ..*old(self)
                })
                &&& final(self).hunks() == kept
                &&& final(self).asked() == if total_comments(kept) != total_comments(
                    old(self).hunks(),
                ) {
                    old(self).asked().push(
                        EffectView::Emit(
                            EventView::ReviewCommentsChanged { total_count: total_comments(kept) },
                        ),
                    )
                } else {
                    old(self).asked()
                }
            }),
    {
        let original: usize = self.total_review_comment_count();
        proof {
            lemma_kept_total(self.hunks(), *snapshot);
        }
        self.stored_review_comments = keep_valid_hunks(&self.stored_review_comments, snapshot);
        let total_count: usize = self.total_review_comment_count();
        if total_count != original {
            self.emit(EditorEvent::ReviewCommentsChanged { total_count });
        }
    }

    /// Closes the overlays that have no comments to show.
    pub fn dismiss_overlays_without_comments(&mut self, snapshot: &ReviewSnapshot)
        requires
            old(self).wf(),
        ensures
            final(self).wf(),
            *final(self) == (Editor {
                diff_review_overlays: final(self).diff_review_overlays,
                effects: final(self).effects,
                ..*old(self)
            }),
            final(self).diff_review_overlays@ == overlays_where(
                old(self).diff_review_overlays@,
                in_use(old(self).hunks(), *snapshot, false),
            ),
            final(self).asked() == old(self).asked() + close_effects(
                ids_unless(
                    old(self).diff_review_overlays@,
                    in_use(old(self).hunks(), *snapshot, false),
                ),
            ),
    {
        self.drop_unused_overlays(false, snapshot);
    }

    /// Closes the overlays that have no comments to show and in which nothing is being written.
    pub fn dismiss_empty_stack_review_projection_overlays(&mut self, snapshot: &ReviewSnapshot)
        requires
            old(self).wf(),
        ensures
            final(self).wf(),
            *final(self) == (Editor {
                diff_review_overlays: final(self).diff_review_overlays,
                effects: final(self).effects,
                ..*old(self)
            }),
            final(self).diff_review_overlays@ == overlays_where(
                old(self).diff_review_overlays@,
                in_use(old(self).hunks(), *snapshot, true),
            ),
            final(self).asked() == old(self).asked() + close_effects(
                ids_unless(
                    old(self).diff_review_overlays@,
                    in_use(old(self).hunks(), *snapshot, true),
                ),
            ),
    {
        self.drop_unused_overlays(true, snapshot);
    }

    /// Gives up whatever is being written: overlays without comments are closed, and the prompts
    /// of the others put away. Says whether there was anything to give up.
    pub fn dismiss_stack_review_comment_composers(&mut self, snapshot: &ReviewSnapshot) -> (changed:
        bool)
        requires
            old(self).wf(),
        ensures
            final(self).wf(),
            ({
                let overlays = old(self).diff_review_overlays@;
                let keep = in_use(old(self).hunks(), *snapshot, false);
                let kept = overlays_where(overlays, keep);
                let closed = ids_unless(overlays, keep);
                let now = with_composers_closed(kept);
                &&& changed == (closed.len() > 0 || any_composer(kept))
                &&& *final(self) == (Editor {
                    diff_review_overlays: final(self).diff_review_overlays,
                    effects: final(self).effects,
                    ..*old(self)
                })
                &&& final(self).diff_review_overlays@ == now
                &&& final(self).asked() == old(self).asked() + close_effects(closed)
                    + closed_composer_effects(*old(self), kept, now, *snapshot) + (if changed {
                    seq![EffectView::FocusEditor]
                } else {
                    Seq::empty()
                })
            }),
    {
        let count: usize = self.diff_review_overlays.len();
        self.drop_unused_overlays(false, snapshot);
        let ghost overlays = old(self).diff_review_overlays@;
        let ghost keep = in_use(old(self).hunks(), *snapshot, false);
        let ghost kept = self.diff_review_overlays@;
        let ghost now = with_composers_closed(kept);
        let ghost asked = self.asked();
        proof {
            lemma_where_counts(overlays, keep);
        }
        let mut changed = self.diff_review_overlays.len() < count;
        let ghost closed_any = changed;
        let mut keys: Vec<DiffHunkKey> = Vec::new();
        let mut k: usize = 0;
        while k < self.diff_review_overlays.len()
            invariant
                k <= self.diff_review_overlays@.len(),
                self.diff_review_overlays@.len() == kept.len(),
                *self == (Editor {
                    diff_review_overlays: self.diff_review_overlays,
                    effects: self.effects,
                    ..*old(self)
                }),
                self.asked() == asked,
                now == with_composers_closed(kept),
                forall|j: int| 0 <= j < k ==> #[trigger] self.diff_review_overlays@[j] == now[j],
                forall|j: int|
                    k <= j < kept.len() ==> #[trigger] self.diff_review_overlays@[j] == kept[j],
                changed == (closed_any || any_composer(kept.take(k as int))),
                keys@ == writing_keys(kept.take(k as int)),
            decreases kept.len() - k,
        {
            proof {
                assert(kept.take(k + 1).drop_last() =~= kept.take(k as int));
                assert(kept.take(k + 1).last() == kept[k as int]);
                lemma_any_composer(kept, k as int);
            }
            if self.diff_review_overlays[k].composer_visible {
                keys.push(self.diff_review_overlays[k].hunk_key.copied());
                self.diff_review_overlays[k].composer_visible = false;
                self.diff_review_overlays[k].pending_reply_to = None;
                self.diff_review_overlays[k].pending_reply_to_record_id = None;
                changed = true;
            }
            assert(self.diff_review_overlays@[k as int] == now[k as int]);
            k += 1;
        }
        proof {
            assert(kept.take(k as int) =~= kept);
            assert(self.diff_review_overlays@ =~= now);
            assert(overlays_ok(now, self.next_overlay)) by {
                assert forall|i: int| 0 <= i < now.len() implies (#[trigger] now[i]).id
                    < self.next_overlay by {
                    assert(now[i].id == kept[i].id);
                }
                assert forall|i: int, j: int|
                    #![trigger now[i], now[j]]
                    0 <= i < j < now.len() implies now[i].id != now[j].id by {
                    assert(now[i].id == kept[i].id);
                    assert(now[j].id == kept[j].id);
                }
            }
        }
        let mut r: usize = 0;
        proof {
            assert(key_resizes(*old(self), keys@.take(0), now, *snapshot) =~= Seq::empty());
            assert(self.asked() =~= asked + key_resizes(*old(self), keys@.take(0), now, *snapshot));
        }
        while r < keys.len()
            invariant
                r <= keys@.len(),
                *self == (Editor {
                    diff_review_overlays: self.diff_review_overlays,
                    effects: self.effects,
                    ..*old(self)
                }),
                self.diff_review_overlays@ == now,
                self.asked() == asked + key_resizes(
                    *old(self),
                    keys@.take(r as int),
                    now,
                    *snapshot,
                ),
            decreases keys.len() - r,
        {
            let ghost before = self.asked();
            self.refresh_diff_review_overlay_height(&keys[r], snapshot);
            proof {
                assert(keys@.take(r + 1).drop_last() =~= keys@.take(r as int));
                assert(keys@.take(r + 1).last() == keys@[r as int]);
                assert(self.asked() =~= asked + key_resizes(
                    *old(self),
                    keys@.take(r + 1),
                    now,
                    *snapshot,
                ));
            }
            r += 1;
        }
        proof {
            assert(keys@.take(r as int) =~= keys@);
            lemma_key_resizes(*old(self), kept, now, *snapshot);
        }
        if changed {
            self.ask(EditorEffect::FocusEditor);
        }
        proof {
            let last: Seq<EffectView> = if changed {
                seq![EffectView::FocusEditor]
            } else {
                Seq::empty()
            };
            assert(self.asked() =~= old(self).asked() + close_effects(ids_unless(overlays, keep))
                + closed_composer_effects(*old(self), kept, now, *snapshot) + last);
        }
        changed
    }

    fn toggle_overlay(&mut self, at: usize, snapshot: &ReviewSnapshot)
        requires
            old(self).wf(),
            at < old(self).diff_review_overlays@.len(),
        ensures
            final(self).wf(),
            toggles(*old(self), *final(self), at as int, *snapshot),
    {
        let ghost overlays = self.diff_review_overlays@;
        let expanded = self.diff_review_overlays[at].comments_expanded;
        self.diff_review_overlays[at].comments_expanded = !expanded;
        proof {
            lemma_updated_ok(
                overlays,
                at as int,
                with_toggled(overlays[at as int]),
                self.next_overlay,
            );
            assert(self.diff_review_overlays@ =~= overlays.update(
                at as int,
                with_toggled(overlays[at as int]),
            ));
        }
        let key = self.diff_review_overlays[at].hunk_key.copied();
        self.refresh_diff_review_overlay_height(&key, snapshot);
    }

    /// Toggles the comments of the overlay that has the focus or else of the first.
    pub fn toggle_review_comments_expanded(
        &mut self,
        focused: Option<u64>,
        snapshot: &ReviewSnapshot,
    )
        requires
            old(self).wf(),
        ensures
            final(self).wf(),
            ({
                let overlays = old(self).diff_review_overlays@;
                match focused_overlay(overlays, focused) {
                    Some(at) => toggles(*old(self), *final(self), at, *snapshot),
                    None => *final(self) == *old(self),
                }
            }),
    {
        let found: Option<usize> = match focused {
            Some(overlay) => self.find_numbered_overlay(overlay),
            None => None,
        };
        match found {
            Some(at) => {
                self.toggle_overlay(at, snapshot);
            },
            None => {
                if self.diff_review_overlays.len() > 0 {
                    self.toggle_overlay(0, snapshot);
                }
            },
        }
    }

    /// Toggles the comments of the overlay at a hunk.
    pub fn toggle_review_comments_for_hunk(
        &mut self,
        hunk_key: &DiffHunkKey,
        snapshot: &ReviewSnapshot,
    )
        requires
            old(self).wf(),
        ensures
            final(self).wf(),
            match overlay_at(old(self).diff_review_overlays@, *hunk_key, *snapshot) {
                Some(at) => toggles(*old(self), *final(self), at, *snapshot),
                None => *final(self) == *old(self),
            },
    {
        match self.find_overlay(hunk_key, snapshot) {
            Some(at) => {
                self.toggle_overlay(at, snapshot);
            },
            None => {},
        }
    }

    /// Shows the comments of all overlays, or folds them away.
    pub fn set_diff_review_comments_expanded(&mut self, expanded: bool)
        requires
            old(self).wf(),
        ensures
            final(self).wf(),
            *final(self) == (Editor {
                diff_review_overlays: final(self).diff_review_overlays,
                ..*old(self)
            }),
            final(self).diff_review_overlays@ == old(self).diff_review_overlays@.map_values(
                |overlay: DiffReviewOverlay| with_expanded(overlay, expanded),
            ),
    {
        let ghost overlays = self.diff_review_overlays@;
        let ghost now = overlays.map_values(
            |overlay: DiffReviewOverlay| with_expanded(overlay, expanded),
        );
        let mut k: usize = 0;
        while k < self.diff_review_overlays.len()
            invariant
                k <= self.diff_review_overlays@.len(),
                self.diff_review_overlays@.len() == overlays.len(),
                *self == (Editor {
                    diff_review_overlays: self.diff_review_overlays,
                    ..*old(self)
                }),
                now == overlays.map_values(
                    |overlay: DiffReviewOverlay| with_expanded(overlay, expanded),
                ),
                forall|j: int| 0 <= j < k ==> #[trigger] self.diff_review_overlays@[j] == now[j],
                forall|j: int|
                    k <= j < overlays.len() ==> #[trigger] self.diff_review_overlays@[j]
                        == overlays[j],
            decreases overlays.len() - k,
        {
            self.diff_review_overlays[k].comments_expanded = expanded;
            assert(self.diff_review_overlays@[k as int] == now[k as int]);
            k += 1;
        }
        proof {
            assert(self.diff_review_overlays@ =~= now);
            assert forall|i: int| 0 <= i < now.len() implies (#[trigger] now[i]).id
                < self.next_overlay by {
                assert(now[i].id == overlays[i].id);
            }
            assert forall|i: int, j: int|
                #![trigger now[i], now[j]]
                0 <= i < j < now.len() implies now[i].id != now[j].id by {
                assert(now[i].id == overlays[i].id);
                assert(now[j].id == overlays[j].id);
            }
        }
    }

    /// The overlay whose prompt was opened first.
    pub fn diff_review_prompt_editor(&self) -> (overlay: Option<u64>)
        ensures
            overlay == if self.diff_review_overlays@.len() > 0 {
                Some(self.diff_review_overlays@[0].id)
            } else {
                None
            },
    {
        if self.diff_review_overlays.len() > 0 {
            Some(self.diff_review_overlays[0].id)
        } else {
            None
        }
    }

    /// The first and the last of the lines that the first overlay is for, as they are numbered in
    /// their buffer.
    pub fn diff_review_line_range(&self, snapshot: &ReviewSnapshot) -> (lines: Option<(u32, u32)>)
        ensures
            lines == if self.diff_review_overlays@.len() > 0 {
                let range = self.diff_review_overlays@[0].anchor_range;
                Some((buffer_row(range.start, *snapshot), buffer_row(range.end, *snapshot)))
            } else {
                None
            },
            lines matches Some((first, last)) ==> ({
                let range = self.diff_review_overlays@[0].anchor_range;
                &&& snapshot.buffer_at(range.start) matches Some(place) ==> first
                    == place.point.row
                &&& snapshot.buffer_at(range.end) matches Some(place) ==> last == place.point.row
                &&& snapshot.buffer_at(range.start) is None ==> first == snapshot.point_at(
                    range.start,
                ).row
                &&& snapshot.buffer_at(range.end) is None ==> last == snapshot.point_at(
                    range.end,
                ).row
            }),
    {
        if self.diff_review_overlays.len() == 0 {
            return None;
        }
        let range = self.diff_review_overlays[0].anchor_range;
        Some((find_buffer_row(range.start, snapshot), find_buffer_row(range.end, snapshot)))
    }

    /// The first overlay in which the comment of a record is edited in place.
    pub fn stack_review_inline_edit_editor(&self, record_id: &str) -> (overlay: Option<u64>)
        ensures
            overlay == match editing_overlay(
                self.diff_review_overlays@,
                CommentKeyView::Stable(record_id@),
                0,
            ) {
                Some(at) => Some(self.diff_review_overlays@[at].id),
                None => None,
            },
    {
        let key = ReviewCommentKey::Stable(record_id.to_owned());
        let mut k: usize = 0;
        while k < self.diff_review_overlays.len()
            invariant
                k <= self.diff_review_overlays@.len(),
                key@ == CommentKeyView::Stable(record_id@),
                editing_overlay(self.diff_review_overlays@, key@, 0) == editing_overlay(
                    self.diff_review_overlays@,
                    key@,
                    k as int,
                ),
            decreases self.diff_review_overlays.len() - k,
        {
            if contains_key(&self.diff_review_overlays[k].inline_edits, &key) {
                return Some(self.diff_review_overlays[k].id);
            }
            k += 1;
        }
        None
    }

    /// How many comments the overlays show, taken together.
    pub fn visible_stack_review_comment_count(&self, snapshot: &ReviewSnapshot) -> (count: usize)
        requires
            visible_comments(self.diff_review_overlays@, self.hunks(), *snapshot) <= usize::MAX,
        ensures
            count == visible_comments(self.diff_review_overlays@, self.hunks(), *snapshot),
    {
        let ghost overlays = self.diff_review_overlays@;
        let mut count: usize = 0;
        let mut k: usize = 0;
        while k < self.diff_review_overlays.len()
            invariant
                k <= overlays.len(),
                overlays == self.diff_review_overlays@,
                visible_comments(overlays, self.hunks(), *snapshot) <= usize::MAX,
                count == visible_comments(overlays.take(k as int), self.hunks(), *snapshot),
            decreases overlays.len() - k,
        {
            proof {
                assert(overlays.take(k + 1).drop_last() =~= overlays.take(k as int));
                assert(overlays.take(k + 1).last() == overlays[k as int]);
                lemma_visible_grows(overlays, self.hunks(), *snapshot, k + 1);
            }
            count = count + self.hunk_comment_count(
                &self.diff_review_overlays[k].hunk_key,
                snapshot,
            );
            k += 1;
        }
        assert(overlays.take(k as int) =~= overlays);
        count
    }

    /// Shows the overlays of all hunks that have comments.
    pub fn reveal_restored_stack_review_comments(&mut self, snapshot: &ReviewSnapshot)
        requires
            old(self).wf(),
            old(self).next_overlay + old(self).hunks().len() <= u64::MAX,
        ensures
            final(self).wf(),
            final(self).stored_review_comments == old(self).stored_review_comments,
            reveals(*old(self), *final(self), old(self).hunks(), *snapshot),
    {
        let ghost hunks = self.hunks();
        let mut h: usize = 0;
        assert(hunks.take(0) =~= Seq::empty());
        while h < self.stored_review_comments.len()
            invariant
                h <= hunks.len(),
                self.wf(),
                hunks == old(self).hunks(),
                self.stored_review_comments == old(self).stored_review_comments,
                old(self).next_overlay + hunks.len() <= u64::MAX,
                self.next_overlay <= old(self).next_overlay + h,
                reveals(*old(self), *self, hunks.take(h as int), *snapshot),
            decreases hunks.len() - h,
        {
            let ghost shown = *self;
            proof {
                assert(hunks.take(h + 1).drop_last() =~= hunks.take(h as int));
                assert(hunks.take(h + 1).last() == hunks[h as int]);
                assert(hunks[h as int].comments
                    == self.stored_review_comments@[h as int].comments@);
            }
            if self.stored_review_comments[h].comments.len() > 0 {
                let key = self.stored_review_comments[h].key.copied();
                let range = self.stored_review_comments[h].comments[0].range;
                self.show_overlay_again(key, range, snapshot);
                assert(shows_again(
                    shown,
                    *self,
                    hunks[h as int].key,
                    hunks[h as int].comments[0].range,
                    *snapshot,
                ));
                assert(reveals(*old(self), shown, hunks.take(h + 1).drop_last(), *snapshot));
            }
            assert(reveals(*old(self), *self, hunks.take(h + 1), *snapshot));
            h += 1;
        }
        assert(hunks.take(h as int) =~= hunks);
    }
}

/// The row of an anchor in its buffer or, where it is in none, in the text of the editor.
pub open spec fn buffer_row(anchor: Anchor, snapshot: ReviewSnapshot) -> u32 {
    match snapshot.buffer_at(anchor) {
        Some(place) => place.point.row,
        None => snapshot.point_at(anchor).row,
    }
}

fn find_buffer_row(anchor: Anchor, snapshot: &ReviewSnapshot) -> (row: u32)
    ensures
        row == buffer_row(anchor, *snapshot),
{
    match snapshot.buffer_of(anchor) {
        Some(place) => place.point.row,
        None => snapshot.point_of(anchor).row,
    }
}

/// The first overlay at or after `from` in which the comment that `key` finds is edited in place.
pub open spec fn editing_overlay(
    overlays: Seq<DiffReviewOverlay>,
    key: CommentKeyView,
    from: int,
) -> Option<int>
    decreases overlays.len() - from,
{
    if from < 0 || from >= overlays.len() {
        None
    } else if edit_keys(overlays[from]).contains(key) {
        Some(from)
    } else {
        editing_overlay(overlays, key, from + 1)
    }
}

/// What showing an overlay for selected lines does.
pub open spec fn shows_selected(
    before: Editor,
    after: Editor,
    selected: AnchorRange,
    hunk_start: Anchor,
    snapshot: ReviewSnapshot,
) -> bool {
    match reviewed_path(before.is_stack_review, selected, snapshot) {
        Some(path) => exists|key: DiffHunkKey|
            is_key_for(key, before.is_stack_review, path, hunk_start, selected)
                && #[trigger] shows_overlay(before, after, key, selected, true, snapshot),
        None => after == before,
    }
}

/// The overlay that has the focus or else the first.
pub open spec fn focused_overlay(
    overlays: Seq<DiffReviewOverlay>,
    focused: Option<u64>,
) -> Option<int> {
    let found = match focused {
        Some(overlay) => overlay_numbered(overlays, overlay, 0),
        None => None,
    };
    if found is Some {
        found
    } else if overlays.len() > 0 {
        Some(0)
    } else {
        None
    }
}

/// The hunks of those overlays in which something is being written.
spec fn writing_keys(overlays: Seq<DiffReviewOverlay>) -> Seq<DiffHunkKey>
    decreases overlays.len(),
{
    if overlays.len() == 0 {
        Seq::empty()
    } else if overlays.last().composer_visible {
        writing_keys(overlays.drop_last()).push(overlays.last().hunk_key)
    } else {
        writing_keys(overlays.drop_last())
    }
}

/// What gives the overlays at some hunks their heights anew.
spec fn key_resizes(
    editor: Editor,
    keys: Seq<DiffHunkKey>,
    now: Seq<DiffReviewOverlay>,
    snapshot: ReviewSnapshot,
) -> Seq<EffectView>
    decreases keys.len(),
{
    if keys.len() == 0 {
        Seq::empty()
    } else {
        key_resizes(editor, keys.drop_last(), now, snapshot) + resize_effects(
            editor.is_stack_review,
            now,
            editor.hunks(),
            keys.last(),
            snapshot,
        )
    }
}

proof fn lemma_key_resizes(
    editor: Editor,
    writing: Seq<DiffReviewOverlay>,
    now: Seq<DiffReviewOverlay>,
    snapshot: ReviewSnapshot,
)
    ensures
        key_resizes(editor, writing_keys(writing), now, snapshot) == closed_composer_effects(
            editor,
            writing,
            now,
            snapshot,
        ),
    decreases writing.len(),
{
    if writing.len() > 0 {
        lemma_key_resizes(editor, writing.drop_last(), now, snapshot);
        if writing.last().composer_visible {
            let keys = writing_keys(writing);
            assert(keys.drop_last() =~= writing_keys(writing.drop_last()));
        }
    }
}

proof fn lemma_any_composer(overlays: Seq<DiffReviewOverlay>, k: int)
    requires
        0 <= k < overlays.len(),
    ensures
        any_composer(overlays.take(k + 1)) == (any_composer(overlays.take(k))
            || overlays[k].composer_visible),
{
    let before = overlays.take(k);
    let now = overlays.take(k + 1);
    if any_composer(before) {
        let i = choose|i: int| 0 <= i < before.len() && (#[trigger] before[i]).composer_visible;
        assert(now[i].composer_visible);
    }
    if overlays[k].composer_visible {
        assert(now[k].composer_visible);
    }
    if any_composer(now) {
        let i = choose|i: int| 0 <= i < now.len() && (#[trigger] now[i]).composer_visible;
        if i < k {
            assert(before[i].composer_visible);
        }
    }
}

proof fn lemma_where_counts(
    overlays: Seq<DiffReviewOverlay>,
    keep: spec_fn(DiffReviewOverlay) -> bool,
)
    ensures
        overlays_where(overlays, keep).len() + ids_unless(overlays, keep).len() == overlays.len(),
    decreases overlays.len(),
{
    if overlays.len() > 0 {
        lemma_where_counts(overlays.drop_last(), keep);
    }
}

} // verus!
