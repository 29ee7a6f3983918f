//! Opening and closing the overlays of an editor.

use crate::comment::StackReviewCommentAuthor;
use crate::editor::{overlays_ok, CurrentUser, DiffReviewOverlay, Editor};
use crate::editor_effect::{BlockStyle, EditorEffect, EffectView, Placeholder};
use crate::overlay_height::{overlay_height, resize_effects};
use crate::review_comment::{Anchor, AnchorRange, DiffHunkKey};
use crate::review_snapshot::ReviewSnapshot;
use crate::review_store::{hunk_comments, HunkView};
use crate::text::same_text;
use vstd::prelude::*;
use vstd::string::*;

verus! {

/// An overlay is shown on both sides of a split diff only once it shows comments on a stack.
pub fn stack_review_overlay_block_style(is_stack_review: bool, has_published_comments: bool) -> (style:
    BlockStyle)
    ensures
        style == block_style(is_stack_review, has_published_comments),
{
    if is_stack_review && has_published_comments {
        BlockStyle::StickyMirrored
    } else {
        BlockStyle::Sticky
    }
}

/// How the block of an overlay is laid out.
pub open spec fn block_style(is_stack_review: bool, has_published_comments: bool) -> BlockStyle {
    if is_stack_review && has_published_comments {
        BlockStyle::StickyMirrored
    } else {
        BlockStyle::Sticky
    }
}

/// Only the side that an overlay was opened on shows what is being written.
pub fn stack_review_overlay_shows_transient_state(is_mirrored_companion: bool) -> (shows: bool)
    ensures
        shows == !is_mirrored_companion,
{
    !is_mirrored_companion
}

/// A comment that is being edited does not react to being selected.
pub fn stack_review_comment_row_is_activatable(is_editing: bool) -> (is: bool)
    ensures
        is == !is_editing,
{
    !is_editing
}

/// The anchor by which an overlay is grouped with its comments: that of the lines, in the review
/// of a stack, and else that of the hunk.
pub fn review_overlay_group_anchor(
    is_stack_review: bool,
    diff_hunk_start: Anchor,
    selected_range_start: Anchor,
) -> (anchor: Anchor)
    ensures
        anchor == if is_stack_review {
            selected_range_start
        } else {
            diff_hunk_start
        },
{
    if is_stack_review {
        selected_range_start
    } else {
        diff_hunk_start
    }
}

/// The overlays that are kept.
pub open spec fn overlays_where(
    overlays: Seq<DiffReviewOverlay>,
    keep: spec_fn(DiffReviewOverlay) -> bool,
) -> Seq<DiffReviewOverlay>
    decreases overlays.len(),
{
    if overlays.len() == 0 {
        Seq::empty()
    } else {
        let before = overlays_where(overlays.drop_last(), keep);
        if keep(overlays.last()) {
            before.push(overlays.last())
        } else {
            before
        }
    }
}

/// The numbers of the overlays that are not kept.
pub open spec fn ids_unless(
    overlays: Seq<DiffReviewOverlay>,
    keep: spec_fn(DiffReviewOverlay) -> bool,
) -> Seq<u64>
    decreases overlays.len(),
{
    if overlays.len() == 0 {
        Seq::empty()
    } else {
        let before = ids_unless(overlays.drop_last(), keep);
        if keep(overlays.last()) {
            before
        } else {
            before.push(overlays.last().id)
        }
    }
}

/// What takes the blocks of some overlays away.
pub open spec fn close_effects(ids: Seq<u64>) -> Seq<EffectView> {
    if ids.len() == 0 {
        Seq::empty()
    } else {
        seq![EffectView::CloseOverlays { overlays: ids }]
    }
}

/// Whether an overlay has comments to show or, where that counts, something is being written in
/// it.
pub open spec fn in_use(
    hunks: Seq<HunkView>,
    snapshot: ReviewSnapshot,
    composers_count: bool,
) -> spec_fn(DiffReviewOverlay) -> bool {
    |overlay: DiffReviewOverlay|
        hunk_comments(hunks, overlay.hunk_key, snapshot).len() > 0 || (composers_count
            && overlay.composer_visible)
}

/// Keeping some of the overlays keeps them apart.
pub proof fn lemma_where_ok(
    overlays: Seq<DiffReviewOverlay>,
    keep: spec_fn(DiffReviewOverlay) -> bool,
    next_overlay: u64,
)
    requires
        overlays_ok(overlays, next_overlay),
    ensures
        overlays_ok(overlays_where(overlays, keep), next_overlay),
        forall|i: int|
            0 <= i < overlays_where(overlays, keep).len() ==> overlays.contains(
                #[trigger] overlays_where(overlays, keep)[i],
            ) && keep(overlays_where(overlays, keep)[i]),
        overlays_where(overlays, keep).len() <= overlays.len(),
    decreases overlays.len(),
{
    if overlays.len() > 0 {
        let rest = overlays.drop_last();
        assert(overlays_ok(rest, next_overlay)) by {
            assert forall|i: int| 0 <= i < rest.len() implies (#[trigger] rest[i]).id
                < next_overlay by {
                assert(rest[i] == overlays[i]);
            }
            assert forall|i: int, j: int|
                #![trigger rest[i], rest[j]]
                0 <= i < j < rest.len() implies rest[i].id != rest[j].id by {
                assert(rest[i] == overlays[i]);
                assert(rest[j] == overlays[j]);
            }
        }
        lemma_where_ok(rest, keep, next_overlay);
        let before = overlays_where(rest, keep);
        let now = overlays_where(overlays, keep);
        let last = overlays.last();
        assert(overlays[overlays.len() - 1] == last);
        assert forall|i: int| 0 <= i < before.len() implies overlays.contains(
            #[trigger] before[i],
        ) && before[i].id != last.id by {
            let j = choose|j: int| 0 <= j < rest.len() && rest[j] == before[i];
            assert(overlays[j] == before[i]);
        }
        if keep(last) {
            assert forall|i: int| 0 <= i < now.len() implies overlays.contains(#[trigger] now[i])
                && keep(now[i]) by {
                if i < before.len() {
                    assert(now[i] == before[i]);
                }
            }
            assert forall|i: int, j: int|
                #![trigger now[i], now[j]]
                0 <= i < j < now.len() implies now[i].id != now[j].id by {
                assert(now[i] == before[i]);
                if j < before.len() {
                    assert(now[j] == before[j]);
                }
            }
            assert forall|i: int| 0 <= i < now.len() implies (#[trigger] now[i]).id
                < next_overlay by {
                if i < before.len() {
                    assert(now[i] == before[i]);
                }
            }
        }
    }
}

/// Whether two overlays, or an overlay and a request for one, are at the same hunk and lines.
pub open spec fn same_overlay(
    overlay: DiffReviewOverlay,
    key: DiffHunkKey,
    range: AnchorRange,
    snapshot: ReviewSnapshot,
) -> bool {
    snapshot.same_hunk(overlay.hunk_key, key) && snapshot.same_range(overlay.anchor_range, range)
}

/// The first overlay at or after `from` that is at a hunk and some of its lines.
pub open spec fn open_overlay_from(
    overlays: Seq<DiffReviewOverlay>,
    key: DiffHunkKey,
    range: AnchorRange,
    snapshot: ReviewSnapshot,
    from: int,
) -> Option<int>
    decreases overlays.len() - from,
{
    if from < 0 || from >= overlays.len() {
        None
    } else if same_overlay(overlays[from], key, range, snapshot) {
        Some(from)
    } else {
        open_overlay_from(overlays, key, range, snapshot, from + 1)
    }
}

/// An overlay for a new comment, ready to be written in.
pub open spec fn with_composer(overlay: DiffReviewOverlay) -> DiffReviewOverlay {
    DiffReviewOverlay {
        composer_visible: true,
        pending_reply_to: None,
        pending_reply_to_record_id: None,
        ..overlay
    }
}

/// An overlay in which nothing is being written.
pub open spec fn without_composer(overlay: DiffReviewOverlay) -> DiffReviewOverlay {
    DiffReviewOverlay {
        composer_visible: false,
        pending_reply_to: None,
        pending_reply_to_record_id: None,
        ..overlay
    }
}

/// Whether `author` is what comments of `user` are signed with.
pub open spec fn signs_for(author: StackReviewCommentAuthor, user: Option<CurrentUser>) -> bool {
    match user {
        Some(user) => {
            &&& author.login == Some(user.username)
            &&& author.name == match user.name {
                Some(name) => name,
                None => user.username,
            }
        },
        None => author.name@ == "You"@ && author.login is None,
    }
}

/// Whether `overlay` is a new one for these lines of this hunk.
pub open spec fn is_new_overlay(
    overlay: DiffReviewOverlay,
    id: u64,
    key: DiffHunkKey,
    range: AnchorRange,
    composer_visible: bool,
    user: Option<CurrentUser>,
) -> bool {
    &&& overlay.id == id
    &&& overlay.anchor_range == range
    &&& overlay.hunk_key == key
    &&& overlay.comments_expanded
    &&& overlay.composer_visible == composer_visible
    &&& signs_for(overlay.comment_author, user)
    &&& overlay.pending_reply_to is None
    &&& overlay.pending_reply_to_record_id is None
    &&& overlay.inline_edits@.len() == 0
    &&& overlay.user_avatar_uri == match user {
        Some(user) => Some(user.avatar_uri),
        None => None,
    }
}

/// What opens a new overlay.
pub open spec fn open_effects(
    before: Editor,
    key: DiffHunkKey,
    range: AnchorRange,
    composer_visible: bool,
    snapshot: ReviewSnapshot,
) -> Seq<EffectView> {
    let comments = hunk_comments(before.hunks(), key, snapshot);
    let open = EffectView::OpenOverlay {
        overlay: before.next_overlay,
        style: block_style(before.is_stack_review, comments.len() > 0),
        row: snapshot.point_at(range.end).row,
        height: if before.is_stack_review {
            1
        } else {
            overlay_height(comments, true, composer_visible)
        },
    };
    if composer_visible {
        seq![open, EffectView::FocusPrompt { overlay: before.next_overlay }]
    } else {
        seq![open]
    }
}

/// What showing an overlay does: the one that is open is used again; else those without comments
/// are closed and a new one is opened.
pub open spec fn shows_overlay(
    before: Editor,
    after: Editor,
    key: DiffHunkKey,
    range: AnchorRange,
    composer_visible: bool,
    snapshot: ReviewSnapshot,
) -> bool {
    let overlays = before.diff_review_overlays@;
    match open_overlay_from(overlays, key, range, snapshot, 0) {
        Some(at) => {
            let overlay = overlays[at];
            let now = overlays.update(at, with_composer(overlay));
            if composer_visible {
                &&& after == (Editor {
                    diff_review_overlays: after.diff_review_overlays,
                    effects: after.effects,
                    ..before
                })
                &&& after.diff_review_overlays@ == now
                &&& after.asked() == before.asked() + seq![
                    EffectView::SetPlaceholder {
                        overlay: overlay.id,
                        placeholder: Placeholder::Comment,
                    },
                ] + (if overlay.composer_visible {
                    Seq::empty()
                } else {
                    resize_effects(
                        before.is_stack_review,
                        now,
                        before.hunks(),
                        overlay.hunk_key,
                        snapshot,
                    )
                }) + seq![EffectView::FocusPrompt { overlay: overlay.id }]
            } else {
                after == before
            }
        },
        None => {
            let keep = in_use(before.hunks(), snapshot, false);
            &&& after == (Editor {
                diff_review_overlays: after.diff_review_overlays,
                next_overlay: after.next_overlay,
                effects: after.effects,
                ..before
            })
            &&& after.next_overlay == before.next_overlay + 1
            &&& after.diff_review_overlays@.len() > 0
            &&& after.diff_review_overlays@.drop_last() == overlays_where(overlays, keep)
            &&& is_new_overlay(
                after.diff_review_overlays@.last(),
                before.next_overlay,
                key,
                range,
                composer_visible,
                before.current_user,
            )
            &&& after.asked() == before.asked() + close_effects(ids_unless(overlays, keep))
                + open_effects(before, key, range, composer_visible, snapshot)
        },
    }
}

/// The file that the lines of an overlay are in. Where there is none, an overlay is still shown,
/// but not in the review of a stack.
pub open spec fn reviewed_path(
    is_stack_review: bool,
    range: AnchorRange,
    snapshot: ReviewSnapshot,
) -> Option<Seq<char>> {
    match snapshot.path_at(range.start) {
        Some(path) => if is_stack_review && snapshot.path_at(range.end) != Some(path) {
            None
        } else {
            Some(path)
        },
        None => if is_stack_review {
            None
        } else {
            Some(""@)
        },
    }
}

/// Whether `key` is that of an overlay for new lines.
pub open spec fn is_key_for(
    key: DiffHunkKey,
    is_stack_review: bool,
    path: Seq<char>,
    hunk_start: Anchor,
    range: AnchorRange,
) -> bool {
    &&& key.file_path@ == path
    &&& key.hunk_start_anchor == if is_stack_review {
        range.start
    } else {
        hunk_start
    }
    &&& key.review_range_end_anchor == if is_stack_review {
        Some(range.end)
    } else {
        None
    }
}

/// Whether an overlay that is shown again is shown at all: its lines have to be where they were.
pub open spec fn can_show_again(
    is_stack_review: bool,
    key: DiffHunkKey,
    range: AnchorRange,
    snapshot: ReviewSnapshot,
) -> bool {
    reviewed_path(is_stack_review, range, snapshot) == Some(key.file_path@)
}

impl Editor {
    /// Closes the overlays that are not in use.
    pub(crate) fn drop_unused_overlays(&mut self, composers_count: bool, snapshot: &ReviewSnapshot)
        requires
            old(self).wf(),
        ensures
            final(self).wf(),
            *final(self) == (Editor {
                diff_review_overlays: final(self).diff_review_overlays,
                effects: final(self).effects,
                ..*old(self)
            }),
            final(self).diff_review_overlays@ == overlays_where(
                old(self).diff_review_overlays@,
                in_use(old(self).hunks(), *snapshot, composers_count),
            ),
            final(self).asked() == old(self).asked() + close_effects(
                ids_unless(
                    old(self).diff_review_overlays@,
                    in_use(old(self).hunks(), *snapshot, composers_count),
                ),
            ),
    {
        let ghost all = self.diff_review_overlays@;
        let ghost keep = in_use(self.hunks(), *snapshot, composers_count);
        let mut dropped: Vec<u64> = Vec::new();
        let mut at: usize = 0;
        let ghost mut seen: int = 0;
        assert(all.skip(0) =~= all);
        assert(overlays_where(all.take(0), keep) + all.skip(0) =~= all);
        while at < self.diff_review_overlays.len()
            invariant
                *self == (Editor {
                    diff_review_overlays: self.diff_review_overlays,
                    ..*old(self)
                }),
                all == old(self).diff_review_overlays@,
                keep == in_use(self.hunks(), *snapshot, composers_count),
                0 <= seen <= all.len(),
                at == overlays_where(all.take(seen), keep).len(),
                self.diff_review_overlays@ == overlays_where(all.take(seen), keep) + all.skip(seen),
                dropped@ == ids_unless(all.take(seen), keep),
            decreases all.len() - seen,
        {
            let ghost overlay = all[seen];
            proof {
                assert(self.diff_review_overlays@[at as int] == overlay);
                assert(all.take(seen + 1).drop_last() =~= all.take(seen));
                assert(all.take(seen + 1).last() == overlay);
                assert(all.skip(seen) =~= seq![overlay] + all.skip(seen + 1));
            }
            let used = self.hunk_comment_count(&self.diff_review_overlays[at].hunk_key, snapshot) > 0
                || (composers_count && self.diff_review_overlays[at].composer_visible);
            assert(used == keep(overlay));
            let ghost kept = overlays_where(all.take(seen), keep);
            if used {
                assert(kept + all.skip(seen) =~= kept.push(overlay) + all.skip(seen + 1));
                at += 1;
            } else {
                let overlay = self.diff_review_overlays.remove(at);
                dropped.push(overlay.id);
                assert(self.diff_review_overlays@ =~= kept + all.skip(seen + 1));
            }
            proof {
                seen = seen + 1;
            }
        }
        proof {
            assert(seen == all.len());
            assert(all.take(seen) =~= all);
            assert(self.diff_review_overlays@ =~= overlays_where(all, keep));
            lemma_where_ok(all, keep, self.next_overlay);
        }
        if dropped.len() > 0 {
            self.ask(EditorEffect::CloseOverlays { overlays: dropped });
        }
        assert(self.asked() =~= old(self).asked() + close_effects(ids_unless(all, keep)));
    }

    fn find_open_overlay(
        &self,
        key: &DiffHunkKey,
        range: &AnchorRange,
        snapshot: &ReviewSnapshot,
    ) -> (at: Option<usize>)
        ensures
            match at {
                Some(at) => at < self.diff_review_overlays@.len() && open_overlay_from(
                    self.diff_review_overlays@,
                    *key,
                    *range,
                    *snapshot,
                    0,
                ) == Some(at as int),
                None => open_overlay_from(
                    self.diff_review_overlays@,
                    *key,
                    *range,
                    *snapshot,
                    0,
                ) is None,
            },
    {
        let mut k: usize = 0;
        while k < self.diff_review_overlays.len()
            invariant
                k <= self.diff_review_overlays@.len(),
                open_overlay_from(self.diff_review_overlays@, *key, *range, *snapshot, 0)
                    == open_overlay_from(
                    self.diff_review_overlays@,
                    *key,
                    *range,
                    *snapshot,
                    k as int,
                ),
            decreases self.diff_review_overlays.len() - k,
        {
            if snapshot.hunk_keys_match(&self.diff_review_overlays[k].hunk_key, key)
                && snapshot.review_ranges_match(
                &self.diff_review_overlays[k].anchor_range,
                range,
            ) {
                return Some(k);
            }
            k += 1;
        }
        None
    }

    fn comment_author(&self) -> (author: StackReviewCommentAuthor)
        ensures
            signs_for(author, self.current_user),
    {
        match &self.current_user {
            Some(user) => StackReviewCommentAuthor {
                name: match &user.name {
                    Some(name) => name.clone(),
                    None => user.username.clone(),
                },
                login: Some(user.username.clone()),
            },
            None => StackReviewCommentAuthor::default(),
        }
    }

    fn show_overlay_for(
        &mut self,
        hunk_key: DiffHunkKey,
        anchor_range: AnchorRange,
        composer_visible: bool,
        snapshot: &ReviewSnapshot,
    )
        requires
            old(self).wf(),
            old(self).next_overlay < u64::MAX,
        ensures
            final(self).wf(),
            shows_overlay(
                *old(self),
                *final(self),
                hunk_key,
                anchor_range,
                composer_visible,
                *snapshot,
            ),
    {
        match self.find_open_overlay(&hunk_key, &anchor_range, snapshot) {
            Some(at) => {
                if composer_visible {
                    let ghost overlays = self.diff_review_overlays@;
                    let overlay: u64 = self.diff_review_overlays[at].id;
                    let was_hidden = !self.diff_review_overlays[at].composer_visible;
                    let key = self.diff_review_overlays[at].hunk_key.copied();
                    self.diff_review_overlays[at].composer_visible = true;
                    self.diff_review_overlays[at].pending_reply_to = None;
                    self.diff_review_overlays[at].pending_reply_to_record_id = None;
                    assert(self.diff_review_overlays@ =~= overlays.update(
                        at as int,
                        with_composer(overlays[at as int]),
                    ));
                    self.ask(
                        EditorEffect::SetPlaceholder {
                            overlay,
                            placeholder: Placeholder::Comment,
                        },
                    );
                    if was_hidden {
                        self.refresh_diff_review_overlay_height(&key, snapshot);
                    }
                    self.ask(EditorEffect::FocusPrompt { overlay });
                    proof {
                        let resized = if was_hidden {
                            resize_effects(
                                old(self).is_stack_review,
                                self.diff_review_overlays@,
                                old(self).hunks(),
                                key,
                                *snapshot,
                            )
                        } else {
                            Seq::empty()
                        };
                        assert(self.asked() =~= old(self).asked() + seq![
                            EffectView::SetPlaceholder {
                                overlay,
                                placeholder: Placeholder::Comment,
                            },
                        ] + resized + seq![EffectView::FocusPrompt { overlay }]);
                    }
                }
            },
            None => {
                self.drop_unused_overlays(false, snapshot);
                let comment_author = self.comment_author();
                let user_avatar_uri = match &self.current_user {
                    Some(user) => Some(user.avatar_uri.clone()),
                    None => None,
                };
                let height: u32 = if self.is_stack_review {
                    1
                } else {
                    self.calculate_overlay_height(&hunk_key, true, composer_visible, snapshot)
                };
                let has_published_comments = self.hunk_comment_count(&hunk_key, snapshot) > 0;
                let style = stack_review_overlay_block_style(
                    self.is_stack_review,
                    has_published_comments,
                );
                let overlay: u64 = self.next_overlay;
                let row: u32 = snapshot.point_of(anchor_range.end).row;
                let ghost kept = self.diff_review_overlays@;
                let ghost closed = self.asked();
                self.ask(EditorEffect::OpenOverlay { overlay, style, row, height });
                self.diff_review_overlays.push(
                    DiffReviewOverlay {
                        id: overlay,
                        anchor_range,
                        hunk_key,
                        comments_expanded: true,
                        composer_visible,
                        comment_author,
                        pending_reply_to: None,
                        pending_reply_to_record_id: None,
                        inline_edits: Vec::new(),
                        user_avatar_uri,
                    },
                );
                self.next_overlay = overlay + 1;
                if composer_visible {
                    self.ask(EditorEffect::FocusPrompt { overlay });
                }
                proof {
                    assert(self.asked() =~= closed + open_effects(
                        *old(self),
                        hunk_key,
                        anchor_range,
                        composer_visible,
                        *snapshot,
                    ));
                    assert(self.diff_review_overlays@.drop_last() =~= kept);
                    let now = self.diff_review_overlays@;
                    assert(forall|i: int| 0 <= i < kept.len() ==> now[i] == kept[i]);
                    assert(overlays_ok(now, self.next_overlay));
                }
            },
        }
    }

    /// Shows an overlay for new lines, with a prompt to write in. `hunk_start` stands at the
    /// beginning of the lines.
    pub fn show_diff_review_overlay(
        &mut self,
        selected: AnchorRange,
        hunk_start: Anchor,
        snapshot: &ReviewSnapshot,
    )
        requires
            old(self).wf(),
            old(self).next_overlay < u64::MAX,
        ensures
            final(self).wf(),
            match reviewed_path(old(self).is_stack_review, selected, *snapshot) {
                Some(path) => exists|key: DiffHunkKey|
                    is_key_for(key, old(self).is_stack_review, path, hunk_start, selected)
                        && #[trigger] shows_overlay(
                        *old(self),
                        *final(self),
                        key,
                        selected,
                        true,
                        *snapshot,
                    ),
                None => *final(self) == *old(self),
            },
    {
        let file_path = match snapshot.file_path_at(selected.start) {
            Some(file_path) => {
                if self.is_stack_review {
                    let stays = match snapshot.file_path_at(selected.end) {
                        Some(end_path) => same_text(end_path.as_str(), file_path.as_str()),
                        None => false,
                    };
                    if !stays {
                        return ;
                    }
                }
                file_path
            },
            None => {
                if self.is_stack_review {
                    return ;
                }
                "".to_owned()
            },
        };
        let hunk_start_anchor = review_overlay_group_anchor(
            self.is_stack_review,
            hunk_start,
            selected.start,
        );
        let review_range_end_anchor = if self.is_stack_review {
            Some(selected.end)
        } else {
            None
        };
        let hunk_key = DiffHunkKey { file_path, hunk_start_anchor, review_range_end_anchor };
        self.show_overlay_for(hunk_key, selected, true, snapshot);
    }

    /// Shows the overlay of comments that are there, with nothing being written in it.
    pub(crate) fn show_overlay_again(
        &mut self,
        hunk_key: DiffHunkKey,
        anchor_range: AnchorRange,
        snapshot: &ReviewSnapshot,
    )
        requires
            old(self).wf(),
            old(self).next_overlay < u64::MAX,
        ensures
            final(self).wf(),
            if can_show_again(old(self).is_stack_review, hunk_key, anchor_range, *snapshot) {
                shows_overlay(
                    *old(self),
                    *final(self),
                    hunk_key,
                    anchor_range,
                    false,
                    *snapshot,
                )
            } else {
                *final(self) == *old(self)
            },
    {
        match snapshot.file_path_at(anchor_range.start) {
            Some(file_path) => {
                if self.is_stack_review {
                    let stays = match snapshot.file_path_at(anchor_range.end) {
                        Some(end_path) => same_text(end_path.as_str(), file_path.as_str()),
                        None => false,
                    };
                    if !stays {
                        return ;
                    }
                }
                if !same_text(hunk_key.file_path.as_str(), file_path.as_str()) {
                    return ;
                }
            },
            None => {
                if self.is_stack_review || !same_text(hunk_key.file_path.as_str(), "") {
                    return ;
                }
            },
        }
        self.show_overlay_for(hunk_key, anchor_range, false, snapshot);
    }

    /// Forgets an overlay whose block could not be put in.
    pub fn forget_overlay(&mut self, overlay: u64)
        requires
            old(self).wf(),
        ensures
            final(self).wf(),
            *final(self) == (Editor {
                diff_review_overlays: final(self).diff_review_overlays,
                ..*old(self)
            }),
            final(self).diff_review_overlays@ == match overlay_numbered(
                old(self).diff_review_overlays@,
                overlay,
                0,
            ) {
                Some(at) => old(self).diff_review_overlays@.remove(at),
                None => old(self).diff_review_overlays@,
            },
    {
        match self.find_numbered_overlay(overlay) {
            Some(at) => {
                proof {
                    lemma_removed_ok(self.diff_review_overlays@, at as int, self.next_overlay);
                }
                let _ = self.diff_review_overlays.remove(at);
            },
            None => {},
        }
    }

    pub(crate) fn find_numbered_overlay(&self, overlay: u64) -> (at: Option<usize>)
        ensures
            match at {
                Some(at) => at < self.diff_review_overlays@.len() && overlay_numbered(
                    self.diff_review_overlays@,
                    overlay,
                    0,
                ) == Some(at as int),
                None => overlay_numbered(self.diff_review_overlays@, overlay, 0) is None,
            },
    {
        let mut k: usize = 0;
        while k < self.diff_review_overlays.len()
            invariant
                k <= self.diff_review_overlays@.len(),
                overlay_numbered(self.diff_review_overlays@, overlay, 0) == overlay_numbered(
                    self.diff_review_overlays@,
                    overlay,
                    k as int,
                ),
            decreases self.diff_review_overlays.len() - k,
        {
            if self.diff_review_overlays[k].id == overlay {
                return Some(k);
            }
            k += 1;
        }
        None
    }
}

/// The first overlay at or after `from` that has this number.
pub open spec fn overlay_numbered(
    overlays: Seq<DiffReviewOverlay>,
    overlay: u64,
    from: int,
) -> Option<int>
    decreases overlays.len() - from,
{
    if from < 0 || from >= overlays.len() {
        None
    } else if overlays[from].id == overlay {
        Some(from)
    } else {
        overlay_numbered(overlays, overlay, from + 1)
    }
}

/// Taking an overlay away keeps the others apart.
pub proof fn lemma_removed_ok(overlays: Seq<DiffReviewOverlay>, at: int, next_overlay: u64)
    requires
        overlays_ok(overlays, next_overlay),
        0 <= at < overlays.len(),
    ensures
        overlays_ok(overlays.remove(at), next_overlay),
{
    let now = overlays.remove(at);
    assert forall|i: int| 0 <= i < now.len() implies (#[trigger] now[i]).id < next_overlay by {
        let p = if i < at {
            i
        } else {
            i + 1
        };
        assert(now[i] == overlays[p]);
    }
    assert forall|i: int, j: int|
        #![trigger now[i], now[j]]
        0 <= i < j < now.len() implies now[i].id != now[j].id by {
        let p = if i < at {
            i
        } else {
            i + 1
        };
        let q = if j < at {
            j
        } else {
            j + 1
        };
        assert(now[i] == overlays[p]);
        assert(now[j] == overlays[q]);
    }
}

} // verus!
