//! How many lines an overlay takes up.

use crate::editor::{DiffReviewOverlay, Editor};
use crate::editor_effect::{EditorEffect, EffectView};
use crate::review_comment::{opt_place, DiffHunkKey, StoredReviewComment};
use crate::review_snapshot::ReviewSnapshot;
use crate::review_store::{find_hunk, hunk_comments, HunkView};
use crate::text::chars_of;
use vstd::prelude::*;
use vstd::string::*;

verus! {

/// How many characters a line of a comment holds.
pub const COMMENT_WRAP_COLUMNS: usize = 24;

/// How many lines are shown for one line of `len` characters. An empty one takes a line too.
pub open spec fn visual_lines(len: nat) -> nat {
    if len == 0 {
        1
    } else {
        (len + COMMENT_WRAP_COLUMNS - 1) as nat / COMMENT_WRAP_COLUMNS as nat
    }
}

/// Where the next line begins at or after `from`: behind the next line feed, if there is one.
pub open spec fn line_feed_at(text: Seq<char>, from: int) -> int
    decreases text.len() - from,
{
    if from < 0 || from >= text.len() || text[from] == '\n' {
        from
    } else {
        line_feed_at(text, from + 1)
    }
}

/// How many lines are shown for a text from a place at which a line begins.
pub open spec fn body_lines_from(text: Seq<char>, from: int) -> nat
    decreases text.len() - from,
    via body_lines_decreases
{
    let end = line_feed_at(text, from);
    if from < 0 || end >= text.len() {
        visual_lines((end - from) as nat)
    } else {
        visual_lines((end - from) as nat) + body_lines_from(text, end + 1)
    }
}

#[via_fn]
proof fn body_lines_decreases(text: Seq<char>, from: int) {
    lemma_line_feed(text, from);
}

proof fn lemma_line_feed(text: Seq<char>, from: int)
    ensures
        line_feed_at(text, from) >= from,
        0 <= from <= text.len() ==> line_feed_at(text, from) <= text.len(),
    decreases text.len() - from,
{
    if !(from < 0 || from >= text.len() || text[from] == '\n') {
        lemma_line_feed(text, from + 1);
    }
}

/// How many lines are shown for a text.
pub open spec fn body_lines(text: Seq<char>) -> nat {
    body_lines_from(text, 0)
}

/// How many lines comments take up: their own and one more for each.
pub open spec fn comments_height(comments: Seq<StoredReviewComment>) -> nat
    decreases comments.len(),
{
    if comments.len() == 0 {
        0
    } else {
        comments_height(comments.drop_last()) + body_lines(comments.last().comment@) + 1
    }
}

/// The largest height stands for any that is larger still.
pub open spec fn at_most_u32(height: nat) -> u32 {
    if height <= u32::MAX {
        height as u32
    } else {
        u32::MAX
    }
}

/// How many lines an overlay takes up: two for the prompt, one for the heading above comments
/// and, where they are shown, those of the comments.
pub open spec fn overlay_height(
    comments: Seq<StoredReviewComment>,
    comments_expanded: bool,
    composer_visible: bool,
) -> u32 {
    let prompt: nat = if composer_visible {
        2
    } else {
        0
    };
    if comments.len() == 0 {
        at_most_u32(prompt)
    } else if comments_expanded {
        at_most_u32(prompt + 1 + comments_height(comments))
    } else {
        at_most_u32(prompt + 1)
    }
}

fn saturating_sum(a: u32, b: u32) -> (sum: u32)
    ensures
        sum == at_most_u32((a + b) as nat),
{
    if a <= u32::MAX - b {
        a + b
    } else {
        u32::MAX
    }
}

fn count_visual_lines(len: usize) -> (lines: u32)
    ensures
        lines == at_most_u32(visual_lines(len as nat)),
{
    if len == 0 {
        1
    } else {
        let lines: usize = (len - 1) / COMMENT_WRAP_COLUMNS + 1;
        assert(lines == (len + 23) as nat / 24) by (nonlinear_arith)
            requires
                len > 0,
                lines == (len - 1) / 24 + 1,
        ;
        if lines <= u32::MAX as usize {
            lines as u32
        } else {
            u32::MAX
        }
    }
}

fn count_body_lines(text: &str) -> (lines: u32)
    ensures
        lines == at_most_u32(body_lines(text@)),
{
    let chars = chars_of(text);
    let ghost all = body_lines(text@);
    let ghost mut counted: nat = 0;
    let mut lines: u32 = 0;
    let mut start: usize = 0;
    let mut i: usize = 0;
    while i < chars.len()
        invariant
            chars@ == text@,
            start <= i <= chars@.len(),
            line_feed_at(chars@, start as int) == line_feed_at(chars@, i as int),
            lines == at_most_u32(counted),
            all == counted + body_lines_from(chars@, start as int),
        decreases chars.len() - i,
    {
        if chars[i] == '\n' {
            let more: u32 = count_visual_lines(i - start);
            proof {
                counted = counted + visual_lines((i - start) as nat);
            }
            lines = saturating_sum(lines, more);
            start = i + 1;
        }
        i += 1;
    }
    let more: u32 = count_visual_lines(chars.len() - start);
    saturating_sum(lines, more)
}

fn count_comments_height(comments: &Vec<StoredReviewComment>) -> (height: u32)
    ensures
        height == at_most_u32(comments_height(comments@)),
{
    let mut height: u32 = 0;
    let mut i: usize = 0;
    while i < comments.len()
        invariant
            i <= comments@.len(),
            height == at_most_u32(comments_height(comments@.take(i as int))),
        decreases comments.len() - i,
    {
        let lines: u32 = count_body_lines(comments[i].comment.as_str());
        proof {
            assert(comments@.take(i + 1).drop_last() =~= comments@.take(i as int));
        }
        height = saturating_sum(height, saturating_sum(lines, 1));
        i += 1;
    }
    assert(comments@.take(i as int) =~= comments@);
    height
}

/// The first overlay at or after `from` that is at the hunk that `key` stands for.
pub open spec fn overlay_from(
    overlays: Seq<DiffReviewOverlay>,
    key: DiffHunkKey,
    snapshot: ReviewSnapshot,
    from: int,
) -> Option<int>
    decreases overlays.len() - from,
{
    if from < 0 || from >= overlays.len() {
        None
    } else if snapshot.same_hunk(overlays[from].hunk_key, key) {
        Some(from)
    } else {
        overlay_from(overlays, key, snapshot, from + 1)
    }
}

/// The first overlay at the hunk that `key` stands for.
pub open spec fn overlay_at(
    overlays: Seq<DiffReviewOverlay>,
    key: DiffHunkKey,
    snapshot: ReviewSnapshot,
) -> Option<int> {
    overlay_from(overlays, key, snapshot, 0)
}

/// What gives the overlay at a hunk its height anew. In the review of a stack it is laid out by
/// what it shows.
pub open spec fn resize_effects(
    is_stack_review: bool,
    overlays: Seq<DiffReviewOverlay>,
    hunks: Seq<HunkView>,
    key: DiffHunkKey,
    snapshot: ReviewSnapshot,
) -> Seq<EffectView> {
    if is_stack_review {
        Seq::empty()
    } else {
        match overlay_at(overlays, key, snapshot) {
            Some(at) => seq![
                EffectView::ResizeOverlay {
                    overlay: overlays[at].id,
                    height: overlay_height(
                        hunk_comments(hunks, key, snapshot),
                        overlays[at].comments_expanded,
                        overlays[at].composer_visible,
                    ),
                },
            ],
            None => Seq::empty(),
        }
    }
}

impl Editor {
    /// How many lines an overlay at a hunk takes up.
    pub fn calculate_overlay_height(
        &self,
        hunk_key: &DiffHunkKey,
        comments_expanded: bool,
        composer_visible: bool,
        snapshot: &ReviewSnapshot,
    ) -> (height: u32)
        ensures
            height == overlay_height(
                hunk_comments(self.hunks(), *hunk_key, *snapshot),
                comments_expanded,
                composer_visible,
            ),
    {
        let prompt: u32 = if composer_visible {
            2
        } else {
            0
        };
        match find_hunk(&self.stored_review_comments, hunk_key, snapshot) {
            Some(h) => {
                let comments = &self.stored_review_comments[h].comments;
                assert(self.hunks()[h as int].comments == comments@);
                if comments.len() == 0 {
                    prompt
                } else if comments_expanded {
                    saturating_sum(saturating_sum(prompt, 1), count_comments_height(comments))
                } else {
                    prompt + 1
                }
            },
            None => prompt,
        }
    }

    /// The first overlay at the hunk that `key` stands for.
    pub(crate) fn find_overlay(&self, key: &DiffHunkKey, snapshot: &ReviewSnapshot) -> (at: Option<
        usize,
    >)
        ensures
            opt_place(at) == overlay_at(self.diff_review_overlays@, *key, *snapshot),
            at matches Some(k) ==> k < self.diff_review_overlays@.len(),
    {
        let mut k: usize = 0;
        while k < self.diff_review_overlays.len()
            invariant
                k <= self.diff_review_overlays@.len(),
                overlay_at(self.diff_review_overlays@, *key, *snapshot) == overlay_from(
                    self.diff_review_overlays@,
                    *key,
                    *snapshot,
                    k as int,
                ),
            decreases self.diff_review_overlays.len() - k,
        {
            if snapshot.hunk_keys_match(&self.diff_review_overlays[k].hunk_key, key) {
                return Some(k);
            }
            k += 1;
        }
        None
    }

    /// Gives the overlay at a hunk its height anew.
    pub(crate) fn refresh_diff_review_overlay_height(
        &mut self,
        hunk_key: &DiffHunkKey,
        snapshot: &ReviewSnapshot,
    )
        ensures
            *final(self) == (Editor { effects: final(self).effects, ..*old(self) }),
            final(self).asked() == old(self).asked() + resize_effects(
                old(self).is_stack_review,
                old(self).diff_review_overlays@,
                old(self).hunks(),
                *hunk_key,
                *snapshot,
            ),
    {
        if !self.is_stack_review {
            match self.find_overlay(hunk_key, snapshot) {
                Some(at) => {
                    let height: u32 = self.calculate_overlay_height(
                        hunk_key,
                        self.diff_review_overlays[at].comments_expanded,
                        self.diff_review_overlays[at].composer_visible,
                        snapshot,
                    );
                    let overlay: u64 = self.diff_review_overlays[at].id;
                    self.ask(EditorEffect::ResizeOverlay { overlay, height });
                },
                None => {},
            }
        }
        assert(self.asked() =~= old(self).asked() + resize_effects(
            old(self).is_stack_review,
            old(self).diff_review_overlays@,
            old(self).hunks(),
            *hunk_key,
            *snapshot,
        ));
    }
}

} // verus!
