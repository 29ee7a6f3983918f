//! What an editor tells and asks of those around it.

use crate::review_comment::{CommentKeyView, ReviewCommentKey, StoredReviewComment};
use crate::review_snapshot::Point;
use vstd::prelude::*;
use vstd::string::*;

verus! {

/// What an editor tells.
#[derive(Clone, Debug)]
pub enum EditorEvent {
    ReviewCommentsChanged { total_count: usize },
    ReviewCommentSelected { record_id: String },
    ReviewCommentRestoreRequested { record_id: String },
    ReviewCommentStashRequested { record_id: String },
    StackReviewCommentDeleted { record_id: String },
    StackReviewCommentResolutionChanged { record_ids: Vec<String>, resolved: bool },
    ReviewCommentResolutionChanged { ids: Vec<usize>, resolved: bool },
    StackReviewCommentCheckpointRequested { record_id: String },
    ReviewCommentCheckpointRequested { id: usize },
}

/// What an editor tells, as a value.
pub enum EventView {
    ReviewCommentsChanged { total_count: nat },
    ReviewCommentSelected { record_id: Seq<char> },
    ReviewCommentRestoreRequested { record_id: Seq<char> },
    ReviewCommentStashRequested { record_id: Seq<char> },
    StackReviewCommentDeleted { record_id: Seq<char> },
    StackReviewCommentResolutionChanged { record_ids: Seq<Seq<char>>, resolved: bool },
    ReviewCommentResolutionChanged { ids: Seq<usize>, resolved: bool },
    StackReviewCommentCheckpointRequested { record_id: Seq<char> },
    ReviewCommentCheckpointRequested { id: usize },
}

/// The texts in a vector.
pub open spec fn text_views(texts: Seq<String>) -> Seq<Seq<char>> {
    texts.map_values(|text: String| text@)
}

impl View for EditorEvent {
    type V = EventView;

    open spec fn view(&self) -> EventView {
        match self {
            EditorEvent::ReviewCommentsChanged { total_count } => EventView::ReviewCommentsChanged {
                total_count: *total_count as nat,
            },
            EditorEvent::ReviewCommentSelected { record_id } => EventView::ReviewCommentSelected {
                record_id: record_id@,
            },
            EditorEvent::ReviewCommentRestoreRequested {
                record_id,
            } => EventView::ReviewCommentRestoreRequested { record_id: record_id@ },
            EditorEvent::ReviewCommentStashRequested {
                record_id,
            } => EventView::ReviewCommentStashRequested { record_id: record_id@ },
            EditorEvent::StackReviewCommentDeleted {
                record_id,
            } => EventView::StackReviewCommentDeleted { record_id: record_id@ },
            EditorEvent::StackReviewCommentResolutionChanged {
                record_ids,
                resolved,
            } => EventView::StackReviewCommentResolutionChanged {
                record_ids: text_views(record_ids@),
                resolved: *resolved,
            },
            EditorEvent::ReviewCommentResolutionChanged {
                ids,
                resolved,
            } => EventView::ReviewCommentResolutionChanged { ids: ids@, resolved: *resolved },
            EditorEvent::StackReviewCommentCheckpointRequested {
                record_id,
            } => EventView::StackReviewCommentCheckpointRequested { record_id: record_id@ },
            EditorEvent::ReviewCommentCheckpointRequested {
                id,
            } => EventView::ReviewCommentCheckpointRequested { id: *id },
        }
    }
}

/// How the block of an overlay is laid out.
#[derive(Clone, Copy, Debug, PartialEq, Eq, Structural)]
pub enum BlockStyle {
    Sticky,
    /// Sticky, and shown on the other side of a split diff too.
    StickyMirrored,
}

/// What an empty prompt says.
#[derive(Clone, Copy, Debug, PartialEq, Eq, Structural)]
pub enum Placeholder {
    /// "Add a review comment..."
    Comment,
    /// "Write a reply..."
    Reply,
}

/// Which hunks of the diff to show or hide.
#[derive(Clone, Copy, Debug, PartialEq, Eq, Structural)]
pub enum HunkScope {
    All,
    Selected,
}

/// What an editor asks to be done. Overlays and their prompts go by the number of the overlay.
#[derive(Clone, Debug)]
pub enum EditorEffect {
    Emit(EditorEvent),
    /// Let the action go on to whoever else handles it.
    Propagate,
    /// Put a block with an empty prompt below the end of `row`.
    OpenOverlay { overlay: u64, style: BlockStyle, row: u32, height: u32 },
    /// Take the blocks away.
    CloseOverlays { overlays: Vec<u64> },
    ResizeOverlay { overlay: u64, height: u32 },
    SetPlaceholder { overlay: u64, placeholder: Placeholder },
    ClearPrompt { overlay: u64 },
    FocusPrompt { overlay: u64 },
    FocusEditor,
    /// Open an editor in place of a comment, with `text` selected in it, and put the focus there.
    OpenInlineEditor { overlay: u64, key: ReviewCommentKey, text: String },
    CloseInlineEditor { overlay: u64, key: ReviewCommentKey },
    /// Put the cursor at a point and scroll it into view.
    Select { point: Point },
    /// Put the cursor at a point, unfold it and scroll it to the middle.
    GoTo { point: Point },
    ExpandDiffHunks { scope: HunkScope },
    CollapseDiffHunks { scope: HunkScope },
    /// Show the hunks of the diff from now on.
    KeepDiffHunksExpanded,
    /// Hide the hunks of the diff, and no longer show new ones.
    CollapseAllDiffHunks,
    /// Stop loading the diff against the last commit.
    CancelDiffLoad,
    /// Load the diff against the last commit for every buffer.
    LoadDiff,
    /// Begin to find out who wrote the lines, under this number.
    StartBlame { blame: u64, user_triggered: bool, focused: bool },
    /// Show the blame of the line of the cursor after the delay.
    StartInlineBlameTimer,
    CancelInlineBlameTimer,
    /// Show the popover, at once or after a delay.
    ShowBlamePopover { at_once: bool },
    /// Do not show the popover after all.
    CancelBlamePopover,
    /// Hide the popover in a moment.
    HideBlamePopoverLater,
    /// Do not hide the popover after all.
    KeepBlamePopover,
    /// Open the commit of the line of the cursor.
    OpenBlameCommit,
}

/// What an editor asks to be done, as a value.
pub enum EffectView {
    Emit(EventView),
    Propagate,
    OpenOverlay { overlay: u64, style: BlockStyle, row: u32, height: u32 },
    CloseOverlays { overlays: Seq<u64> },
    ResizeOverlay { overlay: u64, height: u32 },
    SetPlaceholder { overlay: u64, placeholder: Placeholder },
    ClearPrompt { overlay: u64 },
    FocusPrompt { overlay: u64 },
    FocusEditor,
    OpenInlineEditor { overlay: u64, key: CommentKeyView, text: Seq<char> },
    CloseInlineEditor { overlay: u64, key: CommentKeyView },
    Select { point: Point },
    GoTo { point: Point },
    ExpandDiffHunks { scope: HunkScope },
    CollapseDiffHunks { scope: HunkScope },
    KeepDiffHunksExpanded,
    CollapseAllDiffHunks,
    CancelDiffLoad,
    LoadDiff,
    StartBlame { blame: u64, user_triggered: bool, focused: bool },
    StartInlineBlameTimer,
    CancelInlineBlameTimer,
    ShowBlamePopover { at_once: bool },
    CancelBlamePopover,
    HideBlamePopoverLater,
    KeepBlamePopover,
    OpenBlameCommit,
}

impl View for EditorEffect {
    type V = EffectView;

    open spec fn view(&self) -> EffectView {
        match self {
            EditorEffect::Emit(event) => EffectView::Emit(event@),
            EditorEffect::Propagate => EffectView::Propagate,
            EditorEffect::OpenOverlay {
                overlay,
                style,
                row,
                height,
            } => EffectView::OpenOverlay {
                overlay: *overlay,
                style: *style,
                row: *row,
                height: *height,
            },
            EditorEffect::CloseOverlays { overlays } => EffectView::CloseOverlays {
                overlays: overlays@,
            },
            EditorEffect::ResizeOverlay { overlay, height } => EffectView::ResizeOverlay {
                overlay: *overlay,
                height: *height,
            },
            EditorEffect::SetPlaceholder { overlay, placeholder } => EffectView::SetPlaceholder {
                overlay: *overlay,
                placeholder: *placeholder,
            },
            EditorEffect::ClearPrompt { overlay } => EffectView::ClearPrompt { overlay: *overlay },
            EditorEffect::FocusPrompt { overlay } => EffectView::FocusPrompt { overlay: *overlay },
            EditorEffect::FocusEditor => EffectView::FocusEditor,
            EditorEffect::OpenInlineEditor { overlay, key, text } => EffectView::OpenInlineEditor {
                overlay: *overlay,
                key: key@,
                text: text@,
            },
            EditorEffect::CloseInlineEditor { overlay, key } => EffectView::CloseInlineEditor {
                overlay: *overlay,
                key: key@,
            },
            EditorEffect::Select { point } => EffectView::Select { point: *point },
            EditorEffect::GoTo { point } => EffectView::GoTo { point: *point },
            EditorEffect::ExpandDiffHunks { scope } => EffectView::ExpandDiffHunks {
                scope: *scope,
            },
            EditorEffect::CollapseDiffHunks { scope } => EffectView::CollapseDiffHunks {
                scope: *scope,
            },
            EditorEffect::KeepDiffHunksExpanded => EffectView::KeepDiffHunksExpanded,
            EditorEffect::CollapseAllDiffHunks => EffectView::CollapseAllDiffHunks,
            EditorEffect::CancelDiffLoad => EffectView::CancelDiffLoad,
            EditorEffect::LoadDiff => EffectView::LoadDiff,
            EditorEffect::StartBlame { blame, user_triggered, focused } => EffectView::StartBlame {
                blame: *blame,
                user_triggered: *user_triggered,
                focused: *focused,
            },
            EditorEffect::StartInlineBlameTimer => EffectView::StartInlineBlameTimer,
            EditorEffect::CancelInlineBlameTimer => EffectView::CancelInlineBlameTimer,
            EditorEffect::CancelBlamePopover => EffectView::CancelBlamePopover,
            EditorEffect::HideBlamePopoverLater => EffectView::HideBlamePopoverLater,
            EditorEffect::KeepBlamePopover => EffectView::KeepBlamePopover,
            EditorEffect::OpenBlameCommit => EffectView::OpenBlameCommit,
            EditorEffect::ShowBlamePopover { at_once } => EffectView::ShowBlamePopover {
                at_once: *at_once,
            },
        }
    }
}

/// The effects as values.
pub open spec fn effect_views(effects: Seq<EditorEffect>) -> Seq<EffectView> {
    effects.map_values(|effect: EditorEffect| effect@)
}

/// What asks for the checkpoint before a comment.
pub open spec fn checkpoint_event(comment: StoredReviewComment) -> EventView {
    match comment.record_id {
        Some(record_id) => EventView::StackReviewCommentCheckpointRequested {
            record_id: record_id@,
        },
        None => EventView::ReviewCommentCheckpointRequested { id: comment.id },
    }
}

impl StoredReviewComment {
    /// What asks for the checkpoint before the comment.
    pub fn checkpoint_requested_event(&self) -> (event: EditorEvent)
        ensures
            event@ == checkpoint_event(*self),
    {
        match &self.record_id {
            Some(record_id) => EditorEvent::StackReviewCommentCheckpointRequested {
                record_id: record_id.clone(),
            },
            None => EditorEvent::ReviewCommentCheckpointRequested { id: self.id },
        }
    }
}

/// Adds what is asked.
pub fn ask(effects: &mut Vec<EditorEffect>, effect: EditorEffect)
    ensures
        effect_views(final(effects)@) == effect_views(old(effects)@).push(effect@),
{
    effects.push(effect);
    assert(effect_views(effects@) =~= effect_views(old(effects)@).push(effect@));
}

} // verus!
