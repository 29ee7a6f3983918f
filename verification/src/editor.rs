//! An editor under review: its comments, the overlays that show them, and what it asks of those
//! around it.

use crate::comment::{copied_text, StackReviewCommentAuthor};
use crate::editor_effect::{ask, effect_views, EditorEffect, EditorEvent, EffectView};
use crate::record_order::{read_rfc3339_nanos, rfc3339_nanos};
use crate::review_comment::{Anchor, AnchorRange, DiffHunkKey, ReviewCommentKey};
use crate::text_map::TextMap;
use crate::review_store::{store_view, total_comments, HunkComments, HunkView};
use vstd::prelude::*;
use vstd::string::*;

verus! {

/// Who is signed in.
#[derive(Clone, Debug)]
pub struct CurrentUser {
    pub name: Option<String>,
    pub username: String,
    pub avatar_uri: String,
}

/// A block below some lines that shows the comments on them and takes new ones.
#[derive(Clone, Debug)]
pub struct DiffReviewOverlay {
    pub id: u64,
    pub anchor_range: AnchorRange,
    pub hunk_key: DiffHunkKey,
    pub comments_expanded: bool,
    pub composer_visible: bool,
    pub comment_author: StackReviewCommentAuthor,
    pub pending_reply_to: Option<usize>,
    pub pending_reply_to_record_id: Option<String>,
    /// The comments that are edited in place.
    pub inline_edits: Vec<ReviewCommentKey>,
    pub user_avatar_uri: Option<String>,
}

/// The lines that are being selected for a comment.
#[derive(Clone, Copy, Debug, PartialEq, Eq, Structural)]
pub struct DiffReviewDragState {
    pub start_anchor: Anchor,
    pub current_anchor: Anchor,
}

/// The ways to stage and restore hunks that an editor can be given.
#[derive(Clone, Copy, Debug, PartialEq, Eq, Structural)]
pub enum DelegateKind {
    Uncommitted,
    RestoreOnly,
    RestoreOnlyUnstaged,
    /// One that is not of this library, by its number.
    Custom(u64),
}

/// The popover that shows the commit of a line.
#[derive(Clone, Copy, Debug, PartialEq, Eq, Structural)]
pub struct InlineBlamePopover {
    /// Whether it goes away in a moment.
    pub hiding: bool,
    /// Whether it was opened from the keyboard, and so stays where the mouse is elsewhere.
    pub keyboard_grace: bool,
}

/// How far it is shown who wrote the lines.
#[derive(Clone, Copy, Debug, PartialEq, Eq, Structural)]
pub struct BlameState {
    pub show_git_blame_gutter: bool,
    pub git_blame_inline_enabled: bool,
    pub show_git_blame_inline: bool,
    /// What is being found out, by the number under which it was begun.
    pub blame: Option<u64>,
    pub inline_blame_popover: Option<InlineBlamePopover>,
    /// Whether the popover is to be shown after a delay.
    pub popover_awaited: bool,
    /// Whether the popover is to be shown once something was found out.
    pub hover_awaited: bool,
}

/// What an agent says and does next to comments.
#[derive(Clone, Debug)]
pub struct AgentProjection {
    /// The texts that show its answers, under the records they are shown at.
    pub texts: TextMap<Vec<u64>>,
    /// The records at which it is at work.
    pub loading_record_ids: Vec<String>,
}

/// An editor, as far as review, diff hunks and blame go.
#[derive(Clone, Debug)]
pub struct Editor {
    pub is_stack_review: bool,
    pub read_only: bool,
    pub has_project: bool,
    pub current_user: Option<CurrentUser>,
    pub stored_review_comments: Vec<HunkComments>,
    pub next_review_comment_id: usize,
    pub diff_review_overlays: Vec<DiffReviewOverlay>,
    pub next_overlay: u64,
    pub diff_review_drag_state: Option<DiffReviewDragState>,
    pub show_diff_review_button: bool,
    pub agent: AgentProjection,
    pub diff_hunk_delegate: Option<DelegateKind>,
    pub blame_state: BlameState,
    pub effects: Vec<EditorEffect>,
}

/// No two overlays have the same number, and each has one that was given out.
pub open spec fn overlays_ok(overlays: Seq<DiffReviewOverlay>, next_overlay: u64) -> bool {
    &&& forall|i: int| 0 <= i < overlays.len() ==> (#[trigger] overlays[i]).id < next_overlay
    &&& forall|i: int, j: int|
        #![trigger overlays[i], overlays[j]]
        0 <= i < j < overlays.len() ==> overlays[i].id != overlays[j].id
}

impl Editor {
    /// The comments, hunk by hunk.
    pub open spec fn hunks(&self) -> Seq<HunkView> {
        store_view(self.stored_review_comments@)
    }

    /// What was asked so far.
    pub open spec fn asked(&self) -> Seq<EffectView> {
        effect_views(self.effects@)
    }

    /// The comments can be counted, and the overlays told apart.
    pub open spec fn wf(&self) -> bool {
        &&& total_comments(self.hunks()) <= usize::MAX
        &&& overlays_ok(self.diff_review_overlays@, self.next_overlay)
        &&& self.agent.texts.wf()
    }

    /// An editor without comments and overlays.
    pub fn new(is_stack_review: bool, has_project: bool) -> (editor: Self)
        ensures
            editor.wf(),
            editor.is_stack_review == is_stack_review,
            editor.has_project == has_project,
            !editor.read_only,
            editor.current_user is None,
            editor.hunks() == Seq::<HunkView>::empty(),
            editor.next_review_comment_id == 0,
            editor.diff_review_overlays@ == Seq::<DiffReviewOverlay>::empty(),
            editor.next_overlay == 0,
            editor.diff_review_drag_state is None,
            !editor.show_diff_review_button,
            editor.agent.texts.wf(),
            editor.agent.texts@ == Map::<Seq<char>, Vec<u64>>::empty(),
            editor.agent.loading_record_ids@.len() == 0,
            editor.diff_hunk_delegate is None,
            editor.blame_state == (BlameState {
                show_git_blame_gutter: false,
                git_blame_inline_enabled: false,
                show_git_blame_inline: false,
                blame: None,
                inline_blame_popover: None,
                popover_awaited: false,
                hover_awaited: false,
            }),
            editor.asked() == Seq::<EffectView>::empty(),
    {
        let editor = Editor {
            is_stack_review,
            read_only: false,
            has_project,
            current_user: None,
            stored_review_comments: Vec::new(),
            next_review_comment_id: 0,
            diff_review_overlays: Vec::new(),
            next_overlay: 0,
            diff_review_drag_state: None,
            show_diff_review_button: false,
            agent: AgentProjection { texts: TextMap::new(), loading_record_ids: Vec::new() },
            diff_hunk_delegate: None,
            blame_state: BlameState {
                show_git_blame_gutter: false,
                git_blame_inline_enabled: false,
                show_git_blame_inline: false,
                blame: None,
                inline_blame_popover: None,
                popover_awaited: false,
                hover_awaited: false,
            },
            effects: Vec::new(),
        };
        proof {
            assert(editor.hunks() =~= Seq::<HunkView>::empty());
            assert(editor.asked() =~= Seq::<EffectView>::empty());
        }
        editor
    }

    /// Asks for something to be done.
    pub(crate) fn ask(&mut self, effect: EditorEffect)
        ensures
            *final(self) == (Editor { effects: final(self).effects, ..*old(self) }),
            final(self).asked() == old(self).asked().push(effect@),
    {
        ask(&mut self.effects, effect);
    }

    /// Tells that something has happened.
    pub(crate) fn emit(&mut self, event: EditorEvent)
        ensures
            *final(self) == (Editor { effects: final(self).effects, ..*old(self) }),
            final(self).asked() == old(self).asked().push(EffectView::Emit(event@)),
    {
        ask(&mut self.effects, EditorEffect::Emit(event));
    }

    /// Hands over what was asked so far.
    pub fn take_effects(&mut self) -> (effects: Vec<EditorEffect>)
        ensures
            *final(self) == (Editor { effects: final(self).effects, ..*old(self) }),
            final(self).asked() == Seq::<EffectView>::empty(),
            effects@ == old(self).effects@,
    {
        let mut effects: Vec<EditorEffect> = Vec::new();
        std::mem::swap(&mut effects, &mut self.effects);
        assert(self.asked() =~= Seq::<EffectView>::empty());
        effects
    }

    /// Whether a stack of branches is under review.
    pub fn is_stack_review(&self) -> (is: bool)
        ensures
            is == self.is_stack_review,
    {
        self.is_stack_review
    }

    /// Whether lines offer a button to comment on them.
    pub fn show_diff_review_button(&self) -> (shown: bool)
        ensures
            shown == self.show_diff_review_button,
    {
        self.show_diff_review_button
    }
}

/// A time as it is shown: nothing where it cannot be read, and else what the clock and the zone
/// of the reader make of it.
pub fn format_stack_review_comment_timestamp(timestamp: &str, localized: &str) -> (shown: String)
    ensures
        shown@ == if rfc3339_nanos(timestamp@) is Some {
            localized@
        } else {
            ""@
        },
{
    match read_rfc3339_nanos(timestamp) {
        Some(_) => localized.to_owned(),
        None => "".to_owned(),
    }
}

/// A time as it is shown, where it can be read and `localized` gives what the reader makes of it.
pub open spec fn shown_time(created_at: Seq<char>, localized: Option<String>) -> Option<String> {
    if rfc3339_nanos(created_at) is Some {
        localized
    } else {
        None
    }
}

pub(crate) fn show_time(created_at: &str, localized: &Option<String>) -> (shown: Option<String>)
    ensures
        shown == shown_time(created_at@, *localized),
{
    match read_rfc3339_nanos(created_at) {
        Some(_) => copied_text(localized),
        None => None,
    }
}

} // verus!
