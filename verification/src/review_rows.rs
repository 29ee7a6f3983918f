//! What an overlay shows: the lines it is for, its heading, its comments and their buttons.

use crate::agent_projection::{agent_responses, copied_ids, responses_at};
use crate::comment::{copied_text, StackReviewCommentSource};
use crate::debug_selector::{
    occurrence_text, reply_label, selector_text, stack_review_comment_instance_debug_selector,
    stack_review_debug_selector, target_identity, texts_of, ReplyTargetView,
    StackReviewComposerMetadata, StackReviewReplyMetadata,
};
use crate::decimal::{decimal_text, push_decimal};
use crate::editor::Editor;
use crate::editor_editing::{contains_key, edit_keys};
use crate::editor_projection::{is_text_among, text_among};
use crate::editor_overlays::{
    stack_review_comment_row_is_activatable, stack_review_overlay_shows_transient_state,
};
use crate::overlay_height::overlay_at;
use crate::review_comment::{
    comment_key, key_identity, DiffHunkKey, ReviewCommentKey, StoredReviewComment, CommentKeyView,
};
use crate::review_snapshot::ReviewSnapshot;
use crate::review_store::hunk_comments;
use crate::text::{after_prefix, opt_string_view, opt_view, strip_prefix_text};
use crate::text_map::TextMap;
use crate::thread_items::{
    by_time, item_views, opt_reply_view, pending_reference, stack_review_thread_items, thread_items,
    StackReviewThreadItem, ThreadItemView,
};
use crate::trim::{is_white_space, trim_text, trimmed, white_space};
use vstd::prelude::*;
use vstd::string::*;

verus! {

/// What an agent is asked in a comment: what follows "@agent" at its beginning, where that is a
/// word of its own.
pub open spec fn agent_prompt(text: Seq<char>) -> Option<Seq<char>> {
    match after_prefix(trimmed(text), "@agent"@) {
        Some(rest) => if rest.len() == 0 || is_white_space(rest[0]) {
            Some(trimmed(rest))
        } else {
            None
        },
        None => None,
    }
}

/// What an agent is asked in a comment.
pub fn stack_review_agent_prompt_body(value: &str) -> (body: Option<&str>)
    ensures
        opt_view(body) == agent_prompt(value@),
{
    let whole = trim_text(value);
    match strip_prefix_text(whole, "@agent") {
        Some(rest) => {
            if rest.unicode_len() > 0 && !white_space(rest.get_char(0)) {
                return None;
            }
            Some(trim_text(rest))
        },
        None => None,
    }
}

/// One range of lines, counted from one.
pub open spec fn line_range_text(range: (u32, u32)) -> Seq<char> {
    if range.0 == range.1 {
        "Line "@ + decimal_text((range.0 + 1) as nat)
    } else {
        "Lines "@ + decimal_text((range.0 + 1) as nat) + "-"@ + decimal_text((range.1 + 1) as nat)
    }
}

/// Ranges of lines with dots between them.
pub open spec fn line_ranges_text(ranges: Seq<(u32, u32)>) -> Seq<char>
    decreases ranges.len(),
{
    if ranges.len() == 0 {
        ""@
    } else if ranges.len() == 1 {
        line_range_text(ranges[0])
    } else {
        line_ranges_text(ranges.drop_last()) + " \u{22ef} "@ + line_range_text(ranges.last())
    }
}

/// The lines that an overlay is for. A single line is not told.
pub open spec fn line_ranges_label(ranges: Seq<(u32, u32)>) -> Option<Seq<char>> {
    if ranges.len() == 0 || (ranges.len() == 1 && ranges[0].0 == ranges[0].1) {
        None
    } else {
        Some(line_ranges_text(ranges))
    }
}

fn push_line_range(text: &mut String, range: (u32, u32))
    ensures
        final(text)@ == old(text)@ + line_range_text(range),
{
    let (start, end): (u32, u32) = range;
    if start == end {
        text.append("Line ");
        push_decimal(text, start as u64 + 1);
    } else {
        text.append("Lines ");
        push_decimal(text, start as u64 + 1);
        text.append("-");
        push_decimal(text, end as u64 + 1);
    }
    assert(text@ =~= old(text)@ + line_range_text(range));
}

/// The lines that an overlay is for.
pub fn format_line_ranges(ranges: &Vec<(u32, u32)>) -> (label: Option<String>)
    ensures
        opt_string_view(label) == line_ranges_label(ranges@),
{
    if ranges.len() == 0 {
        return None;
    }
    let (first_start, first_end): (u32, u32) = ranges[0];
    if ranges.len() == 1 && first_start == first_end {
        return None;
    }
    let mut text = "".to_owned();
    push_line_range(&mut text, ranges[0]);
    let mut k: usize = 1;
    proof {
        reveal_strlit("");
        assert(""@ =~= Seq::empty());
        assert(text@ =~= line_ranges_text(ranges@.take(1)));
    }
    while k < ranges.len()
        invariant
            1 <= k <= ranges@.len(),
            text@ == line_ranges_text(ranges@.take(k as int)),
        decreases ranges.len() - k,
    {
        proof {
            assert(ranges@.take(k + 1).drop_last() =~= ranges@.take(k as int));
            assert(ranges@.take(k + 1).last() == ranges@[k as int]);
        }
        text.append(" \u{22ef} ");
        push_line_range(&mut text, ranges[k]);
        k += 1;
    }
    assert(ranges@.take(k as int) =~= ranges@);
    Some(text)
}

/// The heading above comments.
pub open spec fn comments_heading(count: nat) -> Seq<char> {
    decimal_text(count) + " Comment"@ + (if count == 1 {
        ""@
    } else {
        "s"@
    })
}

/// The heading above comments.
pub fn write_comments_heading(count: usize) -> (heading: String)
    ensures
        heading@ == comments_heading(count as nat),
{
    let mut heading = "".to_owned();
    push_decimal(&mut heading, count as u64);
    heading.append(" Comment");
    proof {
        reveal_strlit("");
        assert(""@ =~= Seq::empty());
    }
    if count == 1 {
        heading.append("");
    } else {
        heading.append("s");
    }
    assert(heading@ =~= comments_heading(count as nat));
    heading
}

/// Who wrote a comment, from where, and when.
pub open spec fn author_label(comment: StoredReviewComment) -> Seq<char> {
    let name = comment.author.name@;
    let origin = match comment.source {
        StackReviewCommentSource::LocalHuman => name,
        StackReviewCommentSource::LocalAgent => name + " \u{b7} Agent"@,
        StackReviewCommentSource::Github => name + " \u{b7} GitHub"@,
    };
    match comment.created_at_display {
        Some(time) => if time@.len() > 0 {
            origin + " \u{b7} "@ + time@
        } else {
            origin
        },
        None => origin,
    }
}

/// Who wrote a comment, from where, and when.
pub fn write_author_label(comment: &StoredReviewComment) -> (label: String)
    ensures
        label@ == author_label(*comment),
{
    let mut label = comment.author.name.clone();
    match comment.source {
        StackReviewCommentSource::LocalHuman => {},
        StackReviewCommentSource::LocalAgent => {
            label.append(" \u{b7} Agent");
        },
        StackReviewCommentSource::Github => {
            label.append(" \u{b7} GitHub");
        },
    }
    match &comment.created_at_display {
        Some(time) => {
            if time.as_str().unicode_len() > 0 {
                label.append(" \u{b7} ");
                label.append(time.as_str());
            }
        },
        None => {},
    }
    label
}

/// A button next to a comment.
#[derive(Clone, Copy, Debug, PartialEq, Eq, Structural)]
pub enum RowButton {
    CancelEdit,
    ConfirmEdit,
    Copy,
    RestoreThread,
    UseCheckpoint,
    ResolveThread,
    ReopenThread,
    Reply,
    StashThread,
    Edit,
    Delete,
}

/// The buttons next to a comment. One that is edited has those that end the edit; one that is
/// put away can be taken back; one from GitHub can be neither edited nor deleted; and outside the
/// review of a stack there are none but those that end an edit.
pub open spec fn row_buttons(
    comment: StoredReviewComment,
    is_editing: bool,
    is_stack_review: bool,
) -> Seq<RowButton> {
    if is_editing {
        seq![RowButton::CancelEdit, RowButton::ConfirmEdit]
    } else if !is_stack_review {
        Seq::empty()
    } else if comment.stashed {
        seq![RowButton::Copy, RowButton::RestoreThread]
    } else {
        let resolution = if comment.resolved {
            RowButton::ReopenThread
        } else {
            RowButton::ResolveThread
        };
        if comment.source == StackReviewCommentSource::Github {
            seq![
                RowButton::Copy,
                RowButton::UseCheckpoint,
                resolution,
                RowButton::Reply,
                RowButton::StashThread,
            ]
        } else {
            seq![
                RowButton::Copy,
                resolution,
                RowButton::Reply,
                RowButton::StashThread,
                RowButton::Edit,
                RowButton::Delete,
            ]
        }
    }
}

/// The buttons next to a comment.
pub fn list_row_buttons(
    comment: &StoredReviewComment,
    is_editing: bool,
    is_stack_review: bool,
) -> (buttons: Vec<RowButton>)
    ensures
        buttons@ == row_buttons(*comment, is_editing, is_stack_review),
{
    let mut buttons: Vec<RowButton> = Vec::new();
    if is_editing {
        buttons.push(RowButton::CancelEdit);
        buttons.push(RowButton::ConfirmEdit);
    } else if is_stack_review && comment.stashed {
        buttons.push(RowButton::Copy);
        buttons.push(RowButton::RestoreThread);
    } else if is_stack_review {
        buttons.push(RowButton::Copy);
        if comment.source == StackReviewCommentSource::Github {
            buttons.push(RowButton::UseCheckpoint);
        }
        if comment.resolved {
            buttons.push(RowButton::ReopenThread);
        } else {
            buttons.push(RowButton::ResolveThread);
        }
        buttons.push(RowButton::Reply);
        buttons.push(RowButton::StashThread);
        if comment.source != StackReviewCommentSource::Github {
            buttons.push(RowButton::Edit);
            buttons.push(RowButton::Delete);
        }
    }
    assert(buttons@ =~= row_buttons(*comment, is_editing, is_stack_review));
    buttons
}

/// What a button is named by, before the identity of its comment.
pub open spec fn button_prefix(button: RowButton) -> Seq<char> {
    match button {
        RowButton::CancelEdit => "diff-review-cancel-edit-"@,
        RowButton::ConfirmEdit => "diff-review-confirm-edit-"@,
        RowButton::Copy => "diff-review-copy-"@,
        RowButton::RestoreThread => "diff-review-restore-"@,
        RowButton::UseCheckpoint => "diff-review-use-comment-checkpoint-"@,
        RowButton::ResolveThread => "diff-review-resolution-"@,
        RowButton::ReopenThread => "diff-review-resolution-"@,
        RowButton::Reply => "diff-review-reply-"@,
        RowButton::StashThread => "diff-review-stash-"@,
        RowButton::Edit => "diff-review-edit-"@,
        RowButton::Delete => "diff-review-delete-"@,
    }
}

/// What a button says it does.
pub open spec fn button_tooltip(button: RowButton) -> Seq<char> {
    match button {
        RowButton::CancelEdit => "Cancel"@,
        RowButton::ConfirmEdit => "Confirm"@,
        RowButton::Copy => "Copy comment"@,
        RowButton::RestoreThread => "Restore thread"@,
        RowButton::UseCheckpoint => "Use the last commit before this comment as From"@,
        RowButton::ResolveThread => "Resolve thread"@,
        RowButton::ReopenThread => "Reopen thread"@,
        RowButton::Reply => "Reply"@,
        RowButton::StashThread => "Stash thread"@,
        RowButton::Edit => "Edit"@,
        RowButton::Delete => "Delete"@,
    }
}

impl RowButton {
    /// What the button is named by, for the comment of an identity.
    pub fn name(&self, identity: &str) -> (name: String)
        ensures
            name@ == button_prefix(*self) + identity@,
    {
        let prefix = match self {
            RowButton::CancelEdit => "diff-review-cancel-edit-",
            RowButton::ConfirmEdit => "diff-review-confirm-edit-",
            RowButton::Copy => "diff-review-copy-",
            RowButton::RestoreThread => "diff-review-restore-",
            RowButton::UseCheckpoint => "diff-review-use-comment-checkpoint-",
            RowButton::ResolveThread => "diff-review-resolution-",
            RowButton::ReopenThread => "diff-review-resolution-",
            RowButton::Reply => "diff-review-reply-",
            RowButton::StashThread => "diff-review-stash-",
            RowButton::Edit => "diff-review-edit-",
            RowButton::Delete => "diff-review-delete-",
        };
        let mut name = prefix.to_owned();
        name.append(identity);
        name
    }

    /// What the button says it does.
    pub fn tooltip(&self) -> (tooltip: String)
        ensures
            tooltip@ == button_tooltip(*self),
    {
        match self {
            RowButton::CancelEdit => "Cancel".to_owned(),
            RowButton::ConfirmEdit => "Confirm".to_owned(),
            RowButton::Copy => "Copy comment".to_owned(),
            RowButton::RestoreThread => "Restore thread".to_owned(),
            RowButton::UseCheckpoint =>
                "Use the last commit before this comment as From".to_owned(),
            RowButton::ResolveThread => "Resolve thread".to_owned(),
            RowButton::ReopenThread => "Reopen thread".to_owned(),
            RowButton::Reply => "Reply".to_owned(),
            RowButton::StashThread => "Stash thread".to_owned(),
            RowButton::Edit => "Edit".to_owned(),
            RowButton::Delete => "Delete".to_owned(),
        }
    }
}

/// What is done where a button next to a comment is pressed.
#[derive(Clone, Debug)]
pub enum RowAction {
    CancelEdit { key: ReviewCommentKey },
    ConfirmEdit { key: ReviewCommentKey },
    Copy { text: String },
    /// Ask for the thread of a record to be put away, or taken back where it `is_stashed`.
    ToggleStash { record_id: String, is_stashed: bool },
    UseCheckpoint { record_id: Option<String>, id: usize },
    SetResolved { key: ReviewCommentKey, resolved: bool },
    Reply { key: ReviewCommentKey },
    Edit { key: ReviewCommentKey },
    Delete { key: ReviewCommentKey },
}

/// The key under which a button asks for a comment: its record, where it has one and records
/// count, and else its number.
pub open spec fn acting_key(comment: StoredReviewComment, by_record: bool) -> ReviewCommentKey {
    match comment.record_id {
        Some(record_id) if by_record => ReviewCommentKey::Stable(record_id),
        _ => ReviewCommentKey::Legacy(comment.id),
    }
}

/// What is done where a button next to a comment is pressed. Outside the review of a stack, edits
/// are ended, and threads resolved and replied to, by the number; a thread without a record can
/// neither be put away nor taken back.
pub open spec fn button_action(
    button: RowButton,
    comment: StoredReviewComment,
    is_stack_review: bool,
) -> Option<RowAction> {
    match button {
        RowButton::CancelEdit => Some(
            RowAction::CancelEdit { key: acting_key(comment, is_stack_review) },
        ),
        RowButton::ConfirmEdit => Some(
            RowAction::ConfirmEdit { key: acting_key(comment, is_stack_review) },
        ),
        RowButton::Copy => Some(RowAction::Copy { text: comment.comment }),
        RowButton::RestoreThread => match comment.record_id {
            Some(record_id) => Some(RowAction::ToggleStash { record_id, is_stashed: true }),
            None => None,
        },
        RowButton::StashThread => match comment.record_id {
            Some(record_id) => Some(RowAction::ToggleStash { record_id, is_stashed: false }),
            None => None,
        },
        RowButton::UseCheckpoint => Some(
            RowAction::UseCheckpoint { record_id: comment.record_id, id: comment.id },
        ),
        RowButton::ResolveThread | RowButton::ReopenThread => Some(
            RowAction::SetResolved {
                key: acting_key(comment, is_stack_review),
                resolved: !comment.resolved,
            },
        ),
        RowButton::Reply => Some(RowAction::Reply { key: acting_key(comment, is_stack_review) }),
        RowButton::Edit => Some(RowAction::Edit { key: acting_key(comment, true) }),
        RowButton::Delete => Some(RowAction::Delete { key: acting_key(comment, true) }),
    }
}

fn key_to_act_on(comment: &StoredReviewComment, by_record: bool) -> (key: ReviewCommentKey)
    ensures
        key == acting_key(*comment, by_record),
{
    if by_record {
        match &comment.record_id {
            Some(record_id) => ReviewCommentKey::Stable(record_id.clone()),
            None => ReviewCommentKey::Legacy(comment.id),
        }
    } else {
        ReviewCommentKey::Legacy(comment.id)
    }
}

impl RowButton {
    /// What is done where the button is pressed.
    pub fn action(&self, comment: &StoredReviewComment, is_stack_review: bool) -> (action: Option<
        RowAction,
    >)
        ensures
            action == button_action(*self, *comment, is_stack_review),
    {
        match self {
            RowButton::CancelEdit => Some(
                RowAction::CancelEdit { key: key_to_act_on(comment, is_stack_review) },
            ),
            RowButton::ConfirmEdit => Some(
                RowAction::ConfirmEdit { key: key_to_act_on(comment, is_stack_review) },
            ),
            RowButton::Copy => Some(RowAction::Copy { text: comment.comment.clone() }),
            RowButton::RestoreThread => match &comment.record_id {
                Some(record_id) => Some(
                    RowAction::ToggleStash { record_id: record_id.clone(), is_stashed: true },
                ),
                None => None,
            },
            RowButton::StashThread => match &comment.record_id {
                Some(record_id) => Some(
                    RowAction::ToggleStash { record_id: record_id.clone(), is_stashed: false },
                ),
                None => None,
            },
            RowButton::UseCheckpoint => Some(
                RowAction::UseCheckpoint {
                    record_id: copied_text(&comment.record_id),
                    id: comment.id,
                },
            ),
            RowButton::ResolveThread => Some(
                RowAction::SetResolved {
                    key: key_to_act_on(comment, is_stack_review),
                    resolved: !comment.resolved,
                },
            ),
            RowButton::ReopenThread => Some(
                RowAction::SetResolved {
                    key: key_to_act_on(comment, is_stack_review),
                    resolved: !comment.resolved,
                },
            ),
            RowButton::Reply => Some(
                RowAction::Reply { key: key_to_act_on(comment, is_stack_review) },
            ),
            RowButton::Edit => Some(RowAction::Edit { key: key_to_act_on(comment, true) }),
            RowButton::Delete => Some(RowAction::Delete { key: key_to_act_on(comment, true) }),
        }
    }
}

/// What a row shows of a comment.
#[derive(Clone, Debug)]
pub enum RowContent {
    /// The editor that is open in its place.
    InlineEditor,
    /// A question to an agent.
    AgentPrompt { body: String },
    Text { text: String },
}

/// What a row shows of a comment, as a value.
pub enum RowContentView {
    InlineEditor,
    AgentPrompt { body: Seq<char> },
    Text { text: Seq<char> },
}

impl View for RowContent {
    type V = RowContentView;

    open spec fn view(&self) -> RowContentView {
        match self {
            RowContent::InlineEditor => RowContentView::InlineEditor,
            RowContent::AgentPrompt { body } => RowContentView::AgentPrompt { body: body@ },
            RowContent::Text { text } => RowContentView::Text { text: text@ },
        }
    }
}

/// A label and the selector by which it is found.
#[derive(Clone, Debug)]
pub struct RowLabel {
    pub selector: String,
    pub label: String,
}

/// The row of a comment.
#[derive(Clone, Debug)]
pub struct CommentRow {
    pub row_selector: String,
    pub content_selector: String,
    /// What its buttons are named by.
    pub action_identity: String,
    /// The record that selecting the row selects.
    pub selects: Option<String>,
    pub shows_user_avatar: bool,
    /// Whether it is shown faintly.
    pub is_faded: bool,
    pub reply: Option<RowLabel>,
    pub author: Option<String>,
    pub shows_stashed_label: bool,
    pub shows_agent_loading: bool,
    /// The texts that show the answers of an agent.
    pub agent_responses: Vec<u64>,
    pub content: RowContent,
    pub buttons: Vec<RowButton>,
}

/// How one place where a comment is shown is told from others. Outside the review of a stack a
/// comment is shown in one place only.
pub open spec fn place_selector(
    prefix: Seq<char>,
    comment: StoredReviewComment,
    occurrence: nat,
    is_stack_review: bool,
) -> Seq<char> {
    let identity = key_identity(comment_key(comment));
    if is_stack_review {
        selector_text(prefix, seq![identity, occurrence_text(occurrence)])
    } else {
        selector_text(prefix, seq![identity])
    }
}

/// What the buttons of a comment are named by.
pub open spec fn row_action_identity(
    comment: StoredReviewComment,
    occurrence: nat,
    is_stack_review: bool,
) -> Seq<char> {
    if is_stack_review {
        place_selector("STACK_REVIEW_COMMENT_ACTION"@, comment, occurrence, true)
    } else {
        decimal_text(comment.id as nat)
    }
}

/// What a row shows of a comment.
pub open spec fn row_content(comment: StoredReviewComment, is_editing: bool) -> RowContentView {
    if is_editing {
        RowContentView::InlineEditor
    } else {
        match agent_prompt(comment.comment@) {
            Some(body) => RowContentView::AgentPrompt { body },
            None => RowContentView::Text { text: comment.comment@ },
        }
    }
}

/// Whether `row` is the row of a comment.
pub open spec fn is_row_of(
    row: CommentRow,
    comment: StoredReviewComment,
    occurrence: nat,
    reply: Option<ReplyTargetView>,
    is_stack_review: bool,
    agent_projection: Seq<u64>,
    agent_loading: bool,
    is_editing: bool,
    has_user_avatar: bool,
) -> bool {
    &&& row.row_selector@ == place_selector(
        "STACK_REVIEW_COMMENT_ROW"@,
        comment,
        occurrence,
        is_stack_review,
    )
    &&& row.content_selector@ == place_selector(
        "STACK_REVIEW_COMMENT_CONTENT"@,
        comment,
        occurrence,
        is_stack_review,
    )
    &&& row.action_identity@ == row_action_identity(comment, occurrence, is_stack_review)
    &&& row.selects == if is_editing {
        None
    } else {
        comment.record_id
    }
    &&& row.shows_user_avatar == (comment.source == StackReviewCommentSource::LocalHuman
        && has_user_avatar)
    &&& row.is_faded == comment.stashed
    &&& match (row.reply, reply) {
        (Some(shown), Some(target)) => is_stack_review && shown.label@ == reply_label(target)
            && shown.selector@ == selector_text(
            "STACK_REVIEW_REPLY_META"@,
            seq![
                key_identity(comment_key(comment)),
                target_identity(target),
                occurrence_text(occurrence),
            ],
        ),
        (None, Some(_)) => !is_stack_review,
        (None, None) => true,
        (Some(_), None) => false,
    }
    &&& opt_string_view(row.author) == if is_stack_review {
        Some(author_label(comment))
    } else {
        None
    }
    &&& row.shows_stashed_label == (is_stack_review && comment.stashed)
    &&& row.shows_agent_loading == (is_stack_review && agent_loading)
    &&& row.agent_responses@ == if is_stack_review {
        agent_projection
    } else {
        Seq::empty()
    }
    &&& row.content@ == row_content(comment, is_editing)
    &&& row.buttons@ == row_buttons(comment, is_editing, is_stack_review)
}

fn opt_str(text: &Option<String>) -> (str: Option<&str>)
    ensures
        opt_view(str) == opt_string_view(*text),
{
    match text {
        Some(text) => Some(text.as_str()),
        None => None,
    }
}

fn write_place_selector(
    prefix: &str,
    comment: &StoredReviewComment,
    occurrence: usize,
    is_stack_review: bool,
) -> (selector: String)
    ensures
        selector@ == place_selector(prefix@, *comment, occurrence as nat, is_stack_review),
{
    if is_stack_review {
        stack_review_comment_instance_debug_selector(
            prefix,
            opt_str(&comment.record_id),
            comment.id,
            occurrence,
        )
    } else {
        let identity = comment.debug_identity();
        let parts: [&str; 1] = [identity.as_str()];
        let selector = stack_review_debug_selector(prefix, &parts);
        assert(texts_of(parts@) =~= seq![key_identity(comment_key(*comment))]);
        selector
    }
}

/// The row of a comment.
pub fn render_comment_row(
    comment: &StoredReviewComment,
    occurrence: usize,
    reply_metadata: &Option<StackReviewReplyMetadata>,
    is_stack_review: bool,
    agent_projection: &Vec<u64>,
    agent_loading: bool,
    is_editing: bool,
    has_user_avatar: bool,
) -> (row: CommentRow)
    ensures
        is_row_of(
            row,
            *comment,
            occurrence as nat,
            opt_reply_view(*reply_metadata),
            is_stack_review,
            agent_projection@,
            agent_loading,
            is_editing,
            has_user_avatar,
        ),
{
    let action_identity = if is_stack_review {
        write_place_selector("STACK_REVIEW_COMMENT_ACTION", comment, occurrence, true)
    } else {
        let mut identity = "".to_owned();
        push_decimal(&mut identity, comment.id as u64);
        proof {
            reveal_strlit("");
            assert(""@ =~= Seq::empty());
            assert(identity@ =~= decimal_text(comment.id as nat));
        }
        identity
    };
    let selects = if stack_review_comment_row_is_activatable(is_editing) {
        copied_text(&comment.record_id)
    } else {
        None
    };
    let reply = match reply_metadata {
        Some(metadata) => if is_stack_review {
            Some(
                RowLabel {
                    selector: metadata.selector(comment, occurrence),
                    label: metadata.label(),
                },
            )
        } else {
            None
        },
        None => None,
    };
    let author = if is_stack_review {
        Some(write_author_label(comment))
    } else {
        None
    };
    let content = if is_editing {
        RowContent::InlineEditor
    } else {
        match stack_review_agent_prompt_body(comment.comment.as_str()) {
            Some(body) => RowContent::AgentPrompt { body: body.to_owned() },
            None => RowContent::Text { text: comment.comment.clone() },
        }
    };
    let agent_responses = if is_stack_review {
        copied_ids(agent_projection)
    } else {
        Vec::new()
    };
    CommentRow {
        row_selector: write_place_selector(
            "STACK_REVIEW_COMMENT_ROW",
            comment,
            occurrence,
            is_stack_review,
        ),
        content_selector: write_place_selector(
            "STACK_REVIEW_COMMENT_CONTENT",
            comment,
            occurrence,
            is_stack_review,
        ),
        action_identity,
        selects,
        shows_user_avatar: comment.source == StackReviewCommentSource::LocalHuman
            && has_user_avatar,
        is_faded: comment.stashed,
        reply,
        author,
        shows_stashed_label: is_stack_review && comment.stashed,
        shows_agent_loading: is_stack_review && agent_loading,
        agent_responses,
        content,
        buttons: list_row_buttons(comment, is_editing, is_stack_review),
    }
}

/// Whether a key selects the row that has the focus: the return key or the space bar, alone.
pub fn key_selects_row(key: &str, modified: bool) -> (selects: bool)
    ensures
        selects == (!modified && (key@ == "enter"@ || key@ == "space"@)),
{
    !modified && (crate::text::same_text(key, "enter") || crate::text::same_text(key, "space"))
}

/// The prompt for a reply.
#[derive(Clone, Debug)]
pub struct ReplyComposer {
    /// What is replied to.
    pub target: Option<RowLabel>,
    /// How far it is indented, in pixels.
    pub indent: usize,
}

/// A row of the comments in an overlay.
#[derive(Clone, Debug)]
pub enum SectionRow {
    Comment(CommentRow),
    Composer(ReplyComposer),
}

/// What rows depend on besides the comments they show.
pub struct RowSetting {
    pub is_stack_review: bool,
    /// The comments that are edited in place.
    pub edited: Seq<CommentKeyView>,
    /// The texts that show the answers of an agent, under the records they are shown at.
    pub agent_texts: Map<Seq<char>, Vec<u64>>,
    /// The records at which an agent is at work.
    pub loading: Seq<String>,
    pub has_user_avatar: bool,
}

/// How far a reply that is being written is indented outside the review of a stack, where it is
/// shown next to the comments and not below them.
pub open spec fn composer_indent(depth: nat) -> nat {
    if depth < 4 {
        depth * 12
    } else {
        48
    }
}

/// Whether an agent is at work at a comment.
pub open spec fn is_loading_at(comment: StoredReviewComment, loading: Seq<String>) -> bool {
    match comment.record_id {
        Some(record_id) => text_among(loading, record_id@),
        None => false,
    }
}

/// Whether `composer` is the prompt for a reply. What it replies to is told in the review of a
/// stack only.
pub open spec fn is_composer_for(
    composer: ReplyComposer,
    depth: nat,
    target: ReplyTargetView,
    is_stack_review: bool,
) -> bool {
    if is_stack_review {
        &&& composer.indent == 0
        &&& composer.target matches Some(shown) && shown.label@ == reply_label(target)
            && shown.selector@ == selector_text(
            "STACK_REVIEW_REPLY_COMPOSER_META"@,
            seq![target_identity(target)],
        )
    } else {
        composer.indent == composer_indent(depth) && composer.target is None
    }
}

/// Whether `row` shows an item of a list of threads.
pub open spec fn is_row_for(
    row: SectionRow,
    item: ThreadItemView,
    occurrence: nat,
    setting: RowSetting,
) -> bool {
    match (row, item) {
        (SectionRow::Comment(row), ThreadItemView::Comment { comment, reply, .. }) => is_row_of(
            row,
            comment,
            occurrence,
            reply,
            setting.is_stack_review,
            responses_at(comment, setting.agent_texts),
            is_loading_at(comment, setting.loading),
            setting.edited.contains(comment_key(comment)),
            setting.has_user_avatar,
        ),
        (SectionRow::Composer(composer), ThreadItemView::Composer { depth, target }) =>
            is_composer_for(composer, depth, target, setting.is_stack_review),
        _ => false,
    }
}

/// Whether `rows` shows a list of threads, item by item.
pub open spec fn are_rows_for(
    rows: Seq<SectionRow>,
    items: Seq<ThreadItemView>,
    setting: RowSetting,
) -> bool {
    &&& rows.len() == items.len()
    &&& forall|i: int|
        0 <= i < rows.len() ==> is_row_for(#[trigger] rows[i], items[i], i as nat, setting)
}

/// The prompt for a reply.
pub fn render_reply_composer(
    target: &StackReviewComposerMetadata,
    depth: usize,
    is_stack_review: bool,
) -> (composer: ReplyComposer)
    ensures
        is_composer_for(composer, depth as nat, target@, is_stack_review),
{
    if is_stack_review {
        ReplyComposer {
            target: Some(RowLabel { selector: target.selector(), label: target.label() }),
            indent: 0,
        }
    } else {
        let indent: usize = if depth < 4 {
            depth * 12
        } else {
            48
        };
        ReplyComposer { target: None, indent }
    }
}

/// The rows of the comments in an overlay.
pub fn render_comments_section(
    items: &Vec<StackReviewThreadItem>,
    is_stack_review: bool,
    edited: &Vec<ReviewCommentKey>,
    agent_texts: &TextMap<Vec<u64>>,
    loading: &Vec<String>,
    has_user_avatar: bool,
) -> (rows: Vec<SectionRow>)
    requires
        agent_texts.wf(),
    ensures
        are_rows_for(
            rows@,
            item_views(items@),
            RowSetting {
                is_stack_review,
                edited: edited@.map_values(|key: ReviewCommentKey| key@),
                agent_texts: agent_texts@,
                loading: loading@,
                has_user_avatar,
            },
        ),
{
    let ghost setting = RowSetting {
        is_stack_review,
        edited: edited@.map_values(|key: ReviewCommentKey| key@),
        agent_texts: agent_texts@,
        loading: loading@,
        has_user_avatar,
    };
    let ghost views = item_views(items@);
    let mut rows: Vec<SectionRow> = Vec::new();
    let mut i: usize = 0;
    while i < items.len()
        invariant
            i <= items@.len(),
            agent_texts.wf(),
            views == item_views(items@),
            setting == (RowSetting {
                is_stack_review,
                edited: edited@.map_values(|key: ReviewCommentKey| key@),
                agent_texts: agent_texts@,
                loading: loading@,
                has_user_avatar,
            }),
            rows@.len() == i,
            forall|j: int|
                0 <= j < i ==> is_row_for(#[trigger] rows@[j], views[j], j as nat, setting),
        decreases items.len() - i,
    {
        assert(views[i as int] == items@[i as int]@);
        let row = match &items[i] {
            StackReviewThreadItem::Comment { comment, reply_metadata, .. } => {
                let agent_loading = match &comment.record_id {
                    Some(record_id) => is_text_among(loading.as_slice(), record_id.as_str()),
                    None => false,
                };
                let responses = agent_responses(comment, agent_texts);
                let is_editing = contains_key(edited, &comment.routing_key());
                SectionRow::Comment(
                    render_comment_row(
                        comment,
                        i,
                        reply_metadata,
                        is_stack_review,
                        &responses,
                        agent_loading,
                        is_editing,
                        has_user_avatar,
                    ),
                )
            },
            StackReviewThreadItem::Composer { depth, target_metadata } => SectionRow::Composer(
                render_reply_composer(target_metadata, *depth, is_stack_review),
            ),
        };
        assert(is_row_for(row, views[i as int], i as nat, setting));
        rows.push(row);
        i += 1;
    }
    rows
}

/// What an overlay shows.
#[derive(Clone, Debug)]
pub struct OverlayContent {
    /// The lines that it is for, where they are told.
    pub line_label: Option<String>,
    /// Whether the prompt for a new comment is on top.
    pub shows_prompt: bool,
    /// The comments, where there are any.
    pub comments: Option<CommentsSection>,
}

/// The comments in an overlay.
#[derive(Clone, Debug)]
pub struct CommentsSection {
    pub heading: String,
    /// Whether the comments can be folded away.
    pub can_toggle: bool,
    pub expanded: bool,
    /// The rows, where the comments are not folded away.
    pub rows: Vec<SectionRow>,
}

/// How an overlay stands: whether its comments are shown, whether something is being written in
/// it, and what that replies to.
pub struct OverlayStand {
    pub expanded: bool,
    pub composer_visible: bool,
    pub reply_to: Option<usize>,
    pub reply_to_record_id: Option<Seq<char>>,
    pub edited: Seq<CommentKeyView>,
    pub has_user_avatar: bool,
}

/// How the overlay at a hunk stands. On the other side of a split diff nothing is being written.
pub open spec fn overlay_stand(
    editor: Editor,
    key: DiffHunkKey,
    snapshot: ReviewSnapshot,
    is_mirrored_companion: bool,
) -> OverlayStand {
    let overlays = editor.diff_review_overlays@;
    let stand = match overlay_at(overlays, key, snapshot) {
        Some(at) => OverlayStand {
            expanded: overlays[at].comments_expanded,
            composer_visible: overlays[at].composer_visible,
            reply_to: overlays[at].pending_reply_to,
            reply_to_record_id: opt_string_view(overlays[at].pending_reply_to_record_id),
            edited: edit_keys(overlays[at]),
            has_user_avatar: overlays[at].user_avatar_uri is Some,
        },
        None => OverlayStand {
            expanded: true,
            composer_visible: true,
            reply_to: None,
            reply_to_record_id: None,
            edited: Seq::empty(),
            has_user_avatar: false,
        },
    };
    if is_mirrored_companion {
        OverlayStand {
            composer_visible: false,
            reply_to: None,
            reply_to_record_id: None,
            edited: Seq::empty(),
            ..stand
        }
    } else {
        stand
    }
}

/// What is replied to in an overlay in which something is being written.
pub open spec fn stand_reference(stand: OverlayStand) -> Option<CommentKeyView> {
    if stand.composer_visible {
        pending_reference(stand.reply_to, stand.reply_to_record_id)
    } else {
        None
    }
}

/// Whether `section` shows the comments of an overlay.
pub open spec fn is_section_of(
    section: CommentsSection,
    editor: Editor,
    comments: Seq<StoredReviewComment>,
    stand: OverlayStand,
) -> bool {
    &&& section.heading@ == comments_heading(comments.len())
    &&& section.can_toggle == !editor.is_stack_review
    &&& section.expanded == (stand.expanded || editor.is_stack_review)
    &&& if section.expanded {
        are_rows_for(
            section.rows@,
            thread_items(comments, stand_reference(stand)),
            RowSetting {
                is_stack_review: editor.is_stack_review,
                edited: stand.edited,
                agent_texts: editor.agent.texts@,
                loading: editor.agent.loading_record_ids@,
                has_user_avatar: stand.has_user_avatar,
            },
        )
    } else {
        section.rows@.len() == 0
    }
}

/// Whether `content` is what the overlay at a hunk shows.
pub open spec fn is_content_of(
    content: OverlayContent,
    editor: Editor,
    key: DiffHunkKey,
    snapshot: ReviewSnapshot,
    line_ranges: Seq<(u32, u32)>,
    is_mirrored_companion: bool,
) -> bool {
    let stand = overlay_stand(editor, key, snapshot, is_mirrored_companion);
    let comments = by_time(hunk_comments(editor.hunks(), key, snapshot));
    &&& opt_string_view(content.line_label) == if overlay_at(
        editor.diff_review_overlays@,
        key,
        snapshot,
    ) is Some {
        line_ranges_label(line_ranges)
    } else {
        None
    }
    &&& content.shows_prompt == (stand.composer_visible && stand.reply_to is None
        && stand.reply_to_record_id is None)
    &&& match content.comments {
        Some(section) => comments.len() > 0 && is_section_of(section, editor, comments, stand),
        None => comments.len() == 0,
    }
}

fn copied_keys(keys: &Vec<ReviewCommentKey>) -> (copies: Vec<ReviewCommentKey>)
    ensures
        copies@ == keys@,
{
    let mut copies: Vec<ReviewCommentKey> = Vec::new();
    let mut i: usize = 0;
    while i < keys.len()
        invariant
            i <= keys@.len(),
            copies@ == keys@.take(i as int),
        decreases keys.len() - i,
    {
        copies.push(keys[i].copied());
        assert(keys@.take(i + 1) =~= keys@.take(i as int).push(keys@[i as int]));
        i += 1;
    }
    assert(keys@.take(i as int) =~= keys@);
    copies
}

impl Editor {
    /// What the overlay at a hunk shows. `line_ranges` holds, for each buffer, the first and the
    /// last of the lines that it is for.
    pub fn render_diff_review_overlay(
        &self,
        hunk_key: &DiffHunkKey,
        line_ranges: &Vec<(u32, u32)>,
        is_mirrored_companion: bool,
        snapshot: &ReviewSnapshot,
    ) -> (content: OverlayContent)
        requires
            self.wf(),
        ensures
            is_content_of(
                content,
                *self,
                *hunk_key,
                *snapshot,
                line_ranges@,
                is_mirrored_companion,
            ),
    {
        let mut line_label: Option<String> = None;
        let mut expanded = true;
        let mut composer_visible = true;
        let mut reply_to: Option<usize> = None;
        let mut reply_to_record_id: Option<String> = None;
        let mut edited: Vec<ReviewCommentKey> = Vec::new();
        let mut has_user_avatar = false;
        let ghost stand = overlay_stand(*self, *hunk_key, *snapshot, is_mirrored_companion);
        assert(edited@.map_values(|key: ReviewCommentKey| key@) =~= Seq::empty());
        match self.find_overlay(hunk_key, snapshot) {
            Some(at) => {
                line_label = format_line_ranges(line_ranges);
                expanded = self.diff_review_overlays[at].comments_expanded;
                composer_visible = self.diff_review_overlays[at].composer_visible;
                reply_to = self.diff_review_overlays[at].pending_reply_to;
                reply_to_record_id = copied_text(
                    &self.diff_review_overlays[at].pending_reply_to_record_id,
                );
                edited = copied_keys(&self.diff_review_overlays[at].inline_edits);
                has_user_avatar = self.diff_review_overlays[at].user_avatar_uri.is_some();
            },
            None => {},
        }
        if !stack_review_overlay_shows_transient_state(is_mirrored_companion) {
            composer_visible = false;
            reply_to = None;
            reply_to_record_id = None;
            edited = Vec::new();
            assert(edited@.map_values(|key: ReviewCommentKey| key@) =~= Seq::empty());
        }
        assert(edited@.map_values(|key: ReviewCommentKey| key@) == stand.edited);
        let comments = self.comments_for_hunk(hunk_key, snapshot);
        let count: usize = comments.len();
        let shows_prompt = composer_visible && reply_to.is_none() && reply_to_record_id.is_none();
        let section = if count > 0 {
            let items = if composer_visible {
                stack_review_thread_items(comments, reply_to, opt_str(&reply_to_record_id))
            } else {
                stack_review_thread_items(comments, None, None)
            };
            let expanded = expanded || self.is_stack_review;
            let rows = if expanded {
                render_comments_section(
                    &items,
                    self.is_stack_review,
                    &edited,
                    &self.agent.texts,
                    &self.agent.loading_record_ids,
                    has_user_avatar,
                )
            } else {
                Vec::new()
            };
            Some(
                CommentsSection {
                    heading: write_comments_heading(count),
                    can_toggle: !self.is_stack_review,
                    expanded,
                    rows,
                },
            )
        } else {
            None
        };
        OverlayContent { line_label, shows_prompt, comments: section }
    }
}

/// A comment from GitHub never has a button that changes or deletes it.
pub proof fn github_comments_stay_as_they_are(comment: StoredReviewComment, is_stack_review: bool)
    requires
        comment.source == StackReviewCommentSource::Github,
    ensures
        !row_buttons(comment, false, is_stack_review).contains(RowButton::Edit),
        !row_buttons(comment, false, is_stack_review).contains(RowButton::Delete),
{
    let buttons = row_buttons(comment, false, is_stack_review);
    assert forall|i: int| 0 <= i < buttons.len() implies buttons[i] != RowButton::Edit && buttons[i]
        != RowButton::Delete by {}
}

} // verus!
