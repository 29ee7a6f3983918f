//! What a message to an agent mentions.

use crate::text::{opt_string_view, same_text};
use vstd::prelude::*;
use vstd::string::*;

verus! {

/// A side of a reviewed diff.
#[derive(Clone, Copy, Debug, PartialEq, Eq, Hash, Structural)]
pub enum StackReviewMentionSide {
    Left,
    Right,
    TopLevel,
}

/// The word for a side.
pub open spec fn mention_side_word(side: StackReviewMentionSide) -> Seq<char> {
    match side {
        StackReviewMentionSide::Left => "LEFT"@,
        StackReviewMentionSide::Right => "RIGHT"@,
        StackReviewMentionSide::TopLevel => "TOP_LEVEL"@,
    }
}

impl StackReviewMentionSide {
    /// The side that a word names.
    pub fn parse(value: &str) -> (side: Option<Self>)
        ensures
            match side {
                Some(side) => value@ == mention_side_word(side),
                None => forall|side: StackReviewMentionSide|
                    value@ != #[trigger] mention_side_word(side),
            },
    {
        if same_text(value, "LEFT") {
            Some(StackReviewMentionSide::Left)
        } else if same_text(value, "RIGHT") {
            Some(StackReviewMentionSide::Right)
        } else if same_text(value, "TOP_LEVEL") {
            Some(StackReviewMentionSide::TopLevel)
        } else {
            None
        }
    }

    /// The word for the side.
    pub fn as_str(self) -> (word: &'static str)
        ensures
            word@ == mention_side_word(self),
    {
        match self {
            StackReviewMentionSide::Left => "LEFT",
            StackReviewMentionSide::Right => "RIGHT",
            StackReviewMentionSide::TopLevel => "TOP_LEVEL",
        }
    }

    /// The word for the side.
    pub fn to_string(&self) -> (word: String)
        ensures
            word@ == mention_side_word(*self),
    {
        self.as_str().to_owned()
    }
}

/// A range of lines, both ends belonging to it.
#[derive(Clone, Copy, Debug, PartialEq, Eq, Hash, Structural)]
pub struct LineRange {
    pub start: u32,
    pub end: u32,
}

/// What identified a rule, from before rules became skills.
#[derive(Clone, Debug, PartialEq, Eq, Hash)]
pub enum RuleId {
    /// A rule of the user's.
    User(String),
    /// Anything else, as the JSON in which it was kept, with the id of the user's rule that is in
    /// it, if there is one.
    Other { json: String, user_uuid: Option<String> },
}

/// Something that a message to an agent mentions.
#[derive(Clone, Debug, PartialEq, Eq, Hash)]
pub enum MentionUri {
    File { abs_path: String },
    PastedImage { name: String },
    Directory { abs_path: String },
    Symbol { abs_path: String, name: String, line_range: LineRange },
    Thread { id: String, name: String },
    /// Kept so that threads from before rules became skills can still be read.
    Rule { id: RuleId, name: String },
    Diagnostics { include_errors: bool, include_warnings: bool },
    Selection { abs_path: Option<String>, line_range: LineRange, column: Option<u32> },
    Fetch { url: String },
    TerminalSelection { line_count: u32 },
    GitDiff { base_ref: String },
    MergeConflict { file_path: String },
    Skill { name: String, source: String, skill_file_path: String },
    StackReview {
        storage_key: String,
        project_identity: String,
        base_oid: String,
        head_oid: String,
        path: Option<String>,
        side: StackReviewMentionSide,
        line_range: Option<LineRange>,
        selected_record_id: Option<String>,
        root_record_id: Option<String>,
    },
}

/// A rule's id as plain values.
pub enum RuleIdView {
    User(Seq<char>),
    Other { json: Seq<char>, user_uuid: Option<Seq<char>> },
}

/// A mention as plain values.
#[verifier::ext_equal]
pub enum MentionView {
    File { abs_path: Seq<char> },
    PastedImage { name: Seq<char> },
    Directory { abs_path: Seq<char> },
    Symbol { abs_path: Seq<char>, name: Seq<char>, line_range: LineRange },
    Thread { id: Seq<char>, name: Seq<char> },
    Rule { id: RuleIdView, name: Seq<char> },
    Diagnostics { include_errors: bool, include_warnings: bool },
    Selection { abs_path: Option<Seq<char>>, line_range: LineRange, column: Option<u32> },
    Fetch { url: Seq<char> },
    TerminalSelection { line_count: u32 },
    GitDiff { base_ref: Seq<char> },
    MergeConflict { file_path: Seq<char> },
    Skill { name: Seq<char>, source: Seq<char>, skill_file_path: Seq<char> },
    StackReview(StackReviewView),
}

/// A mention of a review as plain values.
#[verifier::ext_equal]
pub struct StackReviewView {
    pub storage_key: Seq<char>,
    pub project_identity: Seq<char>,
    pub base_oid: Seq<char>,
    pub head_oid: Seq<char>,
    pub path: Option<Seq<char>>,
    pub side: StackReviewMentionSide,
    pub line_range: Option<LineRange>,
    pub selected_record_id: Option<Seq<char>>,
    pub root_record_id: Option<Seq<char>>,
}

impl View for RuleId {
    type V = RuleIdView;

    open spec fn view(&self) -> RuleIdView {
        match self {
            RuleId::User(uuid) => RuleIdView::User(uuid@),
            RuleId::Other { json, user_uuid } => RuleIdView::Other {
                json: json@,
                user_uuid: opt_string_view(*user_uuid),
            },
        }
    }
}

impl View for MentionUri {
    type V = MentionView;

    open spec fn view(&self) -> MentionView {
        match *self {
            MentionUri::File { abs_path } => MentionView::File { abs_path: abs_path@ },
            MentionUri::PastedImage { name } => MentionView::PastedImage { name: name@ },
            MentionUri::Directory { abs_path } => MentionView::Directory { abs_path: abs_path@ },
            MentionUri::Symbol { abs_path, name, line_range } => MentionView::Symbol {
                abs_path: abs_path@,
                name: name@,
                line_range,
            },
            MentionUri::Thread { id, name } => MentionView::Thread { id: id@, name: name@ },
            MentionUri::Rule { id, name } => MentionView::Rule { id: id@, name: name@ },
            MentionUri::Diagnostics { include_errors, include_warnings } =>
                MentionView::Diagnostics { include_errors, include_warnings },
            MentionUri::Selection { abs_path, line_range, column } => MentionView::Selection {
                abs_path: opt_string_view(abs_path),
                line_range,
                column,
            },
            MentionUri::Fetch { url } => MentionView::Fetch { url: url@ },
            MentionUri::TerminalSelection { line_count } => MentionView::TerminalSelection {
                line_count,
            },
            MentionUri::GitDiff { base_ref } => MentionView::GitDiff { base_ref: base_ref@ },
            MentionUri::MergeConflict { file_path } => MentionView::MergeConflict {
                file_path: file_path@,
            },
            MentionUri::Skill { name, source, skill_file_path } => MentionView::Skill {
                name: name@,
                source: source@,
                skill_file_path: skill_file_path@,
            },
            MentionUri::StackReview {
                storage_key,
                project_identity,
                base_oid,
                head_oid,
                path,
                side,
                line_range,
                selected_record_id,
                root_record_id,
            } => MentionView::StackReview(
                StackReviewView {
                    storage_key: storage_key@,
                    project_identity: project_identity@,
                    base_oid: base_oid@,
                    head_oid: head_oid@,
                    path: opt_string_view(path),
                    side,
                    line_range,
                    selected_record_id: opt_string_view(selected_record_id),
                    root_record_id: opt_string_view(root_record_id),
                },
            ),
        }
    }
}

} // verus!
