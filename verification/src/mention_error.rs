//! Why a text mentions nothing.

use crate::decimal::{describe_int_error, int_error_text};
use crate::debug_text::{debug_quoted, quote_for_debug};
use vstd::prelude::*;
use vstd::string::*;

verus! {

/// Why a text mentions nothing.
#[derive(Clone, Copy, Debug, PartialEq, Eq, Structural)]
pub enum MentionErrorKind {
    InvalidUrl,
    InvalidAbsolutePath,
    InvalidHyperlinkPath,
    InvalidQueryParameter,
    TooManyQueryPairs,
    MissingThreadName,
    MissingRuleName,
    MissingUntitledFragment,
    MissingSelectionFragment,
    LineRangeStart,
    LineRangeEnd,
    LineNotOneBased,
    MissingSymbolPath,
    MissingFilePath,
    MissingDirectoryPath,
    MissingSelectionPath,
    DuplicateSkillName,
    DuplicateSkillSource,
    DuplicateSkillPath,
    MissingSkillName,
    MissingSkillSource,
    MissingSkillPath,
    StackReviewFragment,
    UnknownStackReviewParameter,
    DuplicateStackReviewParameter,
    StackReviewPathNotRelative,
    EmptySelectedRecordId,
    EmptyRootRecordId,
    UnpairedRecordIds,
    InvalidStackReviewLine,
    StackReviewLineNotOneBased,
    StackReviewLinesReversed,
    IncompleteStackReviewLines,
    MissingStackReviewSide,
    InvalidStackReviewSide,
    StackReviewLinesWithoutPath,
    TopLevelWithAnchor,
    MissingStorageKey,
    MissingProjectIdentity,
    MissingBase,
    MissingHead,
    NotCanonical,
    InvalidZedUrl,
    UnrecognizedScheme,
}

/// Why a text mentions nothing, with what is to be told of it.
#[derive(Clone, Debug, PartialEq, Eq)]
pub struct MentionError {
    pub kind: MentionErrorKind,
    /// The text, the scheme, the parameter or the number that the error is about, where it is about
    /// one; for a text that is no URL, the words for why it is none.
    pub detail: String,
}

/// A mention's error as plain values.
#[verifier::ext_equal]
pub struct MentionErrorView {
    pub kind: MentionErrorKind,
    pub detail: Seq<char>,
}

impl View for MentionError {
    type V = MentionErrorView;

    open spec fn view(&self) -> MentionErrorView {
        MentionErrorView { kind: self.kind, detail: self.detail@ }
    }
}

/// An error that names nothing.
pub open spec fn plain_error(kind: MentionErrorKind) -> MentionErrorView {
    MentionErrorView { kind, detail: Seq::empty() }
}

/// An error that names nothing.
pub fn plain(kind: MentionErrorKind) -> (error: MentionError)
    ensures
        error@ == plain_error(kind),
{
    MentionError { kind, detail: String::new() }
}

/// What a mention's error says.
pub open spec fn mention_message(error: MentionErrorView) -> Seq<char> {
    match error.kind {
        MentionErrorKind::InvalidUrl => error.detail,
        MentionErrorKind::InvalidAbsolutePath => "Invalid absolute path mention URI: "@
            + error.detail,
        MentionErrorKind::InvalidHyperlinkPath => "Invalid hyperlink path target: "@ + error.detail,
        MentionErrorKind::InvalidQueryParameter => "invalid query parameter"@,
        MentionErrorKind::TooManyQueryPairs => "too many query pairs"@,
        MentionErrorKind::MissingThreadName => "Missing thread name"@,
        MentionErrorKind::MissingRuleName => "Missing rule name"@,
        MentionErrorKind::MissingUntitledFragment => "Missing fragment for untitled buffer selection"@,
        MentionErrorKind::MissingSelectionFragment => "Missing fragment for selection"@,
        MentionErrorKind::LineRangeStart => "Parsing line range start"@,
        MentionErrorKind::LineRangeEnd => "Parsing line range end"@,
        MentionErrorKind::LineNotOneBased => "Line numbers should be 1-based"@,
        MentionErrorKind::MissingSymbolPath => "Missing path for symbol"@,
        MentionErrorKind::MissingFilePath => "Missing path for file"@,
        MentionErrorKind::MissingDirectoryPath => "Missing path for directory"@,
        MentionErrorKind::MissingSelectionPath => "Missing path for selection"@,
        MentionErrorKind::DuplicateSkillName => "duplicate skill name query parameter"@,
        MentionErrorKind::DuplicateSkillSource => "duplicate skill source query parameter"@,
        MentionErrorKind::DuplicateSkillPath => "duplicate skill file path query parameter"@,
        MentionErrorKind::MissingSkillName => "missing skill name"@,
        MentionErrorKind::MissingSkillSource => "missing skill source"@,
        MentionErrorKind::MissingSkillPath => "missing skill file path"@,
        MentionErrorKind::StackReviewFragment => "Stack Review mention URI must not have a fragment"@,
        MentionErrorKind::UnknownStackReviewParameter => "unknown Stack Review query parameter "@
            + debug_quoted(error.detail),
        MentionErrorKind::DuplicateStackReviewParameter => "duplicate Stack Review "@ + error.detail
            + " query parameter"@,
        MentionErrorKind::StackReviewPathNotRelative => "Stack Review path must be relative and slash-normalized"@,
        MentionErrorKind::EmptySelectedRecordId => "Stack Review selected record ID must not be empty"@,
        MentionErrorKind::EmptyRootRecordId => "Stack Review root record ID must not be empty"@,
        MentionErrorKind::UnpairedRecordIds => "Stack Review selected and root record IDs must be provided together"@,
        MentionErrorKind::InvalidStackReviewLine => int_error_text(error.detail),
        MentionErrorKind::StackReviewLineNotOneBased => "Stack Review line range must be 1-based"@,
        MentionErrorKind::StackReviewLinesReversed => "Stack Review line range start must not exceed its end"@,
        MentionErrorKind::IncompleteStackReviewLines => "Stack Review line range requires both line_start and line_end"@,
        MentionErrorKind::MissingStackReviewSide => "missing Stack Review side"@,
        MentionErrorKind::InvalidStackReviewSide => "invalid Stack Review side"@,
        MentionErrorKind::StackReviewLinesWithoutPath => "Stack Review line range requires a path"@,
        MentionErrorKind::TopLevelWithAnchor => "top-level Stack Review mention cannot have a file anchor"@,
        MentionErrorKind::MissingStorageKey => "missing Stack Review storage_key"@,
        MentionErrorKind::MissingProjectIdentity => "missing Stack Review project identity"@,
        MentionErrorKind::MissingBase => "missing Stack Review base"@,
        MentionErrorKind::MissingHead => "missing Stack Review head"@,
        MentionErrorKind::NotCanonical => "Stack Review mention URI is not canonical"@,
        MentionErrorKind::InvalidZedUrl => "invalid zed url: "@ + debug_quoted(error.detail),
        MentionErrorKind::UnrecognizedScheme => "unrecognized scheme "@ + debug_quoted(
            error.detail,
        ),
    }
}

impl MentionError {
    /// The error in words.
    pub fn message(&self) -> (message: String)
        ensures
            message@ == mention_message(self@),
    {
        match self.kind {
            MentionErrorKind::InvalidUrl => self.detail.clone(),
            MentionErrorKind::InvalidAbsolutePath =>
                "Invalid absolute path mention URI: ".to_owned().concat(self.detail.as_str()),
            MentionErrorKind::InvalidHyperlinkPath =>
                "Invalid hyperlink path target: ".to_owned().concat(self.detail.as_str()),
            MentionErrorKind::InvalidQueryParameter => "invalid query parameter".to_owned(),
            MentionErrorKind::TooManyQueryPairs => "too many query pairs".to_owned(),
            MentionErrorKind::MissingThreadName => "Missing thread name".to_owned(),
            MentionErrorKind::MissingRuleName => "Missing rule name".to_owned(),
            MentionErrorKind::MissingUntitledFragment =>
                "Missing fragment for untitled buffer selection".to_owned(),
            MentionErrorKind::MissingSelectionFragment =>
                "Missing fragment for selection".to_owned(),
            MentionErrorKind::LineRangeStart => "Parsing line range start".to_owned(),
            MentionErrorKind::LineRangeEnd => "Parsing line range end".to_owned(),
            MentionErrorKind::LineNotOneBased => "Line numbers should be 1-based".to_owned(),
            MentionErrorKind::MissingSymbolPath => "Missing path for symbol".to_owned(),
            MentionErrorKind::MissingFilePath => "Missing path for file".to_owned(),
            MentionErrorKind::MissingDirectoryPath => "Missing path for directory".to_owned(),
            MentionErrorKind::MissingSelectionPath => "Missing path for selection".to_owned(),
            MentionErrorKind::DuplicateSkillName =>
                "duplicate skill name query parameter".to_owned(),
            MentionErrorKind::DuplicateSkillSource =>
                "duplicate skill source query parameter".to_owned(),
            MentionErrorKind::DuplicateSkillPath =>
                "duplicate skill file path query parameter".to_owned(),
            MentionErrorKind::MissingSkillName => "missing skill name".to_owned(),
            MentionErrorKind::MissingSkillSource => "missing skill source".to_owned(),
            MentionErrorKind::MissingSkillPath => "missing skill file path".to_owned(),
            MentionErrorKind::StackReviewFragment =>
                "Stack Review mention URI must not have a fragment".to_owned(),
            MentionErrorKind::UnknownStackReviewParameter => {
                let quoted = quote_for_debug(self.detail.as_str());
                "unknown Stack Review query parameter ".to_owned().concat(quoted.as_str())
            },
            MentionErrorKind::DuplicateStackReviewParameter =>
                "duplicate Stack Review ".to_owned().concat(self.detail.as_str()).concat(
                " query parameter",
            ),
            MentionErrorKind::StackReviewPathNotRelative =>
                "Stack Review path must be relative and slash-normalized".to_owned(),
            MentionErrorKind::EmptySelectedRecordId =>
                "Stack Review selected record ID must not be empty".to_owned(),
            MentionErrorKind::EmptyRootRecordId =>
                "Stack Review root record ID must not be empty".to_owned(),
            MentionErrorKind::UnpairedRecordIds =>
                "Stack Review selected and root record IDs must be provided together".to_owned(),
            MentionErrorKind::InvalidStackReviewLine => describe_int_error(self.detail.as_str()),
            MentionErrorKind::StackReviewLineNotOneBased =>
                "Stack Review line range must be 1-based".to_owned(),
            MentionErrorKind::StackReviewLinesReversed =>
                "Stack Review line range start must not exceed its end".to_owned(),
            MentionErrorKind::IncompleteStackReviewLines =>
                "Stack Review line range requires both line_start and line_end".to_owned(),
            MentionErrorKind::MissingStackReviewSide => "missing Stack Review side".to_owned(),
            MentionErrorKind::InvalidStackReviewSide => "invalid Stack Review side".to_owned(),
            MentionErrorKind::StackReviewLinesWithoutPath =>
                "Stack Review line range requires a path".to_owned(),
            MentionErrorKind::TopLevelWithAnchor =>
                "top-level Stack Review mention cannot have a file anchor".to_owned(),
            MentionErrorKind::MissingStorageKey => "missing Stack Review storage_key".to_owned(),
            MentionErrorKind::MissingProjectIdentity =>
                "missing Stack Review project identity".to_owned(),
            MentionErrorKind::MissingBase => "missing Stack Review base".to_owned(),
            MentionErrorKind::MissingHead => "missing Stack Review head".to_owned(),
            MentionErrorKind::NotCanonical =>
                "Stack Review mention URI is not canonical".to_owned(),
            MentionErrorKind::InvalidZedUrl => {
                let quoted = quote_for_debug(self.detail.as_str());
                "invalid zed url: ".to_owned().concat(quoted.as_str())
            },
            MentionErrorKind::UnrecognizedScheme => {
                let quoted = quote_for_debug(self.detail.as_str());
                "unrecognized scheme ".to_owned().concat(quoted.as_str())
            },
        }
    }
}

} // verus!
