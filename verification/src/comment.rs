//! Review comments and the records in which they are kept.

use crate::text::{find_char, opt_string_view, same_text};
use crate::decimal::{decimal_text, push_decimal};
use crate::trim::{trim_text, trimmed};
use vstd::prelude::*;
use vstd::string::*;

verus! {

pub const COMMENT_SCHEMA_VERSION: u32 = 1;

/// Who wrote a comment.
#[derive(Clone, Debug, PartialEq, Eq)]
pub struct StackReviewCommentAuthor {
    pub name: String,
    pub login: Option<String>,
}

impl Default for StackReviewCommentAuthor {
    fn default() -> (author: Self)
        ensures
            author.name@ == "You"@,
            author.login is None,
    {
        StackReviewCommentAuthor { name: "You".to_owned(), login: None }
    }
}

impl StackReviewCommentAuthor {
    /// A copy of the author.
    pub fn copied(&self) -> (author: Self)
        ensures
            author == *self,
    {
        StackReviewCommentAuthor { name: self.name.clone(), login: copied_text(&self.login) }
    }
}

/// Where a comment comes from.
#[derive(Clone, Copy, Debug, PartialEq, Eq, Structural)]
pub enum StackReviewCommentSource {
    LocalHuman,
    LocalAgent,
    Github,
}

impl Default for StackReviewCommentSource {
    fn default() -> (source: Self)
        ensures
            source == StackReviewCommentSource::LocalHuman,
    {
        StackReviewCommentSource::LocalHuman
    }
}

/// A comment at a range of a file.
#[derive(Clone, Debug, PartialEq, Eq)]
pub struct StackReviewComment {
    pub id: usize,
    pub record_id: Option<String>,
    pub path: String,
    pub start_row: u32,
    pub start_column: u32,
    pub end_row: u32,
    pub end_column: u32,
    pub body: String,
    pub created_at: String,
    pub resolved: bool,
    pub author: StackReviewCommentAuthor,
    pub source: StackReviewCommentSource,
    pub reply_to: Option<usize>,
    pub reply_to_record_id: Option<String>,
}

impl StackReviewComment {
    /// A copy of the comment.
    pub fn copied(&self) -> (comment: Self)
        ensures
            comment == *self,
    {
        StackReviewComment {
            id: self.id,
            record_id: copied_text(&self.record_id),
            path: self.path.clone(),
            start_row: self.start_row,
            start_column: self.start_column,
            end_row: self.end_row,
            end_column: self.end_column,
            body: self.body.clone(),
            created_at: self.created_at.clone(),
            resolved: self.resolved,
            author: self.author.copied(),
            source: self.source,
            reply_to: self.reply_to,
            reply_to_record_id: copied_text(&self.reply_to_record_id),
        }
    }
}

/// The side of a diff that a comment is on.
#[derive(Clone, Copy, Debug, PartialEq, Eq, PartialOrd, Ord, Hash, Structural)]
pub enum StackReviewCommentSide {
    Left,
    Right,
    TopLevel,
}

/// The place of a comment on GitHub.
#[derive(Clone, Copy, Debug, PartialEq, Eq, Structural)]
pub enum StackReviewGitHubCommentKind {
    Inline,
    Review,
    Conversation,
}

/// What identifies a comment on GitHub.
#[derive(Clone, Debug, PartialEq, Eq)]
pub struct StackReviewGitHubCommentIdentity {
    pub pull_request_number: u32,
    pub github_id: String,
    pub url: String,
    pub kind: StackReviewGitHubCommentKind,
    pub commit_oid: Option<String>,
    pub original_commit_oid: Option<String>,
    pub original_line: Option<u32>,
}

/// A comment as it is kept, one record to a file.
#[derive(Clone, Debug, PartialEq, Eq)]
pub struct StackReviewCommentRecord {
    pub schema_version: u32,
    pub id: String,
    pub base_oid: String,
    pub head_oid: String,
    pub path: Option<String>,
    pub side: StackReviewCommentSide,
    pub start_row: Option<u32>,
    pub start_column: Option<u32>,
    pub end_row: Option<u32>,
    pub end_column: Option<u32>,
    pub body: String,
    pub author: StackReviewCommentAuthor,
    pub source: StackReviewCommentSource,
    pub reply_to: Option<String>,
    pub created_at: String,
    pub updated_at: String,
    pub outdated: bool,
    pub resolved: bool,
    pub local_resolution: Option<bool>,
    pub github: Option<StackReviewGitHubCommentIdentity>,
}

/// What makes a comment record unusable.
#[derive(Clone, Copy, Debug, PartialEq, Eq, Structural)]
pub enum CommentRecordError {
    UnsupportedSchema(u32),
    UnusableId,
    LocalIdNotUuid,
    OtherSnapshot,
    EmptyBody,
    RepliesToItself,
    InlineWithoutRange,
    TopLevelWithRange,
    GithubWithoutIdentity,
    LocalWithGithubIdentity,
}

/// What a record's error says.
pub open spec fn comment_record_message(error: CommentRecordError) -> Seq<char> {
    match error {
        CommentRecordError::UnsupportedSchema(version) => "unsupported comment schema "@
            + decimal_text(version as nat),
        CommentRecordError::UnusableId => "comment id is empty or contains a path separator"@,
        CommentRecordError::LocalIdNotUuid => "local comment id must be a UUID"@,
        CommentRecordError::OtherSnapshot => "comment does not match the selected Git snapshot"@,
        CommentRecordError::EmptyBody => "comment body is empty"@,
        CommentRecordError::RepliesToItself => "comment cannot reply to itself"@,
        CommentRecordError::InlineWithoutRange => "inline comment is missing its path or range"@,
        CommentRecordError::TopLevelWithRange => "top-level comment cannot contain an inline range"@,
        CommentRecordError::GithubWithoutIdentity => "GitHub comment is missing source identity"@,
        CommentRecordError::LocalWithGithubIdentity => "local comment cannot contain GitHub source identity"@,
    }
}

impl CommentRecordError {
    /// The error in words.
    pub fn message(&self) -> (message: String)
        ensures
            message@ == comment_record_message(*self),
    {
        match self {
            CommentRecordError::UnsupportedSchema(version) => {
                let mut message = "unsupported comment schema ".to_owned();
                push_decimal(&mut message, *version as u64);
                message
            },
            CommentRecordError::UnusableId =>
                "comment id is empty or contains a path separator".to_owned(),
            CommentRecordError::LocalIdNotUuid => "local comment id must be a UUID".to_owned(),
            CommentRecordError::OtherSnapshot =>
                "comment does not match the selected Git snapshot".to_owned(),
            CommentRecordError::EmptyBody => "comment body is empty".to_owned(),
            CommentRecordError::RepliesToItself => "comment cannot reply to itself".to_owned(),
            CommentRecordError::InlineWithoutRange =>
                "inline comment is missing its path or range".to_owned(),
            CommentRecordError::TopLevelWithRange =>
                "top-level comment cannot contain an inline range".to_owned(),
            CommentRecordError::GithubWithoutIdentity =>
                "GitHub comment is missing source identity".to_owned(),
            CommentRecordError::LocalWithGithubIdentity =>
                "local comment cannot contain GitHub source identity".to_owned(),
        }
    }
}

/// A copy of a text that may be absent.
pub fn copied_text(text: &Option<String>) -> (copy: Option<String>)
    ensures
        copy == *text,
{
    match text {
        Some(text) => Some(text.clone()),
        None => None,
    }
}

/// Whether `c` is a hexadecimal digit.
pub open spec fn is_hex_digit(c: char) -> bool {
    '0' <= c <= '9' || 'A' <= c <= 'F' || 'a' <= c <= 'f'
}

/// Whether `text` is a UUID in its hyphenated form: 32 hexadecimal digits in groups of 8, 4, 4, 4
/// and 12.
pub open spec fn is_hyphenated_uuid(text: Seq<char>) -> bool {
    &&& text.len() == 36
    &&& forall|i: int|
        0 <= i < 36 ==> if i == 8 || i == 13 || i == 18 || i == 23 {
            #[trigger] text[i] == '-'
        } else {
            is_hex_digit(text[i])
        }
}

/// Whether `c` is the letter or mark `lower`, be it capital or not.
pub open spec fn is_letter(c: char, lower: char) -> bool {
    c == lower || ('A' <= c <= 'Z' && c as int + 32 == lower as int)
}

/// Whether `text` begins a URN that is a UUID.
pub open spec fn is_urn_prefix(text: Seq<char>) -> bool {
    &&& text.len() == 9
    &&& is_letter(text[0], 'u')
    &&& is_letter(text[1], 'r')
    &&& is_letter(text[2], 'n')
    &&& text[3] == ':'
    &&& is_letter(text[4], 'u')
    &&& is_letter(text[5], 'u')
    &&& is_letter(text[6], 'i')
    &&& is_letter(text[7], 'd')
    &&& text[8] == ':'
}

/// Whether `text` is a UUID: 32 hexadecimal digits, or the hyphenated form, which may stand in
/// braces or behind `urn:uuid:`.
pub open spec fn reads_as_uuid(text: Seq<char>) -> bool {
    ||| text.len() == 32 && forall|i: int| 0 <= i < 32 ==> is_hex_digit(#[trigger] text[i])
    ||| is_hyphenated_uuid(text)
    ||| text.len() == 38 && text[0] == '{' && text[37] == '}' && is_hyphenated_uuid(
        text.subrange(1, 37),
    )
    ||| text.len() == 45 && is_urn_prefix(text.take(9)) && is_hyphenated_uuid(text.skip(9))
}

/// Calls [`uuid::Uuid::parse_str`] and says whether it succeeded: it does on the simple, the
/// hyphenated, the braced and the URN form, with hexadecimal digits and prefix in either case.
#[verifier::external_body]
pub(crate) fn is_uuid(text: &str) -> (is: bool)
    ensures
        is == reads_as_uuid(text@),
{
    uuid::Uuid::parse_str(text).is_ok()
}

/// A text that is a UUID is not empty and holds no separator of paths.
pub proof fn uuid_holds_no_separator(text: Seq<char>)
    requires
        reads_as_uuid(text),
    ensures
        text.len() > 0,
        !text.contains('/'),
        !text.contains('\\'),
{
    assert forall|i: int| 0 <= i < text.len() implies text[i] != '/' && text[i] != '\\' by {
        if text.len() == 38 {
            if 0 < i < 37 {
                assert(text.subrange(1, 37)[i - 1] == text[i]);
            }
        } else if text.len() == 45 {
            if i < 9 {
                assert(text.take(9)[i] == text[i]);
            } else {
                assert(text.skip(9)[i - 9] == text[i]);
            }
        }
    }
}

/// Whether a record gives a path and both ends of its range.
pub open spec fn has_inline_range(record: StackReviewCommentRecord) -> bool {
    &&& record.path matches Some(path) && path@.len() > 0
    &&& record.start_row is Some
    &&& record.start_column is Some
    &&& record.end_row is Some
    &&& record.end_column is Some
}

/// Whether a record gives neither a path nor any part of a range.
pub open spec fn has_no_range(record: StackReviewCommentRecord) -> bool {
    &&& record.path is None
    &&& record.start_row is None
    &&& record.start_column is None
    &&& record.end_row is None
    &&& record.end_column is None
}

/// The first thing that keeps a record from standing for a comment on the snapshot between
/// `base_oid` and `head_oid`.
pub open spec fn record_problem(
    record: StackReviewCommentRecord,
    base_oid: Seq<char>,
    head_oid: Seq<char>,
) -> Option<CommentRecordError> {
    let local = record.source != StackReviewCommentSource::Github;
    if record.schema_version != COMMENT_SCHEMA_VERSION {
        Some(CommentRecordError::UnsupportedSchema(record.schema_version))
    } else if record.id@.len() == 0 || record.id@.contains('/') || record.id@.contains('\\') {
        Some(CommentRecordError::UnusableId)
    } else if local && !reads_as_uuid(record.id@) {
        Some(CommentRecordError::LocalIdNotUuid)
    } else if record.base_oid@ != base_oid || record.head_oid@ != head_oid {
        Some(CommentRecordError::OtherSnapshot)
    } else if trimmed(record.body@).len() == 0 {
        Some(CommentRecordError::EmptyBody)
    } else if opt_string_view(record.reply_to) == Some(record.id@) {
        Some(CommentRecordError::RepliesToItself)
    } else if record.side != StackReviewCommentSide::TopLevel && !has_inline_range(record) {
        Some(CommentRecordError::InlineWithoutRange)
    } else if record.side == StackReviewCommentSide::TopLevel && !has_no_range(record) {
        Some(CommentRecordError::TopLevelWithRange)
    } else if !local && record.github is None {
        Some(CommentRecordError::GithubWithoutIdentity)
    } else if local && record.github is Some {
        Some(CommentRecordError::LocalWithGithubIdentity)
    } else {
        None
    }
}

/// The record of a comment on the new side of a file, as it is written first.
pub open spec fn inline_record(
    id: String,
    base_oid: String,
    head_oid: String,
    path: String,
    start_row: u32,
    start_column: u32,
    end_row: u32,
    end_column: u32,
    body: String,
    author: StackReviewCommentAuthor,
    source: StackReviewCommentSource,
    reply_to: Option<String>,
    timestamp: String,
) -> StackReviewCommentRecord {
    StackReviewCommentRecord {
        schema_version: COMMENT_SCHEMA_VERSION,
        id,
        base_oid,
        head_oid,
        path: Some(path),
        side: StackReviewCommentSide::Right,
        start_row: Some(start_row),
        start_column: Some(start_column),
        end_row: Some(end_row),
        end_column: Some(end_column),
        body,
        author,
        source,
        reply_to,
        created_at: timestamp,
        updated_at: timestamp,
        outdated: false,
        resolved: false,
        local_resolution: None,
        github: None,
    }
}

/// Whether a record counts as resolved: a local decision outranks the recorded one.
pub open spec fn counts_as_resolved(record: StackReviewCommentRecord) -> bool {
    match record.local_resolution {
        Some(local) => local,
        None => record.resolved,
    }
}

impl StackReviewCommentRecord {
    /// A record of a comment on the new side of a file.
    pub fn new_inline(
        id: String,
        base_oid: String,
        head_oid: String,
        path: String,
        start_row: u32,
        start_column: u32,
        end_row: u32,
        end_column: u32,
        body: String,
        author: StackReviewCommentAuthor,
        source: StackReviewCommentSource,
        reply_to: Option<String>,
        timestamp: String,
    ) -> (record: Self)
        ensures
            record == inline_record(
                id,
                base_oid,
                head_oid,
                path,
                start_row,
                start_column,
                end_row,
                end_column,
                body,
                author,
                source,
                reply_to,
                timestamp,
            ),
    {
        StackReviewCommentRecord {
            schema_version: COMMENT_SCHEMA_VERSION,
            id,
            base_oid,
            head_oid,
            path: Some(path),
            side: StackReviewCommentSide::Right,
            start_row: Some(start_row),
            start_column: Some(start_column),
            end_row: Some(end_row),
            end_column: Some(end_column),
            body,
            author,
            source,
            reply_to,
            created_at: timestamp.clone(),
            updated_at: timestamp,
            outdated: false,
            resolved: false,
            local_resolution: None,
            github: None,
        }
    }

    /// A record of a GitHub comment on one line of a file.
    pub fn new_github_inline(
        id: String,
        base_oid: String,
        head_oid: String,
        path: String,
        side: StackReviewCommentSide,
        row: u32,
        body: String,
        author: StackReviewCommentAuthor,
        reply_to: Option<String>,
        timestamp: String,
        github: StackReviewGitHubCommentIdentity,
        outdated: bool,
    ) -> (record: Self)
        ensures
            record == (StackReviewCommentRecord {
                schema_version: COMMENT_SCHEMA_VERSION,
                id,
                base_oid,
                head_oid,
                path: Some(path),
                side,
                start_row: Some(row),
                start_column: Some(0),
                end_row: Some(row),
                end_column: Some(0),
                body,
                author,
                source: StackReviewCommentSource::Github,
                reply_to,
                created_at: timestamp,
                updated_at: timestamp,
                outdated,
                resolved: false,
                local_resolution: None,
                github: Some(github),
            }),
    {
        StackReviewCommentRecord {
            schema_version: COMMENT_SCHEMA_VERSION,
            id,
            base_oid,
            head_oid,
            path: Some(path),
            side,
            start_row: Some(row),
            start_column: Some(0),
            end_row: Some(row),
            end_column: Some(0),
            body,
            author,
            source: StackReviewCommentSource::Github,
            reply_to,
            created_at: timestamp.clone(),
            updated_at: timestamp,
            outdated,
            resolved: false,
            local_resolution: None,
            github: Some(github),
        }
    }

    /// A record of a GitHub comment that belongs to no file.
    pub fn new_github_top_level(
        id: String,
        base_oid: String,
        head_oid: String,
        body: String,
        author: StackReviewCommentAuthor,
        timestamp: String,
        github: StackReviewGitHubCommentIdentity,
    ) -> (record: Self)
        ensures
            record == (StackReviewCommentRecord {
                schema_version: COMMENT_SCHEMA_VERSION,
                id,
                base_oid,
                head_oid,
                path: None,
                side: StackReviewCommentSide::TopLevel,
                start_row: None,
                start_column: None,
                end_row: None,
                end_column: None,
                body,
                author,
                source: StackReviewCommentSource::Github,
                reply_to: None,
                created_at: timestamp,
                updated_at: timestamp,
                outdated: false,
                resolved: false,
                local_resolution: None,
                github: Some(github),
            }),
    {
        StackReviewCommentRecord {
            schema_version: COMMENT_SCHEMA_VERSION,
            id,
            base_oid,
            head_oid,
            path: None,
            side: StackReviewCommentSide::TopLevel,
            start_row: None,
            start_column: None,
            end_row: None,
            end_column: None,
            body,
            author,
            source: StackReviewCommentSource::Github,
            reply_to: None,
            created_at: timestamp.clone(),
            updated_at: timestamp,
            outdated: false,
            resolved: false,
            local_resolution: None,
            github: Some(github),
        }
    }

    /// Whether the record stands for a comment on the snapshot between `base_oid` and `head_oid`,
    /// and, if it does not, the first reason.
    pub fn validate(&self, base_oid: &str, head_oid: &str) -> (checked: Result<
        (),
        CommentRecordError,
    >)
        ensures
            match checked {
                Ok(()) => record_problem(*self, base_oid@, head_oid@) is None,
                Err(error) => record_problem(*self, base_oid@, head_oid@) == Some(error),
            },
    {
        let local = self.source != StackReviewCommentSource::Github;
        if self.schema_version != COMMENT_SCHEMA_VERSION {
            return Err(CommentRecordError::UnsupportedSchema(self.schema_version));
        }
        if self.id.as_str().unicode_len() == 0 || find_char(self.id.as_str(), '/').is_some()
            || find_char(self.id.as_str(), '\\').is_some() {
            return Err(CommentRecordError::UnusableId);
        }
        if local && !is_uuid(self.id.as_str()) {
            return Err(CommentRecordError::LocalIdNotUuid);
        }
        if !same_text(self.base_oid.as_str(), base_oid) || !same_text(
            self.head_oid.as_str(),
            head_oid,
        ) {
            return Err(CommentRecordError::OtherSnapshot);
        }
        if trim_text(self.body.as_str()).unicode_len() == 0 {
            return Err(CommentRecordError::EmptyBody);
        }
        let replies_to_itself = match &self.reply_to {
            Some(parent) => same_text(parent.as_str(), self.id.as_str()),
            None => false,
        };
        if replies_to_itself {
            return Err(CommentRecordError::RepliesToItself);
        }
        let has_path = match &self.path {
            Some(path) => path.as_str().unicode_len() > 0,
            None => false,
        };
        match self.side {
            StackReviewCommentSide::Left | StackReviewCommentSide::Right => {
                if !has_path || self.start_row.is_none() || self.start_column.is_none()
                    || self.end_row.is_none() || self.end_column.is_none() {
                    return Err(CommentRecordError::InlineWithoutRange);
                }
            },
            StackReviewCommentSide::TopLevel => {
                if self.path.is_some() || self.start_row.is_some() || self.start_column.is_some()
                    || self.end_row.is_some() || self.end_column.is_some() {
                    return Err(CommentRecordError::TopLevelWithRange);
                }
            },
        }
        if !local && self.github.is_none() {
            return Err(CommentRecordError::GithubWithoutIdentity);
        }
        if local && self.github.is_some() {
            return Err(CommentRecordError::LocalWithGithubIdentity);
        }
        Ok(())
    }

    /// Whether the comment may be changed here.
    pub fn is_writable(&self) -> (writable: bool)
        ensures
            writable == (self.source != StackReviewCommentSource::Github),
    {
        self.source != StackReviewCommentSource::Github
    }

    /// Whether the comment counts as resolved: a local decision outranks the recorded one.
    pub fn is_resolved(&self) -> (resolved: bool)
        ensures
            resolved == counts_as_resolved(*self),
    {
        match self.local_resolution {
            Some(local) => local,
            None => self.resolved,
        }
    }
}

/// A record of a comment on the new side of a file, as it is written first, is not resolved; and
/// it is valid exactly where it is not from GitHub, its id is a UUID, its path is not empty, its
/// body is not blank, and it does not reply to itself.
pub proof fn inline_record_is_valid(
    id: String,
    base_oid: String,
    head_oid: String,
    path: String,
    start_row: u32,
    start_column: u32,
    end_row: u32,
    end_column: u32,
    body: String,
    author: StackReviewCommentAuthor,
    source: StackReviewCommentSource,
    reply_to: Option<String>,
    timestamp: String,
)
    ensures
        ({
            let record = inline_record(
                id,
                base_oid,
                head_oid,
                path,
                start_row,
                start_column,
                end_row,
                end_column,
                body,
                author,
                source,
                reply_to,
                timestamp,
            );
            &&& !counts_as_resolved(record)
            &&& (record_problem(record, base_oid@, head_oid@) is None) == (source
                != StackReviewCommentSource::Github && reads_as_uuid(id@) && path@.len() > 0
                && trimmed(body@).len() > 0 && opt_string_view(reply_to) != Some(id@))
        }),
{
    if reads_as_uuid(id@) {
        uuid_holds_no_separator(id@);
    }
}

} // verus!
