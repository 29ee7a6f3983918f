//! Review comments as an editor keeps them, and the keys by which they are found.

use crate::comment::{copied_text, StackReviewCommentAuthor, StackReviewCommentSource};
use crate::decimal::{decimal_text, push_decimal};
use crate::text::{opt_string_view, same_text};
use vstd::prelude::*;
use vstd::string::*;

verus! {

/// A position that follows the text it was put in. Where it stands now, a
/// [`crate::review_snapshot::ReviewSnapshot`] says.
#[derive(Clone, Copy, Debug, PartialEq, Eq, Structural)]
pub struct Anchor {
    pub id: usize,
}

/// A range between two anchors.
#[derive(Clone, Copy, Debug, PartialEq, Eq, Structural)]
pub struct AnchorRange {
    pub start: Anchor,
    pub end: Anchor,
}

/// A hunk of a diff, as the place under which comments are grouped.
#[derive(Clone, Debug)]
pub struct DiffHunkKey {
    /// The path of the file, relative to its worktree.
    pub file_path: String,
    pub hunk_start_anchor: Anchor,
    pub review_range_end_anchor: Option<Anchor>,
}

impl DiffHunkKey {
    /// A copy of the key.
    pub fn copied(&self) -> (key: Self)
        ensures
            key == *self,
    {
        DiffHunkKey {
            file_path: self.file_path.clone(),
            hunk_start_anchor: self.hunk_start_anchor,
            review_range_end_anchor: self.review_range_end_anchor,
        }
    }
}

/// A review comment in an editor.
#[derive(Clone, Debug)]
pub struct StoredReviewComment {
    pub id: usize,
    pub record_id: Option<String>,
    pub comment: String,
    pub range: AnchorRange,
    pub is_editing: bool,
    pub author: StackReviewCommentAuthor,
    pub source: StackReviewCommentSource,
    pub reply_to: Option<usize>,
    pub reply_to_record_id: Option<String>,
    pub created_at: String,
    /// The time as it is shown, where it can be told.
    pub created_at_display: Option<String>,
    pub resolved: bool,
    pub stashed: bool,
}

/// What a comment is found by: its record's id, or its own number where it has no record.
#[derive(Clone, Debug)]
pub enum ReviewCommentKey {
    Stable(String),
    Legacy(usize),
}

/// A comment's key as a value.
pub enum CommentKeyView {
    Stable(Seq<char>),
    Legacy(usize),
}

impl View for ReviewCommentKey {
    type V = CommentKeyView;

    open spec fn view(&self) -> CommentKeyView {
        match self {
            ReviewCommentKey::Stable(record_id) => CommentKeyView::Stable(record_id@),
            ReviewCommentKey::Legacy(id) => CommentKeyView::Legacy(*id),
        }
    }
}

/// Whether `key` finds `comment`.
pub open spec fn key_matches(key: CommentKeyView, comment: StoredReviewComment) -> bool {
    match key {
        CommentKeyView::Stable(record_id) => opt_string_view(comment.record_id) == Some(record_id),
        CommentKeyView::Legacy(id) => comment.record_id is None && comment.id == id,
    }
}

/// The key that finds `comment`.
pub open spec fn comment_key(comment: StoredReviewComment) -> CommentKeyView {
    match comment.record_id {
        Some(record_id) => CommentKeyView::Stable(record_id@),
        None => CommentKeyView::Legacy(comment.id),
    }
}

/// A key as a text: the kind of key, a colon and the id.
pub open spec fn key_identity(key: CommentKeyView) -> Seq<char> {
    match key {
        CommentKeyView::Stable(record_id) => "stable:"@ + record_id,
        CommentKeyView::Legacy(id) => "legacy:"@ + decimal_text(id as nat),
    }
}

impl ReviewCommentKey {
    /// Whether the key finds `comment`.
    pub fn matches(&self, comment: &StoredReviewComment) -> (found: bool)
        ensures
            found == key_matches(self@, *comment),
    {
        match self {
            ReviewCommentKey::Stable(record_id) => match &comment.record_id {
                Some(id) => same_text(id.as_str(), record_id.as_str()),
                None => false,
            },
            ReviewCommentKey::Legacy(id) => comment.record_id.is_none() && comment.id == *id,
        }
    }

    /// Whether two keys are the same.
    pub fn same(&self, other: &ReviewCommentKey) -> (same: bool)
        ensures
            same == (self@ == other@),
    {
        match (self, other) {
            (ReviewCommentKey::Stable(a), ReviewCommentKey::Stable(b)) => same_text(
                a.as_str(),
                b.as_str(),
            ),
            (ReviewCommentKey::Legacy(a), ReviewCommentKey::Legacy(b)) => *a == *b,
            (ReviewCommentKey::Stable(_), ReviewCommentKey::Legacy(_)) => false,
            (ReviewCommentKey::Legacy(_), ReviewCommentKey::Stable(_)) => false,
        }
    }

    /// A copy of the key.
    pub fn copied(&self) -> (key: Self)
        ensures
            key == *self,
    {
        match self {
            ReviewCommentKey::Stable(record_id) => ReviewCommentKey::Stable(record_id.clone()),
            ReviewCommentKey::Legacy(id) => ReviewCommentKey::Legacy(*id),
        }
    }

    /// The key as a text.
    pub fn debug_identity(&self) -> (identity: String)
        ensures
            identity@ == key_identity(self@),
    {
        match self {
            ReviewCommentKey::Stable(record_id) => {
                let mut identity = "stable:".to_owned();
                identity.append(record_id.as_str());
                identity
            },
            ReviewCommentKey::Legacy(id) => {
                let mut identity = "legacy:".to_owned();
                push_decimal(&mut identity, *id as u64);
                identity
            },
        }
    }
}

impl StoredReviewComment {
    /// A new comment, neither in editing nor resolved nor stashed.
    pub fn with_metadata(
        id: usize,
        record_id: Option<String>,
        comment: String,
        anchor_range: AnchorRange,
        author: StackReviewCommentAuthor,
        source: StackReviewCommentSource,
        reply_to: Option<usize>,
        reply_to_record_id: Option<String>,
        created_at: String,
        created_at_display: Option<String>,
    ) -> (stored: Self)
        ensures
            stored == (StoredReviewComment {
                id,
                record_id,
                comment,
                range: anchor_range,
                is_editing: false,
                author,
                source,
                reply_to,
                reply_to_record_id,
                created_at,
                created_at_display,
                resolved: false,
                stashed: false,
            }),
    {
        StoredReviewComment {
            id,
            record_id,
            comment,
            range: anchor_range,
            is_editing: false,
            author,
            source,
            reply_to,
            reply_to_record_id,
            created_at,
            created_at_display,
            resolved: false,
            stashed: false,
        }
    }

    /// A copy of the comment.
    pub fn copied(&self) -> (comment: Self)
        ensures
            comment == *self,
    {
        StoredReviewComment {
            id: self.id,
            record_id: copied_text(&self.record_id),
            comment: self.comment.clone(),
            range: self.range,
            is_editing: self.is_editing,
            author: self.author.copied(),
            source: self.source,
            reply_to: self.reply_to,
            reply_to_record_id: copied_text(&self.reply_to_record_id),
            created_at: self.created_at.clone(),
            created_at_display: copied_text(&self.created_at_display),
            resolved: self.resolved,
            stashed: self.stashed,
        }
    }

    /// The key that finds the comment.
    pub fn routing_key(&self) -> (key: ReviewCommentKey)
        ensures
            key@ == comment_key(*self),
    {
        match &self.record_id {
            Some(record_id) => ReviewCommentKey::Stable(record_id.clone()),
            None => ReviewCommentKey::Legacy(self.id),
        }
    }

    /// The comment's key as a text.
    pub fn debug_identity(&self) -> (identity: String)
        ensures
            identity@ == key_identity(comment_key(*self)),
    {
        self.routing_key().debug_identity()
    }
}

/// Whether `at` is the only place in `comments` that `key` finds.
pub open spec fn is_only_at(
    comments: Seq<StoredReviewComment>,
    key: CommentKeyView,
    at: int,
) -> bool {
    &&& 0 <= at < comments.len()
    &&& forall|i: int|
        0 <= i < comments.len() ==> (key_matches(key, #[trigger] comments[i]) <==> i == at)
}

/// The place of the one comment that `key` finds. There is none where it finds several.
pub open spec fn only_at(comments: Seq<StoredReviewComment>, key: CommentKeyView) -> Option<int> {
    if exists|at: int| is_only_at(comments, key, at) {
        Some(choose|at: int| is_only_at(comments, key, at))
    } else {
        None
    }
}

/// A place that may be absent, as an integer.
pub open spec fn opt_place(at: Option<usize>) -> Option<int> {
    match at {
        Some(at) => Some(at as int),
        None => None,
    }
}

/// A comment's key finds it.
pub proof fn key_finds_its_comment(comment: StoredReviewComment, key: CommentKeyView)
    ensures
        key_matches(key, comment) <==> key == comment_key(comment),
{
}

proof fn lemma_only_at(comments: Seq<StoredReviewComment>, key: CommentKeyView, at: int)
    requires
        is_only_at(comments, key, at),
    ensures
        only_at(comments, key) == Some(at),
{
    let chosen = choose|at: int| is_only_at(comments, key, at);
    assert(is_only_at(comments, key, chosen));
    assert(key_matches(key, comments[chosen]));
}

/// The place of the one comment that `key` finds.
pub fn find_only(comments: &Vec<StoredReviewComment>, key: &ReviewCommentKey) -> (at: Option<usize>)
    ensures
        opt_place(at) == only_at(comments@, key@),
        at matches Some(i) ==> is_only_at(comments@, key@, i as int),
{
    let mut found: Option<usize> = None;
    let mut i: usize = 0;
    while i < comments.len()
        invariant
            i <= comments@.len(),
            match found {
                Some(at) => at < i && forall|j: int|
                    0 <= j < i ==> (key_matches(key@, #[trigger] comments@[j]) <==> j == at),
                None => forall|j: int| 0 <= j < i ==> !key_matches(key@, #[trigger] comments@[j]),
            },
        decreases comments.len() - i,
    {
        if key.matches(&comments[i]) {
            match found {
                Some(first) => {
                    proof {
                        let two = comments@[i as int];
                        assert(key_matches(key@, comments@[first as int]));
                        assert(key_matches(key@, two));
                        assert(forall|at: int| !is_only_at(comments@, key@, at));
                    }
                    return None;
                },
                None => {
                    found = Some(i);
                },
            }
        }
        i += 1;
    }
    proof {
        match found {
            Some(at) => {
                assert(is_only_at(comments@, key@, at as int));
                lemma_only_at(comments@, key@, at as int);
            },
            None => {
                assert forall|at: int| !is_only_at(comments@, key@, at) by {
                    if is_only_at(comments@, key@, at) {
                        assert(key_matches(key@, comments@[at]));
                    }
                }
            },
        }
    }
    found
}

} // verus!
