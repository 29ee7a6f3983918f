//! Selectors: texts that tell apart what is on the screen, one for each list of identities.

use crate::decimal::{decimal_text, push_decimal};
use crate::review_comment::{
    comment_key, key_identity, CommentKeyView, ReviewCommentKey, StoredReviewComment,
};
use crate::text::opt_view;
use vstd::bytes::*;
use vstd::prelude::*;
use vstd::string::*;
use vstd::utf8::{encode_utf8, encode_utf8_decode_utf8};

verus! {

/// The name-based UUID that the `uuid` crate makes of `name` in the object identifier namespace.
pub uninterp spec fn oid_uuid(name: Seq<u8>) -> Seq<char>;

/// Calls [`uuid::Uuid::new_v5`] with [`uuid::Uuid::NAMESPACE_OID`] and writes the result in the
/// crate's own form. The text depends on the name alone; how it is made of it is left to the crate.
#[verifier::external_body]
pub(crate) fn make_oid_uuid(name: &Vec<u8>) -> (uuid: String)
    ensures
        uuid@ == oid_uuid(name@),
{
    uuid::Uuid::new_v5(&uuid::Uuid::NAMESPACE_OID, name.as_slice()).to_string()
}

/// One identity: the number of its bytes in eight bytes, the lowest first, and then its bytes.
pub open spec fn identity_bytes(identity: Seq<char>) -> Seq<u8> {
    spec_u64_to_le_bytes(encode_utf8(identity).len() as u64) + encode_utf8(identity)
}

/// The identities, one after the other.
pub open spec fn selector_material(identities: Seq<Seq<char>>) -> Seq<u8>
    decreases identities.len(),
{
    if identities.len() == 0 {
        Seq::empty()
    } else {
        selector_material(identities.drop_last()) + identity_bytes(identities.last())
    }
}

/// The texts in a slice.
pub open spec fn texts_of(texts: Seq<&str>) -> Seq<Seq<char>> {
    texts.map_values(|text: &str| text@)
}

/// A prefix, a hyphen and a UUID made of the identities.
pub open spec fn selector_text(prefix: Seq<char>, identities: Seq<Seq<char>>) -> Seq<char> {
    prefix + "-"@ + oid_uuid(selector_material(identities))
}

/// A text that every list of identities, under one prefix, has for itself.
pub fn stack_review_debug_selector(prefix: &str, identities: &[&str]) -> (selector: String)
    ensures
        selector@ == selector_text(prefix@, texts_of(identities@)),
{
    let mut material: Vec<u8> = Vec::new();
    let ghost texts = texts_of(identities@);
    let mut k: usize = 0;
    while k < identities.len()
        invariant
            k <= identities@.len(),
            texts == texts_of(identities@),
            material@ == selector_material(texts.take(k as int)),
        decreases identities.len() - k,
    {
        let mut content: Vec<u8> = identities[k].as_bytes_vec();
        let size: usize = content.len();
        let mut length: Vec<u8> = u64_to_le_bytes(size as u64);
        proof {
            assert(texts.take(k + 1).drop_last() =~= texts.take(k as int));
            assert(texts.take(k + 1).last() == identities@[k as int]@);
            assert(content@ =~= encode_utf8(identities@[k as int]@));
            assert(material@ + identity_bytes(identities@[k as int]@) =~= (material@ + length@)
                + content@);
        }
        material.append(&mut length);
        material.append(&mut content);
        k += 1;
    }
    assert(texts.take(k as int) =~= texts);
    let uuid = make_oid_uuid(&material);
    let mut selector = prefix.to_owned();
    selector.append("-");
    selector.append(uuid.as_str());
    selector
}

proof fn lemma_same_length(a: u64, b: u64)
    requires
        spec_u64_to_le_bytes(a) == spec_u64_to_le_bytes(b),
    ensures
        a == b,
{
    lemma_auto_spec_u64_to_from_le_bytes();
    assert(spec_u64_from_le_bytes(spec_u64_to_le_bytes(a)) == a);
}

/// Lists of different identities are made into different names: neither moving a part of one
/// identity to the next nor leaving one out goes unseen.
pub proof fn selector_material_is_injective(a: Seq<Seq<char>>, b: Seq<Seq<char>>)
    requires
        forall|i: int| 0 <= i < a.len() ==> encode_utf8(#[trigger] a[i]).len() <= u64::MAX,
        forall|i: int| 0 <= i < b.len() ==> encode_utf8(#[trigger] b[i]).len() <= u64::MAX,
        selector_material(a) == selector_material(b),
    ensures
        a == b,
    decreases a.len(),
{
    lemma_auto_spec_u64_to_from_le_bytes();
    if a.len() == 0 {
        if b.len() > 0 {
            assert(identity_bytes(b.last()).len() >= 8);
            assert(selector_material(b).len() >= 8);
        }
        assert(a =~= b);
    } else if b.len() == 0 {
        assert(identity_bytes(a.last()).len() >= 8);
        assert(selector_material(a).len() >= 8);
    } else {
        lemma_material_from_front(a);
        lemma_material_from_front(b);
        let x = encode_utf8(a[0]);
        let y = encode_utf8(b[0]);
        let whole = selector_material(a);
        let p = spec_u64_to_le_bytes(x.len() as u64);
        let q = spec_u64_to_le_bytes(y.len() as u64);
        let r = selector_material(a.drop_first());
        let s = selector_material(b.drop_first());
        assert(p.len() == 8 && q.len() == 8);
        assert(p =~= ((p + x) + r).take(8));
        assert(q =~= ((q + y) + s).take(8));
        lemma_same_length(x.len() as u64, y.len() as u64);
        assert(x =~= ((p + x) + r).subrange(8, 8 + x.len() as int));
        assert(y =~= ((q + y) + s).subrange(8, 8 + x.len() as int));
        encode_utf8_decode_utf8(a[0]);
        encode_utf8_decode_utf8(b[0]);
        assert(a[0] == b[0]);
        assert(r =~= ((p + x) + r).skip(8 + x.len() as int));
        assert(s =~= ((q + y) + s).skip(8 + x.len() as int));
        assert forall|i: int| 0 <= i < a.drop_first().len() implies encode_utf8(
            #[trigger] a.drop_first()[i],
        ).len() <= u64::MAX by {
            assert(a.drop_first()[i] == a[i + 1]);
        }
        assert forall|i: int| 0 <= i < b.drop_first().len() implies encode_utf8(
            #[trigger] b.drop_first()[i],
        ).len() <= u64::MAX by {
            assert(b.drop_first()[i] == b[i + 1]);
        }
        selector_material_is_injective(a.drop_first(), b.drop_first());
        assert(a =~= seq![a[0]] + a.drop_first());
        assert(b =~= seq![b[0]] + b.drop_first());
    }
}

proof fn lemma_material_from_front(identities: Seq<Seq<char>>)
    requires
        identities.len() > 0,
    ensures
        selector_material(identities) == identity_bytes(identities[0]) + selector_material(
            identities.drop_first(),
        ),
    decreases identities.len(),
{
    if identities.len() == 1 {
        assert(identities.drop_last() =~= Seq::empty());
        assert(identities.drop_first() =~= Seq::empty());
        assert(selector_material(identities) =~= identity_bytes(identities[0])
            + selector_material(identities.drop_first()));
    } else {
        let rest = identities.drop_last();
        lemma_material_from_front(rest);
        assert(rest.drop_first() =~= identities.drop_first().drop_last());
        assert(selector_material(identities) =~= identity_bytes(identities[0])
            + selector_material(identities.drop_first()));
    }
}

/// The key of a comment with this record or, where it has none, this number.
pub open spec fn key_of(record_id: Option<Seq<char>>, id: usize) -> CommentKeyView {
    match record_id {
        Some(record_id) => CommentKeyView::Stable(record_id),
        None => CommentKeyView::Legacy(id),
    }
}

/// The key of a comment with this record or, where it has none, this number.
pub fn routing_key_for(record_id: Option<&str>, id: usize) -> (key: ReviewCommentKey)
    ensures
        key@ == key_of(opt_view(record_id), id),
{
    match record_id {
        Some(record_id) => ReviewCommentKey::Stable(record_id.to_owned()),
        None => ReviewCommentKey::Legacy(id),
    }
}

/// The identity of a comment with this record or, where it has none, this number.
pub fn stack_review_comment_debug_identity(record_id: Option<&str>, id: usize) -> (identity: String)
    ensures
        identity@ == key_identity(key_of(opt_view(record_id), id)),
{
    routing_key_for(record_id, id).debug_identity()
}

/// One of several places where a comment is shown.
pub open spec fn occurrence_text(occurrence: nat) -> Seq<char> {
    "occurrence:"@ + decimal_text(occurrence)
}

pub(crate) fn write_occurrence(occurrence: usize) -> (text: String)
    ensures
        text@ == occurrence_text(occurrence as nat),
{
    let mut text = "occurrence:".to_owned();
    push_decimal(&mut text, occurrence as u64);
    text
}

/// The selector of one place where a comment is shown.
pub fn stack_review_comment_instance_debug_selector(
    prefix: &str,
    record_id: Option<&str>,
    id: usize,
    occurrence: usize,
) -> (selector: String)
    ensures
        selector@ == selector_text(
            prefix@,
            seq![key_identity(key_of(opt_view(record_id), id)), occurrence_text(occurrence as nat)],
        ),
{
    let identity = stack_review_comment_debug_identity(record_id, id);
    let text = write_occurrence(occurrence);
    let parts: [&str; 2] = [identity.as_str(), text.as_str()];
    let selector = stack_review_debug_selector(prefix, &parts);
    assert(texts_of(parts@) =~= seq![
        key_identity(key_of(opt_view(record_id), id)),
        occurrence_text(occurrence as nat),
    ]);
    selector
}

/// What a comment replies to.
#[derive(Clone, Debug)]
pub enum StackReviewReplyMetadata {
    Parent { identity: String, author: String },
    Unavailable,
}

/// What a reply that is being written replies to.
#[derive(Clone, Debug)]
pub enum StackReviewComposerMetadata {
    Target { identity: String, author: String },
    Unavailable,
}

/// The comment that is replied to, where it is known: its identity and its author's name.
pub enum ReplyTargetView {
    Known { identity: Seq<char>, author: Seq<char> },
    Unavailable,
}

impl View for StackReviewReplyMetadata {
    type V = ReplyTargetView;

    open spec fn view(&self) -> ReplyTargetView {
        match self {
            StackReviewReplyMetadata::Parent { identity, author } => ReplyTargetView::Known {
                identity: identity@,
                author: author@,
            },
            StackReviewReplyMetadata::Unavailable => ReplyTargetView::Unavailable,
        }
    }
}

impl View for StackReviewComposerMetadata {
    type V = ReplyTargetView;

    open spec fn view(&self) -> ReplyTargetView {
        match self {
            StackReviewComposerMetadata::Target { identity, author } => ReplyTargetView::Known {
                identity: identity@,
                author: author@,
            },
            StackReviewComposerMetadata::Unavailable => ReplyTargetView::Unavailable,
        }
    }
}

/// What is shown of the comment that is replied to.
pub open spec fn reply_label(target: ReplyTargetView) -> Seq<char> {
    match target {
        ReplyTargetView::Known { author, .. } => "Replying to "@ + author,
        ReplyTargetView::Unavailable => "Replying to unavailable parent"@,
    }
}

/// The identity of the comment that is replied to.
pub open spec fn target_identity(target: ReplyTargetView) -> Seq<char> {
    match target {
        ReplyTargetView::Known { identity, .. } => identity,
        ReplyTargetView::Unavailable => "unavailable"@,
    }
}

impl StackReviewReplyMetadata {
    /// A copy of the metadata.
    pub fn copied(&self) -> (metadata: Self)
        ensures
            metadata == *self,
    {
        match self {
            StackReviewReplyMetadata::Parent { identity, author } => {
                StackReviewReplyMetadata::Parent {
                    identity: identity.clone(),
                    author: author.clone(),
                }
            },
            StackReviewReplyMetadata::Unavailable => StackReviewReplyMetadata::Unavailable,
        }
    }

    /// What is shown of the comment that is replied to.
    pub fn label(&self) -> (label: String)
        ensures
            label@ == reply_label(self@),
    {
        match self {
            StackReviewReplyMetadata::Parent { author, .. } => {
                let mut label = "Replying to ".to_owned();
                label.append(author.as_str());
                label
            },
            StackReviewReplyMetadata::Unavailable => "Replying to unavailable parent".to_owned(),
        }
    }

    /// The selector of the label, at one place where `comment` is shown.
    pub fn selector(&self, comment: &StoredReviewComment, occurrence: usize) -> (selector: String)
        ensures
            selector@ == selector_text(
                "STACK_REVIEW_REPLY_META"@,
                seq![
                    key_identity(comment_key(*comment)),
                    target_identity(self@),
                    occurrence_text(occurrence as nat),
                ],
            ),
    {
        let comment_identity = comment.debug_identity();
        let text = write_occurrence(occurrence);
        let parent_identity = match self {
            StackReviewReplyMetadata::Parent { identity, .. } => identity.as_str(),
            StackReviewReplyMetadata::Unavailable => "unavailable",
        };
        let parts: [&str; 3] = [comment_identity.as_str(), parent_identity, text.as_str()];
        let selector = stack_review_debug_selector("STACK_REVIEW_REPLY_META", &parts);
        assert(texts_of(parts@) =~= seq![
            key_identity(comment_key(*comment)),
            target_identity(self@),
            occurrence_text(occurrence as nat),
        ]);
        selector
    }
}

impl StackReviewComposerMetadata {
    /// What is shown of the comment that is replied to.
    pub fn label(&self) -> (label: String)
        ensures
            label@ == reply_label(self@),
    {
        match self {
            StackReviewComposerMetadata::Target { author, .. } => {
                let mut label = "Replying to ".to_owned();
                label.append(author.as_str());
                label
            },
            StackReviewComposerMetadata::Unavailable => "Replying to unavailable parent".to_owned(),
        }
    }

    /// The selector of the label.
    pub fn selector(&self) -> (selector: String)
        ensures
            selector@ == selector_text(
                "STACK_REVIEW_REPLY_COMPOSER_META"@,
                seq![target_identity(self@)],
            ),
    {
        let identity = match self {
            StackReviewComposerMetadata::Target { identity, .. } => identity.as_str(),
            StackReviewComposerMetadata::Unavailable => "unavailable",
        };
        let parts: [&str; 1] = [identity];
        let selector = stack_review_debug_selector("STACK_REVIEW_REPLY_COMPOSER_META", &parts);
        assert(texts_of(parts@) =~= seq![target_identity(self@)]);
        selector
    }
}

} // verus!
