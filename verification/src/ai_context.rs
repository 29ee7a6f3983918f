//! What an agent is given to read of a review, and the envelope by which its answers are told
//! apart.

use crate::comment::copied_text;
use crate::text::{same_text, starts_with_text};
use crate::trim::{trim_text, trimmed};
use vstd::prelude::*;
use vstd::string::*;

verus! {

/// What part of a review an agent is asked about.
#[derive(Clone, Debug)]
pub struct StackReviewAiContextKey {
    pub storage_key: String,
    /// The key as a text that does not change.
    pub stable_key: String,
}

impl StackReviewAiContextKey {
    /// Whether two keys stand for the same part.
    pub open spec fn same_as(&self, other: StackReviewAiContextKey) -> bool {
        self.storage_key@ == other.storage_key@ && self.stable_key@ == other.stable_key@
    }

    /// Whether two keys stand for the same part.
    pub fn same(&self, other: &StackReviewAiContextKey) -> (same: bool)
        ensures
            same == self.same_as(*other),
    {
        same_text(self.storage_key.as_str(), other.storage_key.as_str()) && same_text(
            self.stable_key.as_str(),
            other.stable_key.as_str(),
        )
    }

    /// A copy of the key.
    pub fn copied(&self) -> (key: Self)
        ensures
            key == *self,
    {
        StackReviewAiContextKey {
            storage_key: self.storage_key.clone(),
            stable_key: self.stable_key.clone(),
        }
    }
}

/// What marks a turn with an agent.
#[derive(Clone, Debug)]
pub struct StackReviewTurnEnvelope {
    pub turn_id: String,
    pub project_identity: String,
    pub context_key: StackReviewAiContextKey,
    /// The record that the answer is shown at.
    pub projection_target: Option<String>,
}

impl StackReviewTurnEnvelope {
    /// A copy of the envelope.
    pub fn copied(&self) -> (envelope: Self)
        ensures
            envelope == *self,
    {
        StackReviewTurnEnvelope {
            turn_id: self.turn_id.clone(),
            project_identity: self.project_identity.clone(),
            context_key: self.context_key.copied(),
            projection_target: copied_text(&self.projection_target),
        }
    }
}

/// What the text of a resource reads as.
#[derive(Clone, Debug)]
pub enum EnvelopeReading {
    /// An envelope.
    Envelope(StackReviewTurnEnvelope),
    /// None, and this is why.
    Unreadable(String),
    /// It was not read, since it is not at the place of envelopes.
    Unread,
}

/// A part of what is sent to an agent. A text comes with the envelope that it reads as, if it does;
/// a resource at the place of envelopes comes with what it reads as.
#[derive(Clone, Debug)]
pub enum ContentBlock {
    Text { text: String, envelope: Option<StackReviewTurnEnvelope> },
    TextResource { uri: String, text: String, envelope: EnvelopeReading },
    Other,
}

/// What a resource is taken from.
#[derive(Clone, Debug)]
pub struct StackReviewCitation {
    pub project_identity: String,
    pub storage_key: String,
    pub base_oid: String,
    pub head_oid: String,
}

/// A resource that an agent is given.
#[derive(Clone, Debug)]
pub struct StackReviewAiResource {
    pub citation: StackReviewCitation,
    pub uri: String,
    pub text: String,
}

/// What an agent is given.
#[derive(Clone, Debug)]
pub struct StackReviewAiContext {
    pub key: StackReviewAiContextKey,
    pub title: String,
    pub base_oid: String,
    pub head_oid: String,
    pub selected_record_id: Option<String>,
    pub resources: Vec<StackReviewAiResource>,
}

/// What a thread with an agent is about.
#[derive(Clone, Debug)]
pub struct StackReviewThreadOrigin {
    pub project_identity: String,
    pub storage_key: String,
    pub context_key: String,
    pub base_oid: String,
    pub head_oid: String,
}

impl StackReviewThreadOrigin {
    /// Whether two threads are about the same.
    pub open spec fn same_as(&self, other: StackReviewThreadOrigin) -> bool {
        &&& self.project_identity@ == other.project_identity@
        &&& self.storage_key@ == other.storage_key@
        &&& self.context_key@ == other.context_key@
        &&& self.base_oid@ == other.base_oid@
        &&& self.head_oid@ == other.head_oid@
    }

    /// Whether two threads are about the same.
    pub fn same(&self, other: &StackReviewThreadOrigin) -> (same: bool)
        ensures
            same == self.same_as(*other),
    {
        same_text(self.project_identity.as_str(), other.project_identity.as_str()) && same_text(
            self.storage_key.as_str(),
            other.storage_key.as_str(),
        ) && same_text(self.context_key.as_str(), other.context_key.as_str()) && same_text(
            self.base_oid.as_str(),
            other.base_oid.as_str(),
        ) && same_text(self.head_oid.as_str(), other.head_oid.as_str())
    }
}

/// Why an agent cannot be asked.
#[derive(Clone, Debug, PartialEq, Eq)]
pub enum AiContextError {
    NoCitation,
    OtherStorageKey,
    OtherSnapshot,
    OtherProject,
    OtherResource,
    EmptyPrompt,
    /// Something stands where an envelope does but does not read as one, for this reason.
    UnreadableEnvelope(String),
    DuplicateEnvelopes,
}

/// What an error says.
pub open spec fn ai_context_message(error: AiContextError) -> Seq<char> {
    match error {
        AiContextError::NoCitation => "Stack Review AI context has no immutable citation"@,
        AiContextError::OtherStorageKey =>
            "Stack Review AI citation storage key does not match its context"@,
        AiContextError::OtherSnapshot =>
            "Stack Review AI citation snapshot does not match its context"@,
        AiContextError::OtherProject =>
            "Stack Review Agent envelope project does not match its context"@,
        AiContextError::OtherResource =>
            "Stack Review Agent resource does not match its immutable context"@,
        AiContextError::EmptyPrompt => "Stack Review Agent prompt is empty"@,
        AiContextError::UnreadableEnvelope(reason) => reason@,
        AiContextError::DuplicateEnvelopes =>
            "Stack Review Agent turn contains duplicate envelopes"@,
    }
}

impl AiContextError {
    /// The error in words.
    pub fn message(&self) -> (message: String)
        ensures
            message@ == ai_context_message(*self),
    {
        match self {
            AiContextError::NoCitation =>
                "Stack Review AI context has no immutable citation".to_owned(),
            AiContextError::OtherStorageKey =>
                "Stack Review AI citation storage key does not match its context".to_owned(),
            AiContextError::OtherSnapshot =>
                "Stack Review AI citation snapshot does not match its context".to_owned(),
            AiContextError::OtherProject =>
                "Stack Review Agent envelope project does not match its context".to_owned(),
            AiContextError::OtherResource =>
                "Stack Review Agent resource does not match its immutable context".to_owned(),
            AiContextError::EmptyPrompt => "Stack Review Agent prompt is empty".to_owned(),
            AiContextError::UnreadableEnvelope(reason) => reason.clone(),
            AiContextError::DuplicateEnvelopes =>
                "Stack Review Agent turn contains duplicate envelopes".to_owned(),
        }
    }
}

/// The envelope that a part of a message is: a text that reads as one, or a resource at
/// `envelope_uri` that does.
pub open spec fn envelope_of(block: ContentBlock, envelope_uri: Seq<char>) -> Option<
    StackReviewTurnEnvelope,
> {
    match block {
        ContentBlock::Text { envelope, .. } => envelope,
        ContentBlock::TextResource { uri, envelope, .. } => match envelope {
            EnvelopeReading::Envelope(envelope) if uri@ == envelope_uri => Some(envelope),
            _ => None,
        },
        ContentBlock::Other => None,
    }
}

/// The envelopes in a message.
pub open spec fn envelopes_in(chunks: Seq<ContentBlock>, envelope_uri: Seq<char>) -> Seq<
    StackReviewTurnEnvelope,
>
    decreases chunks.len(),
{
    if chunks.len() == 0 {
        Seq::empty()
    } else {
        let before = envelopes_in(chunks.drop_last(), envelope_uri);
        match envelope_of(chunks.last(), envelope_uri) {
            Some(envelope) => before.push(envelope),
            None => before,
        }
    }
}

/// The envelope of a message, where there is exactly one and it is for this part of the review
/// of this project.
pub open spec fn turn_envelope(
    chunks: Seq<ContentBlock>,
    envelope_uri: Seq<char>,
    context_key: StackReviewAiContextKey,
    project_identity: Seq<char>,
) -> Option<StackReviewTurnEnvelope> {
    let envelopes = envelopes_in(chunks, envelope_uri);
    if envelopes.len() == 1 && envelopes[0].context_key.same_as(context_key)
        && envelopes[0].project_identity@ == project_identity {
        Some(envelopes[0])
    } else {
        None
    }
}

fn read_envelope<'a>(block: &'a ContentBlock, envelope_uri: &str) -> (envelope: Option<
    &'a StackReviewTurnEnvelope,
>)
    ensures
        match envelope {
            Some(envelope) => envelope_of(*block, envelope_uri@) == Some(*envelope),
            None => envelope_of(*block, envelope_uri@) is None,
        },
{
    match block {
        ContentBlock::Text { envelope, .. } => match envelope {
            Some(envelope) => Some(envelope),
            None => None,
        },
        ContentBlock::TextResource { uri, envelope, .. } => if same_text(
            uri.as_str(),
            envelope_uri,
        ) {
            match envelope {
                EnvelopeReading::Envelope(envelope) => Some(envelope),
                _ => None,
            }
        } else {
            None
        },
        ContentBlock::Other => None,
    }
}

/// The envelope of a message.
pub fn stack_review_turn_envelope(
    chunks: &Vec<ContentBlock>,
    envelope_uri: &str,
    context_key: &StackReviewAiContextKey,
    project_identity: &str,
) -> (envelope: Option<StackReviewTurnEnvelope>)
    ensures
        envelope == turn_envelope(chunks@, envelope_uri@, *context_key, project_identity@),
{
    let mut found: Option<StackReviewTurnEnvelope> = None;
    let mut several = false;
    let mut i: usize = 0;
    while i < chunks.len()
        invariant
            i <= chunks@.len(),
            ({
                let envelopes = envelopes_in(chunks@.take(i as int), envelope_uri@);
                match found {
                    Some(first) => envelopes.len() > 0 && envelopes[0] == first && several == (
                    envelopes.len() > 1),
                    None => envelopes.len() == 0 && !several,
                }
            }),
        decreases chunks.len() - i,
    {
        proof {
            assert(chunks@.take(i + 1).drop_last() =~= chunks@.take(i as int));
            assert(chunks@.take(i + 1).last() == chunks@[i as int]);
        }
        match read_envelope(&chunks[i], envelope_uri) {
            Some(envelope) => {
                if found.is_some() {
                    several = true;
                } else {
                    found = Some(envelope.copied());
                }
            },
            None => {},
        }
        i += 1;
    }
    assert(chunks@.take(i as int) =~= chunks@);
    if several {
        return None;
    }
    match found {
        Some(envelope) => if envelope.context_key.same(context_key) && same_text(
            envelope.project_identity.as_str(),
            project_identity,
        ) {
            Some(envelope)
        } else {
            None
        },
        None => None,
    }
}

/// What keeps a context from being one of a review, or what a thread about it is about.
pub open spec fn origin_problem(context: StackReviewAiContext) -> Option<AiContextError> {
    if context.resources@.len() == 0 {
        Some(AiContextError::NoCitation)
    } else {
        let citation = context.resources@[0].citation;
        if citation.storage_key@ != context.key.storage_key@ {
            Some(AiContextError::OtherStorageKey)
        } else if citation.base_oid@ != context.base_oid@ || citation.head_oid@
            != context.head_oid@ {
            Some(AiContextError::OtherSnapshot)
        } else {
            None
        }
    }
}

/// What a thread about a context is about.
pub open spec fn origin_of(context: StackReviewAiContext) -> StackReviewThreadOrigin {
    StackReviewThreadOrigin {
        project_identity: context.resources@[0].citation.project_identity,
        storage_key: context.key.storage_key,
        context_key: context.key.stable_key,
        base_oid: context.base_oid,
        head_oid: context.head_oid,
    }
}

/// What a thread about a context is about.
pub fn thread_origin(context: &StackReviewAiContext) -> (origin: Result<
    StackReviewThreadOrigin,
    AiContextError,
>)
    ensures
        origin == match origin_problem(*context) {
            Some(error) => Err::<StackReviewThreadOrigin, AiContextError>(error),
            None => Ok(origin_of(*context)),
        },
{
    if context.resources.len() == 0 {
        return Err(AiContextError::NoCitation);
    }
    let citation = &context.resources[0].citation;
    if !same_text(citation.storage_key.as_str(), context.key.storage_key.as_str()) {
        return Err(AiContextError::OtherStorageKey);
    }
    if !same_text(citation.base_oid.as_str(), context.base_oid.as_str()) || !same_text(
        citation.head_oid.as_str(),
        context.head_oid.as_str(),
    ) {
        return Err(AiContextError::OtherSnapshot);
    }
    Ok(
        StackReviewThreadOrigin {
            project_identity: citation.project_identity.clone(),
            storage_key: context.key.storage_key.clone(),
            context_key: context.key.stable_key.clone(),
            base_oid: context.base_oid.clone(),
            head_oid: context.head_oid.clone(),
        },
    )
}

/// Whether a resource is taken from what a thread is about.
pub open spec fn resource_fits(
    resource: StackReviewAiResource,
    origin: StackReviewThreadOrigin,
) -> bool {
    let citation = resource.citation;
    &&& citation.project_identity@ == origin.project_identity@
    &&& citation.storage_key@ == origin.storage_key@
    &&& citation.base_oid@ == origin.base_oid@
    &&& citation.head_oid@ == origin.head_oid@
}

/// The first resource at or after `from` that is taken from something else, or their number.
pub open spec fn first_unfit(
    resources: Seq<StackReviewAiResource>,
    origin: StackReviewThreadOrigin,
    from: int,
) -> int
    decreases resources.len() - from,
{
    if from < 0 || from >= resources.len() || !resource_fits(resources[from], origin) {
        from
    } else {
        first_unfit(resources, origin, from + 1)
    }
}

/// A resource as a part of a message.
pub open spec fn resource_block(resource: StackReviewAiResource) -> ContentBlock {
    ContentBlock::TextResource { uri: resource.uri, text: resource.text, envelope: EnvelopeReading::Unread }
}

/// Resources as parts of a message.
pub open spec fn resource_blocks(resources: Seq<StackReviewAiResource>) -> Seq<ContentBlock> {
    resources.map_values(|resource: StackReviewAiResource| resource_block(resource))
}

/// Whether a part of a message is a resource: the text at its place.
pub open spec fn is_resource(block: ContentBlock, resource: StackReviewAiResource) -> bool {
    block matches ContentBlock::TextResource { uri, text, envelope } && uri@ == resource.uri@
        && text@ == resource.text@ && envelope is Unread
}

/// Whether a message holds some resources, one after the other, from the part at `from` on.
pub open spec fn holds_resources(
    blocks: Seq<ContentBlock>,
    from: int,
    resources: Seq<StackReviewAiResource>,
) -> bool {
    &&& from + resources.len() <= blocks.len()
    &&& forall|i: int|
        0 <= i < resources.len() ==> is_resource(#[trigger] blocks[from + i], resources[i])
}

/// Whether a part of a message is an envelope, written as `metadata`.
pub open spec fn is_envelope_block(
    block: ContentBlock,
    envelope_uri: Seq<char>,
    metadata: Seq<char>,
    envelope: StackReviewTurnEnvelope,
) -> bool {
    match block {
        ContentBlock::TextResource { uri, text, envelope: read } => uri@ == envelope_uri && text@
            == metadata && read == EnvelopeReading::Envelope(envelope),
        _ => false,
    }
}

/// What keeps a context and an envelope from being sent, if anything does.
pub open spec fn append_problem(
    context: StackReviewAiContext,
    envelope: StackReviewTurnEnvelope,
) -> Option<AiContextError> {
    match origin_problem(context) {
        Some(error) => Some(error),
        None => if envelope.project_identity@ != origin_of(context).project_identity@ {
            Some(AiContextError::OtherProject)
        } else if first_unfit(context.resources@, origin_of(context), 0)
            < context.resources@.len() {
            Some(AiContextError::OtherResource)
        } else {
            None
        },
    }
}

/// What sending a context and an envelope adds to a message. Where a resource does not fit, those
/// before it are there.
pub open spec fn appends_context(
    before: Seq<ContentBlock>,
    after: Seq<ContentBlock>,
    context: StackReviewAiContext,
    envelope: StackReviewTurnEnvelope,
    envelope_uri: Seq<char>,
    metadata: Seq<char>,
) -> bool {
    match append_problem(context, envelope) {
        Some(AiContextError::OtherResource) => after == before + resource_blocks(
            context.resources@.take(first_unfit(context.resources@, origin_of(context), 0)),
        ),
        Some(_) => after == before,
        None => {
            &&& after.len() == before.len() + context.resources@.len() + 1
            &&& after.drop_last() == before + resource_blocks(context.resources@)
            &&& is_envelope_block(after.last(), envelope_uri, metadata, envelope)
        },
    }
}

/// Adds the resources of a context and an envelope, which is written as `metadata`, to a message.
pub fn append_stack_review_context_with_envelope(
    contents: &mut Vec<ContentBlock>,
    context: &StackReviewAiContext,
    envelope: &StackReviewTurnEnvelope,
    envelope_uri: &str,
    metadata: &str,
) -> (result: Result<(), AiContextError>)
    ensures
        result == match append_problem(*context, *envelope) {
            Some(error) => Err::<(), AiContextError>(error),
            None => Ok(()),
        },
        appends_context(
            old(contents)@,
            final(contents)@,
            *context,
            *envelope,
            envelope_uri@,
            metadata@,
        ),
        result is Ok ==> {
            &&& final(contents)@.len() == old(contents)@.len() + context.resources@.len() + 1
            &&& forall|i: int|
                0 <= i < old(contents)@.len() ==> #[trigger] final(contents)@[i] == old(
                    contents,
                )@[i]
            &&& holds_resources(
                final(contents)@,
                old(contents)@.len() as int,
                context.resources@,
            )
        },
{
    let origin = match thread_origin(context) {
        Ok(origin) => origin,
        Err(error) => {
            return Err(error);
        },
    };
    if !same_text(envelope.project_identity.as_str(), origin.project_identity.as_str()) {
        return Err(AiContextError::OtherProject);
    }
    let ghost before = contents@;
    let mut i: usize = 0;
    assert(before + resource_blocks(context.resources@.take(0)) =~= before);
    while i < context.resources.len()
        invariant
            i <= context.resources@.len(),
            origin == origin_of(*context),
            before == old(contents)@,
            origin_problem(*context) is None,
            envelope.project_identity@ == origin.project_identity@,
            first_unfit(context.resources@, origin, 0) == first_unfit(
                context.resources@,
                origin,
                i as int,
            ),
            contents@ == before + resource_blocks(context.resources@.take(i as int)),
        decreases context.resources@.len() - i,
    {
        let resource = &context.resources[i];
        let citation = &resource.citation;
        let fits = same_text(
            citation.project_identity.as_str(),
            origin.project_identity.as_str(),
        ) && same_text(citation.storage_key.as_str(), origin.storage_key.as_str()) && same_text(
            citation.base_oid.as_str(),
            origin.base_oid.as_str(),
        ) && same_text(citation.head_oid.as_str(), origin.head_oid.as_str());
        if !fits {
            return Err(AiContextError::OtherResource);
        }
        let block = ContentBlock::TextResource {
            uri: resource.uri.clone(),
            text: resource.text.clone(),
            envelope: EnvelopeReading::Unread,
        };
        contents.push(block);
        proof {
            assert(block == resource_block(*resource));
            let now = resource_blocks(context.resources@.take(i + 1));
            assert(now =~= resource_blocks(context.resources@.take(i as int)).push(block));
            assert(contents@ =~= before + now);
        }
        i += 1;
    }
    assert(context.resources@.take(i as int) =~= context.resources@);
    let ghost listed = contents@;
    contents.push(
        ContentBlock::TextResource {
            uri: envelope_uri.to_owned(),
            text: metadata.to_owned(),
            envelope: EnvelopeReading::Envelope(envelope.copied()),
        },
    );
    assert(contents@.drop_last() =~= listed);
    Ok(())
}

/// Whether a part of a message belongs to the context of a review: a text that reads as an
/// envelope, or a resource that is one or is taken from a review.
pub open spec fn is_context_block(block: ContentBlock, envelope_uri: Seq<char>) -> bool {
    match block {
        ContentBlock::Text { envelope, .. } => envelope is Some,
        ContentBlock::TextResource { uri, .. } => uri@ == envelope_uri
            || "zed:///agent/stack-review?"@.is_prefix_of(uri@),
        ContentBlock::Other => false,
    }
}

/// Whether a part of a message belongs to the context of a review.
pub fn is_stack_review_context_block(block: &ContentBlock, envelope_uri: &str) -> (is: bool)
    ensures
        is == is_context_block(*block, envelope_uri@),
{
    match block {
        ContentBlock::Text { envelope, .. } => envelope.is_some(),
        ContentBlock::TextResource { uri, .. } => same_text(uri.as_str(), envelope_uri)
            || starts_with_text(uri.as_str(), "zed:///agent/stack-review?"),
        ContentBlock::Other => false,
    }
}

/// Whether a part of a message stands where an envelope does.
pub open spec fn holds_envelope(block: ContentBlock, envelope_uri: Seq<char>) -> bool {
    match block {
        ContentBlock::Text { envelope, .. } => envelope is Some,
        ContentBlock::TextResource { uri, .. } => uri@ == envelope_uri,
        ContentBlock::Other => false,
    }
}

/// How many envelopes are in a message.
pub open spec fn envelope_count(contents: Seq<ContentBlock>, envelope_uri: Seq<char>) -> nat
    decreases contents.len(),
{
    if contents.len() == 0 {
        0
    } else {
        envelope_count(contents.drop_last(), envelope_uri) + if holds_envelope(
            contents.last(),
            envelope_uri,
        ) {
            1nat
        } else {
            0nat
        }
    }
}

/// The first part at or after `from` that stands where an envelope does but is none, or the
/// number of parts.
pub open spec fn first_unreadable(
    contents: Seq<ContentBlock>,
    envelope_uri: Seq<char>,
    from: int,
) -> int
    decreases contents.len() - from,
{
    if from < 0 || from >= contents.len() || (holds_envelope(contents[from], envelope_uri)
        && envelope_of(contents[from], envelope_uri) is None) {
        from
    } else {
        first_unreadable(contents, envelope_uri, from + 1)
    }
}

/// Whether `after` is `before` but for the turn of its envelope, where it has one, and for the
/// text that the envelope is written as, which is `metadata`.
pub open spec fn is_renewed(
    before: ContentBlock,
    after: ContentBlock,
    envelope_uri: Seq<char>,
    turn_id: Seq<char>,
    metadata: Seq<char>,
) -> bool {
    match envelope_of(before, envelope_uri) {
        Some(envelope) => {
            &&& envelope_of(after, envelope_uri) matches Some(now) && now == (
            StackReviewTurnEnvelope { turn_id: now.turn_id, ..envelope }) && now.turn_id@ == turn_id
            &&& match (before, after) {
                (ContentBlock::Text { .. }, ContentBlock::Text { text, .. }) => text@ == metadata,
                (
                    ContentBlock::TextResource { uri, .. },
                    ContentBlock::TextResource { uri: now, text, .. },
                ) => now == uri && text@ == metadata,
                _ => false,
            }
        },
        None => after == before,
    }
}

/// The envelopes in a message, for the one who sends it to write down what they become.
pub fn list_envelopes(contents: &Vec<ContentBlock>, envelope_uri: &str) -> (envelopes: Vec<
    StackReviewTurnEnvelope,
>)
    ensures
        envelopes@ == envelopes_in(contents@, envelope_uri@),
{
    let mut envelopes: Vec<StackReviewTurnEnvelope> = Vec::new();
    let mut i: usize = 0;
    assert(contents@.take(0) =~= Seq::empty());
    while i < contents.len()
        invariant
            i <= contents@.len(),
            envelopes@ == envelopes_in(contents@.take(i as int), envelope_uri@),
        decreases contents.len() - i,
    {
        proof {
            assert(contents@.take(i + 1).drop_last() =~= contents@.take(i as int));
            assert(contents@.take(i + 1).last() == contents@[i as int]);
        }
        match read_envelope(&contents[i], envelope_uri) {
            Some(envelope) => {
                envelopes.push(envelope.copied());
            },
            None => {},
        }
        i += 1;
    }
    assert(contents@.take(i as int) =~= contents@);
    envelopes
}

/// The turn that an envelope is given, and the text that it is then written as.
#[derive(Clone, Debug)]
pub struct TurnRenewal {
    pub turn_id: String,
    pub metadata: String,
}

/// Whether the part of a message at `i` is renewed: as the envelope that it is among those of the
/// message, if it is one.
pub open spec fn is_renewed_at(
    before: Seq<ContentBlock>,
    after: Seq<ContentBlock>,
    envelope_uri: Seq<char>,
    renewals: Seq<TurnRenewal>,
    i: int,
) -> bool {
    let renewal = renewals[envelopes_in(before.take(i), envelope_uri).len() as int];
    is_renewed(before[i], after[i], envelope_uri, renewal.turn_id@, renewal.metadata@)
}

/// Why what stands where an envelope does is none.
pub open spec fn unreadable_reason(block: ContentBlock) -> Seq<char> {
    match block {
        ContentBlock::TextResource { envelope: EnvelopeReading::Unreadable(reason), .. } => reason@,
        _ => Seq::empty(),
    }
}

proof fn lemma_fewer_envelopes(contents: Seq<ContentBlock>, envelope_uri: Seq<char>, to: int)
    requires
        0 <= to <= contents.len(),
    ensures
        envelopes_in(contents.take(to), envelope_uri).len() <= envelopes_in(
            contents,
            envelope_uri,
        ).len(),
    decreases contents.len(),
{
    if to == contents.len() {
        assert(contents.take(to) =~= contents);
    } else {
        assert(contents.drop_last().take(to) =~= contents.take(to));
        lemma_fewer_envelopes(contents.drop_last(), envelope_uri, to);
    }
}

/// Marks a message as another turn: each envelope in it gets the turn and the text that `renewals`
/// has for it, one after the other. A message in which something stands where an envelope does but
/// is none is refused there, and one that has more than one in the end.
pub fn renew_stack_review_turn_envelope(
    contents: &mut Vec<ContentBlock>,
    envelope_uri: &str,
    renewals: &Vec<TurnRenewal>,
) -> (result: Result<(), AiContextError>)
    requires
        envelopes_in(old(contents)@, envelope_uri@).len() <= renewals@.len(),
    ensures
        ({
            let stop = first_unreadable(old(contents)@, envelope_uri@, 0);
            &&& match result {
                Ok(()) => stop >= old(contents)@.len() && envelope_count(
                    old(contents)@,
                    envelope_uri@,
                ) <= 1,
                Err(AiContextError::UnreadableEnvelope(reason)) => stop < old(contents)@.len()
                    && reason@ == unreadable_reason(old(contents)@[stop]),
                Err(error) => stop >= old(contents)@.len() && envelope_count(
                    old(contents)@,
                    envelope_uri@,
                ) > 1 && error == AiContextError::DuplicateEnvelopes,
            }
            &&& final(contents)@.len() == old(contents)@.len()
            &&& forall|i: int|
                0 <= i < stop ==> #[trigger] is_renewed_at(
                    old(contents)@,
                    final(contents)@,
                    envelope_uri@,
                    renewals@,
                    i,
                )
            &&& forall|i: int|
                stop <= i < old(contents)@.len() ==> #[trigger] final(contents)@[i] == old(
                    contents,
                )@[i]
        }),
{
    let ghost before = contents@;
    let mut several = false;
    let mut any = false;
    let mut k: usize = 0;
    let mut i: usize = 0;
    assert(before.take(0) =~= Seq::empty());
    while i < contents.len()
        invariant
            before == old(contents)@,
            contents@.len() == before.len(),
            i <= before.len(),
            envelopes_in(before, envelope_uri@).len() <= renewals@.len(),
            k == envelopes_in(before.take(i as int), envelope_uri@).len(),
            first_unreadable(before, envelope_uri@, 0) == first_unreadable(
                before,
                envelope_uri@,
                i as int,
            ),
            forall|j: int|
                0 <= j < i ==> #[trigger] is_renewed_at(
                    before,
                    contents@,
                    envelope_uri@,
                    renewals@,
                    j,
                ),
            forall|j: int| i <= j < before.len() ==> #[trigger] contents@[j] == before[j],
            any == (envelope_count(before.take(i as int), envelope_uri@) > 0),
            several == (envelope_count(before.take(i as int), envelope_uri@) > 1),
        decreases before.len() - i,
    {
        let ghost then = contents@;
        proof {
            assert(before.take(i + 1).drop_last() =~= before.take(i as int));
            assert(before.take(i + 1).last() == before[i as int]);
            lemma_fewer_envelopes(before, envelope_uri@, i + 1);
        }
        let holds = match &contents[i] {
            ContentBlock::Text { envelope, .. } => envelope.is_some(),
            ContentBlock::TextResource { uri, .. } => same_text(uri.as_str(), envelope_uri),
            ContentBlock::Other => false,
        };
        if holds {
            let renewed = match read_envelope(&contents[i], envelope_uri) {
                Some(envelope) => {
                    let mut renewed = envelope.copied();
                    renewed.turn_id = renewals[k].turn_id.clone();
                    renewed
                },
                None => {
                    let reason = match &contents[i] {
                        ContentBlock::TextResource {
                            envelope: EnvelopeReading::Unreadable(reason),
                            ..
                        } => reason.clone(),
                        _ => String::new(),
                    };
                    return Err(AiContextError::UnreadableEnvelope(reason));
                },
            };
            let metadata = renewals[k].metadata.clone();
            let block = match &contents[i] {
                ContentBlock::Text { .. } => ContentBlock::Text {
                    text: metadata,
                    envelope: Some(renewed),
                },
                ContentBlock::TextResource { uri, .. } => ContentBlock::TextResource {
                    uri: uri.clone(),
                    text: metadata,
                    envelope: EnvelopeReading::Envelope(renewed),
                },
                ContentBlock::Other => ContentBlock::Other,
            };
            contents.set(i, block);
            assert(k < renewals.len());
            k += 1;
            if any {
                several = true;
            }
            any = true;
        }
        proof {
            assert(is_renewed_at(before, contents@, envelope_uri@, renewals@, i as int));
            assert forall|j: int| 0 <= j < i + 1 implies #[trigger] is_renewed_at(
                before,
                contents@,
                envelope_uri@,
                renewals@,
                j,
            ) by {
                if j < i {
                    assert(is_renewed_at(before, then, envelope_uri@, renewals@, j));
                    assert(contents@[j] == then[j]);
                }
            }
        }
        i += 1;
    }
    assert(before.take(i as int) =~= before);
    if several {
        Err(AiContextError::DuplicateEnvelopes)
    } else {
        Ok(())
    }
}

/// What is sent with a prompt: the prompt, which may read as an envelope itself, and the context
/// and the envelope after it.
pub fn content_blocks(
    prompt: &str,
    prompt_envelope: Option<StackReviewTurnEnvelope>,
    context: &StackReviewAiContext,
    envelope: &StackReviewTurnEnvelope,
    envelope_uri: &str,
    metadata: &str,
) -> (blocks: Result<Vec<ContentBlock>, AiContextError>)
    ensures
        match blocks {
            Ok(blocks) => {
                &&& trimmed(prompt@).len() > 0
                &&& append_problem(*context, *envelope) is None
                &&& blocks@.len() == context.resources@.len() + 2
                &&& blocks@[0] matches ContentBlock::Text { text, envelope } && text@ == prompt@
                    && envelope == prompt_envelope
                &&& blocks@.subrange(1, blocks@.len() - 1) == resource_blocks(context.resources@)
                &&& is_envelope_block(blocks@.last(), envelope_uri@, metadata@, *envelope)
                &&& holds_resources(blocks@, 1, context.resources@)
            },
            Err(error) => if trimmed(prompt@).len() == 0 {
                error == AiContextError::EmptyPrompt
            } else {
                append_problem(*context, *envelope) == Some(error)
            },
        },
{
    if trim_text(prompt).unicode_len() == 0 {
        return Err(AiContextError::EmptyPrompt);
    }
    let mut blocks: Vec<ContentBlock> = Vec::new();
    blocks.push(ContentBlock::Text { text: prompt.to_owned(), envelope: prompt_envelope });
    let ghost first = blocks@;
    match append_stack_review_context_with_envelope(
        &mut blocks,
        context,
        envelope,
        envelope_uri,
        metadata,
    ) {
        Ok(()) => {
            proof {
                let listed = blocks@.drop_last();
                assert(listed == first + resource_blocks(context.resources@));
                assert(blocks@[0] == listed[0]);
                assert(listed[0] == first[0]);
                assert(blocks@.subrange(1, blocks@.len() - 1) =~= resource_blocks(
                    context.resources@,
                )) by {
                    assert forall|i: int| 0 <= i < context.resources@.len() implies #[trigger]
                        blocks@.subrange(1, blocks@.len() - 1)[i] == resource_blocks(
                        context.resources@,
                    )[i] by {
                        assert(blocks@[i + 1] == listed[i + 1]);
                        assert(listed[i + 1] == resource_blocks(context.resources@)[i]);
                    }
                }
            }
            Ok(blocks)
        },
        Err(error) => Err(error),
    }
}

/// An envelope for a new turn about a context.
pub fn new_envelope(turn_id: String, context: &StackReviewAiContext) -> (envelope: Result<
    StackReviewTurnEnvelope,
    AiContextError,
>)
    ensures
        envelope == if context.resources@.len() == 0 {
            Err::<StackReviewTurnEnvelope, AiContextError>(AiContextError::NoCitation)
        } else {
            Ok(envelope_for(turn_id, *context))
        },
{
    if context.resources.len() == 0 {
        return Err(AiContextError::NoCitation);
    }
    Ok(
        StackReviewTurnEnvelope {
            turn_id,
            project_identity: context.resources[0].citation.project_identity.clone(),
            context_key: context.key.copied(),
            projection_target: copied_text(&context.selected_record_id),
        },
    )
}

/// An envelope for a new turn about a context.
pub open spec fn envelope_for(
    turn_id: String,
    context: StackReviewAiContext,
) -> StackReviewTurnEnvelope {
    StackReviewTurnEnvelope {
        turn_id,
        project_identity: context.resources@[0].citation.project_identity,
        context_key: context.key,
        projection_target: context.selected_record_id,
    }
}

/// What a prompt begins with, and whether it is sent without being asked for.
#[derive(Clone, Debug)]
pub struct AgentInitialContent {
    pub blocks: Vec<ContentBlock>,
    pub auto_submit: bool,
}

/// What a prompt about a context begins with. It is never sent without being asked for.
pub fn composer_initial_content(
    context: &StackReviewAiContext,
    envelope: &StackReviewTurnEnvelope,
    envelope_uri: &str,
    metadata: &str,
) -> (content: Result<AgentInitialContent, AiContextError>)
    ensures
        match content {
            Ok(content) => {
                &&& append_problem(*context, *envelope) is None
                &&& !content.auto_submit
                &&& content.blocks@.len() == context.resources@.len() + 1
                &&& content.blocks@.drop_last() == resource_blocks(context.resources@)
                &&& is_envelope_block(content.blocks@.last(), envelope_uri@, metadata@, *envelope)
                &&& holds_resources(content.blocks@, 0, context.resources@)
            },
            Err(error) => append_problem(*context, *envelope) == Some(error),
        },
{
    let mut blocks: Vec<ContentBlock> = Vec::new();
    let ghost first = blocks@;
    match append_stack_review_context_with_envelope(
        &mut blocks,
        context,
        envelope,
        envelope_uri,
        metadata,
    ) {
        Ok(()) => {
            assert(blocks@.drop_last() =~= resource_blocks(context.resources@));
            Ok(AgentInitialContent { blocks, auto_submit: false })
        },
        Err(error) => Err(error),
    }
}

proof fn lemma_no_envelopes(resources: Seq<StackReviewAiResource>, envelope_uri: Seq<char>)
    ensures
        envelopes_in(resource_blocks(resources), envelope_uri) == Seq::<
            StackReviewTurnEnvelope,
        >::empty(),
    decreases resources.len(),
{
    if resources.len() > 0 {
        lemma_no_envelopes(resources.drop_last(), envelope_uri);
        assert(resource_blocks(resources).drop_last() =~= resource_blocks(resources.drop_last()));
        assert(resource_blocks(resources).last() == resource_block(resources.last()));
    }
}

/// What is written for an agent is read back as one envelope, and the one it was written with.
pub proof fn written_envelope_is_read_back(
    blocks: Seq<ContentBlock>,
    context: StackReviewAiContext,
    envelope: StackReviewTurnEnvelope,
    envelope_uri: Seq<char>,
    metadata: Seq<char>,
)
    requires
        append_problem(context, envelope) is None,
        envelope.context_key.same_as(context.key),
        appends_context(Seq::empty(), blocks, context, envelope, envelope_uri, metadata),
    ensures
        turn_envelope(
            blocks,
            envelope_uri,
            context.key,
            origin_of(context).project_identity@,
        ) == Some(envelope),
{
    lemma_no_envelopes(context.resources@, envelope_uri);
    assert(Seq::<ContentBlock>::empty() + resource_blocks(context.resources@) =~= resource_blocks(
        context.resources@,
    ));
    assert(envelope_of(blocks.last(), envelope_uri) == Some(envelope));
}

/// Another turn keeps what an envelope is for.
pub proof fn renewed_envelope_keeps_its_context(
    before: ContentBlock,
    after: ContentBlock,
    envelope_uri: Seq<char>,
    turn_id: Seq<char>,
    metadata: Seq<char>,
)
    requires
        is_renewed(before, after, envelope_uri, turn_id, metadata),
        envelope_of(before, envelope_uri) is Some,
    ensures
        envelope_of(after, envelope_uri) is Some,
        envelope_of(after, envelope_uri)->0.context_key == envelope_of(
            before,
            envelope_uri,
        )->0.context_key,
        envelope_of(after, envelope_uri)->0.project_identity == envelope_of(
            before,
            envelope_uri,
        )->0.project_identity,
        envelope_of(after, envelope_uri)->0.projection_target == envelope_of(
            before,
            envelope_uri,
        )->0.projection_target,
{
}

} // verus!
