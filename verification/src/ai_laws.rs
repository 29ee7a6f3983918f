//! Laws on what an agent is given and on what is shown of its answers.

use crate::ai_context::{
    append_problem, appends_context, envelope_for, envelope_of, envelopes_in, first_unfit,
    holds_resources, is_renewed, is_resource, origin_of, origin_problem, resource_fits,
    turn_envelope, AiContextError, ContentBlock, EnvelopeReading, StackReviewAiContext,
    StackReviewAiContextKey, StackReviewAiResource, StackReviewThreadOrigin,
    StackReviewTurnEnvelope,
};
use crate::ai_host::{
    is_plan_for, is_sent_for, request_problem, ActivationPlan, ActivationTarget, SessionLookup,
    StackReviewAiSubmitRequest,
};
use crate::ai_observer::{
    assistant_turns, current_envelope, first_new, follows_event, markdown_in, markdown_of,
    shows_thread, status_for_stop, turns_under, AcpThreadEvent, AgentThread, AgentThreadEntry,
    AiStatusView, AssistantMessageChunk, ProjectionAction, StackReviewAiProjectionUpdate,
    StackReviewAiStatus, StackReviewAiTurn, StopReason, ThreadObserver,
};
use crate::trim::trimmed;
use vstd::prelude::*;
use vstd::string::*;

verus! {

/// Whether a resource was taken from the review, the project and the snapshot that a context and an
/// envelope are for.
pub open spec fn is_cited(
    resource: StackReviewAiResource,
    context: StackReviewAiContext,
    envelope: StackReviewTurnEnvelope,
) -> bool {
    &&& resource.citation.project_identity@ == envelope.project_identity@
    &&& resource.citation.storage_key@ == context.key.storage_key@
    &&& resource.citation.base_oid@ == context.base_oid@
    &&& resource.citation.head_oid@ == context.head_oid@
}

proof fn lemma_first_unfit(
    resources: Seq<StackReviewAiResource>,
    origin: StackReviewThreadOrigin,
    from: int,
)
    requires
        0 <= from <= resources.len(),
    ensures
        from <= first_unfit(resources, origin, from) <= resources.len(),
        forall|i: int|
            from <= i < first_unfit(resources, origin, from) ==> resource_fits(
                #[trigger] resources[i],
                origin,
            ),
        first_unfit(resources, origin, from) < resources.len() ==> !resource_fits(
            resources[first_unfit(resources, origin, from)],
            origin,
        ),
    decreases resources.len() - from,
{
    if from < resources.len() && resource_fits(resources[from], origin) {
        lemma_first_unfit(resources, origin, from + 1);
    }
}

/// A context is sent exactly where it has a resource and each of its resources was taken from the
/// review, the project and the snapshot that the context and the envelope are for.
pub proof fn only_cited_contexts_are_sent(
    context: StackReviewAiContext,
    envelope: StackReviewTurnEnvelope,
)
    ensures
        append_problem(context, envelope) is None <==> context.resources@.len() > 0 && forall|i: int|
            0 <= i < context.resources@.len() ==> is_cited(
                #[trigger] context.resources@[i],
                context,
                envelope,
            ),
        append_problem(context, envelope) == Some(AiContextError::NoCitation)
            <==> context.resources@.len() == 0,
        append_problem(context, envelope) == Some(AiContextError::OtherStorageKey)
            <==> context.resources@.len() > 0 && context.resources@[0].citation.storage_key@
            != context.key.storage_key@,
        append_problem(context, envelope) == Some(AiContextError::OtherProject) ==> envelope.project_identity@
            != context.resources@[0].citation.project_identity@,
        append_problem(context, envelope) == Some(AiContextError::OtherResource) ==> exists|i: int|
            0 < i < context.resources@.len() && !is_cited(
                #[trigger] context.resources@[i],
                context,
                envelope,
            ),
{
    if origin_problem(context) is None {
        let origin = origin_of(context);
        lemma_first_unfit(context.resources@, origin, 0);
        let at = first_unfit(context.resources@, origin, 0);
        if envelope.project_identity@ == origin.project_identity@ {
            assert forall|i: int| 0 <= i < context.resources@.len() implies is_cited(
                #[trigger] context.resources@[i],
                context,
                envelope,
            ) == resource_fits(context.resources@[i], origin) by {}
            assert(is_cited(context.resources@[0], context, envelope));
            if at < context.resources@.len() {
                assert(!is_cited(context.resources@[at], context, envelope));
            }
        } else {
            assert(!is_cited(context.resources@[0], context, envelope));
        }
    } else if context.resources@.len() > 0 {
        assert(!is_cited(context.resources@[0], context, envelope));
    }
}

/// Where a context is sent, each of its resources is, in their order and behind what was there, and
/// the envelope behind them; where one of them does not fit, those before it are there.
pub proof fn every_resource_is_sent(
    before: Seq<ContentBlock>,
    after: Seq<ContentBlock>,
    context: StackReviewAiContext,
    envelope: StackReviewTurnEnvelope,
    envelope_uri: Seq<char>,
    metadata: Seq<char>,
)
    requires
        appends_context(before, after, context, envelope, envelope_uri, metadata),
    ensures
        after.len() >= before.len(),
        forall|k: int| 0 <= k < before.len() ==> #[trigger] after[k] == before[k],
        append_problem(context, envelope) is None ==> {
            &&& after.len() == before.len() + context.resources@.len() + 1
            &&& forall|i: int|
                0 <= i < context.resources@.len() ==> {
                    let block = #[trigger] after[before.len() + i];
                    &&& block is TextResource
                    &&& block->TextResource_uri@ == context.resources@[i].uri@
                    &&& block->TextResource_text@ == context.resources@[i].text@
                    &&& block->TextResource_envelope is Unread
                }
            &&& after.last() is TextResource
            &&& after.last()->TextResource_uri@ == envelope_uri
            &&& after.last()->TextResource_text@ == metadata
            &&& after.last()->TextResource_envelope == EnvelopeReading::Envelope(envelope)
        },
        append_problem(context, envelope) is Some ==> {
            &&& after.len() < before.len() + context.resources@.len() || after.len() == before.len()
            &&& forall|i: int|
                0 <= i < after.len() - before.len() ==> is_resource(
                    #[trigger] after[before.len() + i],
                    context.resources@[i],
                )
        },
{
    if append_problem(context, envelope) is None {
        assert forall|k: int| 0 <= k < before.len() implies #[trigger] after[k] == before[k] by {
            assert(after.drop_last()[k] == after[k]);
        }
        assert forall|i: int| 0 <= i < context.resources@.len() implies is_resource(
            #[trigger] after[before.len() + i],
            context.resources@[i],
        ) by {
            assert(after.drop_last()[before.len() + i] == after[before.len() + i]);
        }
    } else if append_problem(context, envelope) == Some(AiContextError::OtherResource) {
        lemma_first_unfit(context.resources@, origin_of(context), 0);
    }
}

/// What is sent for a prompt is the prompt, then each resource of its context, then its envelope.
pub proof fn prompt_is_sent_with_its_context(
    blocks: Seq<ContentBlock>,
    request: StackReviewAiSubmitRequest,
    envelope_uri: Seq<char>,
)
    requires
        is_sent_for(blocks, request, envelope_uri),
    ensures
        blocks.len() == request.context.resources@.len() + 2,
        blocks[0] is Text,
        blocks[0]->Text_text@ == request.prompt@,
        holds_resources(blocks, 1, request.context.resources@),
        blocks.last() is TextResource,
        blocks.last()->TextResource_uri@ == envelope_uri,
        blocks.last()->TextResource_text@ == request.metadata@,
        blocks.last()->TextResource_envelope == EnvelopeReading::Envelope(request.envelope),
{
    let sent = blocks.subrange(1, blocks.len() - 1);
    assert forall|i: int| 0 <= i < request.context.resources@.len() implies is_resource(
        #[trigger] blocks[1 + i],
        request.context.resources@[i],
    ) by {
        assert(sent[i] == blocks[1 + i]);
    }
}

/// A prompt is sent only where it is not blank, its context can be sent, and the session is one of
/// its owner, about exactly this context, and takes prompts now.
pub proof fn prompts_go_to_their_own_session(
    request: StackReviewAiSubmitRequest,
    lookup: SessionLookup,
)
    ensures
        request_problem(request, lookup) is None <==> {
            &&& trimmed(request.prompt@).len() > 0
            &&& append_problem(request.context, request.envelope) is None
            &&& lookup.has_workspace
            &&& lookup.has_panel
            &&& lookup.thread is Some
            &&& lookup.conversation is Some
            &&& lookup.conversation->0.owner@ == request.session_owner@
            &&& lookup.conversation->0.refusal is None
            &&& lookup.conversation->0.has_thread
            &&& lookup.conversation->0.origin is Some
            &&& is_about(lookup.conversation->0.origin->0, request.context)
        },
{
}

/// Whether a thread is about a context: of the same project, review, part and snapshot.
pub open spec fn is_about(origin: StackReviewThreadOrigin, context: StackReviewAiContext) -> bool {
    &&& context.resources@.len() > 0
    &&& origin.project_identity@ == context.resources@[0].citation.project_identity@
    &&& origin.storage_key@ == context.key.storage_key@
    &&& origin.context_key@ == context.key.stable_key@
    &&& origin.base_oid@ == context.base_oid@
    &&& origin.head_oid@ == context.head_oid@
}

/// A thread is opened about its context and under its title; it goes on with the session that was
/// kept, where one was, and its prompt begins with the context where that is asked for.
pub proof fn threads_are_opened_about_their_context(
    plan: ActivationPlan,
    context: StackReviewAiContext,
    persisted_session_id: Option<String>,
    composer: Option<StackReviewTurnEnvelope>,
    envelope_uri: Seq<char>,
    metadata: Seq<char>,
)
    requires
        is_plan_for(plan, context, persisted_session_id, composer, envelope_uri, metadata),
        context.resources@.len() > 0,
    ensures
        is_about(plan.origin, context),
        plan.title@ == context.title@,
        persisted_session_id is None <==> plan.target is Create,
        persisted_session_id is Some ==> plan.target == (ActivationTarget::Resume {
            session_id: persisted_session_id->0,
        }),
        plan.initial_content is Some <==> composer is Some,
        plan.initial_content matches Some(content) ==> {
            &&& !content.auto_submit
            &&& content.blocks@.len() == context.resources@.len() + 1
            &&& holds_resources(content.blocks@, 0, context.resources@)
            &&& envelope_of(content.blocks@.last(), envelope_uri) == composer
        },
{
    if let Some(content) = plan.initial_content {
        let sent = content.blocks@.drop_last();
        assert forall|i: int| 0 <= i < context.resources@.len() implies is_resource(
            #[trigger] content.blocks@[0 + i],
            context.resources@[i],
        ) by {
            assert(sent[i] == content.blocks@[i]);
        }
    }
}

/// An envelope that is made for a context is for its project and its part of the review, and has its
/// answers shown at the selected record.
pub proof fn envelopes_are_for_their_context(turn_id: String, context: StackReviewAiContext)
    requires
        context.resources@.len() > 0,
    ensures
        envelope_for(turn_id, context).turn_id@ == turn_id@,
        envelope_for(turn_id, context).project_identity@
            == context.resources@[0].citation.project_identity@,
        envelope_for(turn_id, context).context_key.storage_key@ == context.key.storage_key@,
        envelope_for(turn_id, context).context_key.stable_key@ == context.key.stable_key@,
        envelope_for(turn_id, context).projection_target == context.selected_record_id,
{
}

/// Whether the part of a message at `i` reads as `envelope` and no other part reads as any.
pub open spec fn is_only_envelope(
    chunks: Seq<ContentBlock>,
    envelope_uri: Seq<char>,
    i: int,
    envelope: StackReviewTurnEnvelope,
) -> bool {
    &&& 0 <= i < chunks.len()
    &&& reads_as(chunks[i], envelope_uri, envelope)
    &&& forall|k: int, other: StackReviewTurnEnvelope|
        0 <= k < chunks.len() && #[trigger] reads_as(chunks[k], envelope_uri, other) ==> k == i
}

/// Whether a part of a message reads as an envelope: as a text, or as a resource at the place of
/// envelopes.
pub open spec fn reads_as(
    block: ContentBlock,
    envelope_uri: Seq<char>,
    envelope: StackReviewTurnEnvelope,
) -> bool {
    ||| block is Text && block->Text_envelope == Some(envelope)
    ||| block is TextResource && block->TextResource_uri@ == envelope_uri
        && block->TextResource_envelope == EnvelopeReading::Envelope(envelope)
}

/// Whether no part of a message but the one at `i` reads as an envelope.
spec fn no_other_envelope(chunks: Seq<ContentBlock>, envelope_uri: Seq<char>, i: int) -> bool {
    forall|k: int|
        0 <= k < chunks.len() && k != i ==> envelope_of(#[trigger] chunks[k], envelope_uri) is None
}

proof fn lemma_no_envelope(chunks: Seq<ContentBlock>, envelope_uri: Seq<char>)
    ensures
        envelopes_in(chunks, envelope_uri).len() == 0 <==> no_other_envelope(
            chunks,
            envelope_uri,
            -1,
        ),
    decreases chunks.len(),
{
    if chunks.len() > 0 {
        let rest = chunks.drop_last();
        lemma_no_envelope(rest, envelope_uri);
        if no_other_envelope(chunks, envelope_uri, -1) {
            assert forall|k: int| 0 <= k < rest.len() && k != -1 implies envelope_of(
                #[trigger] rest[k],
                envelope_uri,
            ) is None by {
                assert(rest[k] == chunks[k]);
            }
            assert(envelope_of(chunks[chunks.len() - 1], envelope_uri) is None);
        }
        if envelopes_in(chunks, envelope_uri).len() == 0 {
            assert forall|k: int| 0 <= k < chunks.len() && k != -1 implies envelope_of(
                #[trigger] chunks[k],
                envelope_uri,
            ) is None by {
                if k < rest.len() {
                    assert(envelope_of(rest[k], envelope_uri) is None);
                }
            }
        }
    }
}

proof fn lemma_found_envelope(chunks: Seq<ContentBlock>, envelope_uri: Seq<char>) -> (i: int)
    requires
        envelopes_in(chunks, envelope_uri).len() == 1,
    ensures
        0 <= i < chunks.len(),
        envelope_of(chunks[i], envelope_uri) == Some(envelopes_in(chunks, envelope_uri)[0]),
        no_other_envelope(chunks, envelope_uri, i),
    decreases chunks.len(),
{
    let rest = chunks.drop_last();
    let last = chunks.len() - 1;
    if envelope_of(chunks[last], envelope_uri) is Some {
        lemma_no_envelope(rest, envelope_uri);
        assert forall|k: int| 0 <= k < chunks.len() && k != last implies envelope_of(
            #[trigger] chunks[k],
            envelope_uri,
        ) is None by {
            assert(envelope_of(rest[k], envelope_uri) is None);
        }
        last
    } else {
        let i = lemma_found_envelope(rest, envelope_uri);
        assert(rest[i] == chunks[i]);
        assert forall|k: int| 0 <= k < chunks.len() && k != i implies envelope_of(
            #[trigger] chunks[k],
            envelope_uri,
        ) is None by {
            if k < rest.len() {
                assert(envelope_of(rest[k], envelope_uri) is None);
            }
        }
        i
    }
}

proof fn lemma_one_envelope(chunks: Seq<ContentBlock>, envelope_uri: Seq<char>, i: int)
    requires
        0 <= i < chunks.len(),
        envelope_of(chunks[i], envelope_uri) is Some,
        no_other_envelope(chunks, envelope_uri, i),
    ensures
        envelopes_in(chunks, envelope_uri) == seq![envelope_of(chunks[i], envelope_uri)->0],
    decreases chunks.len(),
{
    let rest = chunks.drop_last();
    assert forall|k: int| 0 <= k < rest.len() && k != i implies envelope_of(
        #[trigger] rest[k],
        envelope_uri,
    ) is None by {
        assert(rest[k] == chunks[k]);
    }
    if i == chunks.len() - 1 {
        lemma_no_envelope(rest, envelope_uri);
        assert(no_other_envelope(rest, envelope_uri, -1));
        assert(envelopes_in(chunks, envelope_uri) =~= seq![
            envelope_of(chunks[i], envelope_uri)->0,
        ]);
    } else {
        assert(rest[i] == chunks[i]);
        lemma_one_envelope(rest, envelope_uri, i);
        assert(envelope_of(chunks[chunks.len() - 1], envelope_uri) is None);
    }
}

/// A message is marked by an envelope exactly where one part of it reads as one, no other does, and
/// it is for this part of the review and this project.
pub proof fn messages_are_marked_by_one_envelope(
    chunks: Seq<ContentBlock>,
    envelope_uri: Seq<char>,
    context_key: StackReviewAiContextKey,
    project_identity: Seq<char>,
    envelope: StackReviewTurnEnvelope,
)
    ensures
        turn_envelope(chunks, envelope_uri, context_key, project_identity) == Some(envelope) <==> {
            &&& exists|i: int| is_only_envelope(chunks, envelope_uri, i, envelope)
            &&& envelope.context_key.storage_key@ == context_key.storage_key@
            &&& envelope.context_key.stable_key@ == context_key.stable_key@
            &&& envelope.project_identity@ == project_identity
        },
{
    if turn_envelope(chunks, envelope_uri, context_key, project_identity) == Some(envelope) {
        let i = lemma_found_envelope(chunks, envelope_uri);
        assert(reads_as(chunks[i], envelope_uri, envelope));
        assert forall|k: int, other: StackReviewTurnEnvelope|
            0 <= k < chunks.len() && #[trigger] reads_as(
                chunks[k],
                envelope_uri,
                other,
            ) implies k == i by {
            assert(envelope_of(chunks[k], envelope_uri) == Some(other));
        }
        assert(is_only_envelope(chunks, envelope_uri, i, envelope));
    }
    if exists|i: int| is_only_envelope(chunks, envelope_uri, i, envelope) {
        let i = choose|i: int| is_only_envelope(chunks, envelope_uri, i, envelope);
        assert(envelope_of(chunks[i], envelope_uri) == Some(envelope));
        assert forall|k: int| 0 <= k < chunks.len() && k != i implies envelope_of(
            #[trigger] chunks[k],
            envelope_uri,
        ) is None by {
            if envelope_of(chunks[k], envelope_uri) is Some {
                assert(reads_as(
                    chunks[k],
                    envelope_uri,
                    envelope_of(chunks[k], envelope_uri)->0,
                ));
            }
        }
        lemma_one_envelope(chunks, envelope_uri, i);
        assert(envelopes_in(chunks, envelope_uri)[0] == envelope);
    }
}

/// Another turn is given to an envelope and to nothing else: a part that reads as one reads as the
/// same one of that turn, written as it is asked for and where it was, and any other part is left as
/// it is.
pub proof fn only_the_turn_is_renewed(
    before: ContentBlock,
    after: ContentBlock,
    envelope_uri: Seq<char>,
    turn_id: Seq<char>,
    metadata: Seq<char>,
    envelope: StackReviewTurnEnvelope,
)
    requires
        is_renewed(before, after, envelope_uri, turn_id, metadata),
    ensures
        reads_as(before, envelope_uri, envelope) ==> {
            &&& before is Text <==> after is Text
            &&& after is Text ==> after->Text_text@ == metadata
            &&& after is TextResource ==> after->TextResource_text@ == metadata
                && after->TextResource_uri == before->TextResource_uri
            &&& exists|now: StackReviewTurnEnvelope|
                #![trigger reads_as(after, envelope_uri, now)]
                reads_as(after, envelope_uri, now) && now.turn_id@ == turn_id
                    && now.project_identity == envelope.project_identity && now.context_key
                    == envelope.context_key && now.projection_target == envelope.projection_target
        },
        (forall|other: StackReviewTurnEnvelope| !#[trigger] reads_as(before, envelope_uri, other))
            ==> after == before,
{
    if reads_as(before, envelope_uri, envelope) {
        assert(envelope_of(before, envelope_uri) == Some(envelope));
        let now = envelope_of(after, envelope_uri)->0;
        assert(reads_as(after, envelope_uri, now));
    }
    if envelope_of(before, envelope_uri) is Some {
        assert(reads_as(before, envelope_uri, envelope_of(before, envelope_uri)->0));
    }
}

/// A piece of an answer is shown by its text, and a thought by none.
pub open spec fn is_answer(entries: Seq<AgentThreadEntry>, e: int, c: int, markdown: u64) -> bool {
    &&& 0 <= e < entries.len()
    &&& entries[e] is AssistantMessage
    &&& 0 <= c < entries[e]->AssistantMessage_chunks@.len()
    &&& entries[e]->AssistantMessage_chunks@[c] == (AssistantMessageChunk::Message {
        markdown: Some(markdown),
    })
}

/// Whether the entry at `u` is the last message of the user before the one at `e`.
pub open spec fn is_asked_by(entries: Seq<AgentThreadEntry>, u: int, e: int) -> bool {
    &&& 0 <= u < e <= entries.len()
    &&& entries[u] is UserMessage
    &&& forall|k: int| u < k < e ==> !(#[trigger] entries[k] is UserMessage)
}

proof fn lemma_markdown_in(chunks: Seq<AssistantMessageChunk>, markdown: u64)
    ensures
        markdown_in(chunks).contains(markdown) <==> chunks.contains(
            AssistantMessageChunk::Message { markdown: Some(markdown) },
        ),
    decreases chunks.len(),
{
    if chunks.len() > 0 {
        let rest = chunks.drop_last();
        lemma_markdown_in(rest, markdown);
        let chunk = AssistantMessageChunk::Message { markdown: Some(markdown) };
        let before = markdown_in(rest);
        let now = markdown_in(chunks);
        if now.contains(markdown) {
            let k = choose|k: int| 0 <= k < now.len() && now[k] == markdown;
            if k < before.len() {
                assert(before[k] == markdown);
                let c = choose|c: int| 0 <= c < rest.len() && rest[c] == chunk;
                assert(chunks[c] == chunk);
            } else {
                assert(chunks[chunks.len() - 1] == chunk);
            }
        }
        if chunks.contains(chunk) {
            let c = choose|c: int| 0 <= c < chunks.len() && chunks[c] == chunk;
            if c < rest.len() {
                assert(rest[c] == chunk);
                let k = choose|k: int| 0 <= k < before.len() && before[k] == markdown;
                assert(now[k] == markdown);
            } else {
                assert(now[now.len() - 1] == markdown);
            }
        }
    }
}

proof fn lemma_asked_envelope(
    entries: Seq<AgentThreadEntry>,
    envelope_uri: Seq<char>,
    context_key: StackReviewAiContextKey,
    project_identity: Seq<char>,
    u: int,
    e: int,
)
    requires
        is_asked_by(entries, u, e),
    ensures
        current_envelope(entries.take(e), envelope_uri, context_key, project_identity)
            == turn_envelope(
            entries[u]->UserMessage_chunks@,
            envelope_uri,
            context_key,
            project_identity,
        ),
    decreases e,
{
    let some = entries.take(e);
    if u == e - 1 {
        assert(some.last() == entries[u]);
    } else {
        assert(is_asked_by(entries, u, e - 1));
        lemma_asked_envelope(entries, envelope_uri, context_key, project_identity, u, e - 1);
        assert(some.last() == entries[e - 1]);
        assert(some.drop_last() =~= entries.take(e - 1));
    }
}

/// Every text of an answer to a message that an envelope marks is shown under that envelope.
pub proof fn every_marked_answer_is_shown(
    entries: Seq<AgentThreadEntry>,
    envelope_uri: Seq<char>,
    context_key: StackReviewAiContextKey,
    project_identity: Seq<char>,
    u: int,
    e: int,
    c: int,
    markdown: u64,
    envelope: StackReviewTurnEnvelope,
)
    requires
        is_answer(entries, e, c, markdown),
        is_asked_by(entries, u, e),
        turn_envelope(
            entries[u]->UserMessage_chunks@,
            envelope_uri,
            context_key,
            project_identity,
        ) == Some(envelope),
    ensures
        assistant_turns(entries, envelope_uri, context_key, project_identity).contains(
            StackReviewAiTurn { envelope, markdown },
        ),
    decreases entries.len(),
{
    let rest = entries.drop_last();
    let before = assistant_turns(rest, envelope_uri, context_key, project_identity);
    let now = assistant_turns(entries, envelope_uri, context_key, project_identity);
    let turn = StackReviewAiTurn { envelope, markdown };
    if e < entries.len() - 1 {
        assert(rest[e] == entries[e]);
        assert(rest[u] == entries[u]);
        assert forall|k: int| u < k < e implies !(#[trigger] rest[k] is UserMessage) by {
            assert(rest[k] == entries[k]);
        }
        every_marked_answer_is_shown(
            rest,
            envelope_uri,
            context_key,
            project_identity,
            u,
            e,
            c,
            markdown,
            envelope,
        );
        let i = choose|i: int| 0 <= i < before.len() && before[i] == turn;
        assert(now[i] == turn);
    } else {
        assert(entries.take(e) =~= rest);
        lemma_asked_envelope(entries, envelope_uri, context_key, project_identity, u, e);
        let chunks = entries[e]->AssistantMessage_chunks@;
        assert(chunks.contains(AssistantMessageChunk::Message { markdown: Some(markdown) }));
        lemma_markdown_in(chunks, markdown);
        let more = markdown_in(chunks);
        let k = choose|k: int| 0 <= k < more.len() && more[k] == markdown;
        assert(turns_under(Some(envelope), more)[k] == turn);
        assert(now[before.len() + k] == turn);
    }
}

/// Whether a text answers, in the entry at `e`, the message at `u`, which is marked by `envelope`.
pub open spec fn is_marked_answer(
    entries: Seq<AgentThreadEntry>,
    envelope_uri: Seq<char>,
    context_key: StackReviewAiContextKey,
    project_identity: Seq<char>,
    u: int,
    e: int,
    turn: StackReviewAiTurn,
) -> bool {
    &&& 0 <= e < entries.len()
    &&& entries[e] is AssistantMessage
    &&& entries[e]->AssistantMessage_chunks@.contains(
        AssistantMessageChunk::Message { markdown: Some(turn.markdown) },
    )
    &&& is_asked_by(entries, u, e)
    &&& turn_envelope(
        entries[u]->UserMessage_chunks@,
        envelope_uri,
        context_key,
        project_identity,
    ) == Some(turn.envelope)
}

proof fn lemma_asked(
    entries: Seq<AgentThreadEntry>,
    envelope_uri: Seq<char>,
    context_key: StackReviewAiContextKey,
    project_identity: Seq<char>,
) -> (u: int)
    requires
        current_envelope(entries, envelope_uri, context_key, project_identity) is Some,
    ensures
        is_asked_by(entries, u, entries.len() as int),
    decreases entries.len(),
{
    if entries.last() is UserMessage {
        entries.len() - 1
    } else {
        let rest = entries.drop_last();
        let u = lemma_asked(rest, envelope_uri, context_key, project_identity);
        assert(rest[u] == entries[u]);
        assert forall|k: int| u < k < entries.len() implies !(#[trigger] entries[k] is UserMessage) by {
            if k < rest.len() {
                assert(rest[k] == entries[k]);
            }
        }
        u
    }
}

/// Nothing is shown but texts of answers, each under the envelope of the message that it answers.
pub proof fn shown_answers_are_to_marked_messages(
    entries: Seq<AgentThreadEntry>,
    envelope_uri: Seq<char>,
    context_key: StackReviewAiContextKey,
    project_identity: Seq<char>,
    i: int,
) -> (place: (int, int))
    requires
        0 <= i < assistant_turns(entries, envelope_uri, context_key, project_identity).len(),
    ensures
        is_marked_answer(
            entries,
            envelope_uri,
            context_key,
            project_identity,
            place.0,
            place.1,
            assistant_turns(entries, envelope_uri, context_key, project_identity)[i],
        ),
    decreases entries.len(),
{
    let rest = entries.drop_last();
    let before = assistant_turns(rest, envelope_uri, context_key, project_identity);
    let now = assistant_turns(entries, envelope_uri, context_key, project_identity);
    if i < before.len() {
        let (u, e) = shown_answers_are_to_marked_messages(
            rest,
            envelope_uri,
            context_key,
            project_identity,
            i,
        );
        assert(now[i] == before[i]);
        assert(rest[e] == entries[e]);
        assert(rest[u] == entries[u]);
        assert forall|k: int| u < k < e implies !(#[trigger] entries[k] is UserMessage) by {
            assert(rest[k] == entries[k]);
        }
        (u, e)
    } else {
        let e = entries.len() - 1;
        let chunks = entries[e]->AssistantMessage_chunks@;
        let u = lemma_asked(rest, envelope_uri, context_key, project_identity);
        assert(rest[u] == entries[u]);
        assert forall|k: int| u < k < e implies !(#[trigger] entries[k] is UserMessage) by {
            assert(rest[k] == entries[k]);
        }
        assert(entries.take(e) =~= rest);
        lemma_asked_envelope(entries, envelope_uri, context_key, project_identity, u, e);
        let more = markdown_in(chunks);
        let k = i - before.len();
        assert(now[i].markdown == more[k]);
        assert(more.contains(more[k]));
        lemma_markdown_in(chunks, more[k]);
        (u, e)
    }
}

/// The texts that are watched are those of all answers, whatever they answer.
pub proof fn all_answers_are_watched(entries: Seq<AgentThreadEntry>, markdown: u64)
    ensures
        markdown_of(entries).to_set().contains(markdown) <==> exists|e: int, c: int|
            is_answer(entries, e, c, markdown),
    decreases entries.len(),
{
    if entries.len() > 0 {
        let rest = entries.drop_last();
        all_answers_are_watched(rest, markdown);
        let before = markdown_of(rest);
        let now = markdown_of(entries);
        let last = entries.len() - 1;
        if entries[last] is AssistantMessage {
            lemma_markdown_in(entries[last]->AssistantMessage_chunks@, markdown);
        }
        if now.contains(markdown) {
            let k = choose|k: int| 0 <= k < now.len() && now[k] == markdown;
            if k < before.len() {
                assert(before[k] == markdown);
                let (e, c) = choose|e: int, c: int| is_answer(rest, e, c, markdown);
                assert(rest[e] == entries[e]);
                assert(is_answer(entries, e, c, markdown));
            } else {
                let chunks = entries[last]->AssistantMessage_chunks@;
                assert(markdown_in(chunks)[k - before.len()] == markdown);
                let c = choose|c: int|
                    0 <= c < chunks.len() && chunks[c] == (AssistantMessageChunk::Message {
                        markdown: Some(markdown),
                    });
                assert(is_answer(entries, last, c, markdown));
            }
        }
        if exists|e: int, c: int| is_answer(entries, e, c, markdown) {
            let (e, c) = choose|e: int, c: int| is_answer(entries, e, c, markdown);
            if e < last {
                assert(rest[e] == entries[e]);
                assert(is_answer(rest, e, c, markdown));
                let k = choose|k: int| 0 <= k < before.len() && before[k] == markdown;
                assert(now[k] == markdown);
            } else {
                let chunks = entries[last]->AssistantMessage_chunks@;
                assert(chunks.contains(chunks[c]));
                let more = markdown_in(chunks);
                let k = choose|k: int| 0 <= k < more.len() && more[k] == markdown;
                assert(now[before.len() + k] == markdown);
            }
        }
    } else {
        assert(!markdown_of(entries).contains(markdown));
    }
}

/// What is shown of the first entries of a thread comes first in what is shown of it.
pub proof fn answers_are_shown_in_order(
    entries: Seq<AgentThreadEntry>,
    envelope_uri: Seq<char>,
    context_key: StackReviewAiContextKey,
    project_identity: Seq<char>,
    n: int,
)
    requires
        0 <= n <= entries.len(),
    ensures
        assistant_turns(entries.take(n), envelope_uri, context_key, project_identity).is_prefix_of(
            assistant_turns(entries, envelope_uri, context_key, project_identity),
        ),
    decreases entries.len(),
{
    let some = assistant_turns(entries.take(n), envelope_uri, context_key, project_identity);
    let all = assistant_turns(entries, envelope_uri, context_key, project_identity);
    if n == entries.len() {
        assert(entries.take(n) =~= entries);
        assert(all.subrange(0, all.len() as int) =~= all);
    } else {
        let rest = entries.drop_last();
        let before = assistant_turns(rest, envelope_uri, context_key, project_identity);
        answers_are_shown_in_order(rest, envelope_uri, context_key, project_identity, n);
        assert(rest.take(n) =~= entries.take(n));
        assert(all.subrange(0, some.len() as int) =~= before.subrange(0, some.len() as int));
    }
}

/// The texts of an answer are shown in the order of its pieces.
pub proof fn pieces_are_shown_in_order(
    chunks: Seq<AssistantMessageChunk>,
    more: Seq<AssistantMessageChunk>,
    envelope: Option<StackReviewTurnEnvelope>,
)
    ensures
        markdown_in(chunks + more) == markdown_in(chunks) + markdown_in(more),
        turns_under(envelope, markdown_in(chunks + more)) == turns_under(
            envelope,
            markdown_in(chunks),
        ) + turns_under(envelope, markdown_in(more)),
    decreases more.len(),
{
    if more.len() == 0 {
        assert(chunks + more =~= chunks);
        assert(markdown_in(chunks) + markdown_in(more) =~= markdown_in(chunks));
    } else {
        pieces_are_shown_in_order(chunks, more.drop_last(), envelope);
        assert((chunks + more).drop_last() =~= chunks + more.drop_last());
        assert((chunks + more).last() == more.last());
        assert(markdown_in(chunks + more) =~= markdown_in(chunks) + markdown_in(more));
    }
    assert(turns_under(envelope, markdown_in(chunks + more)) =~= turns_under(
        envelope,
        markdown_in(chunks),
    ) + turns_under(envelope, markdown_in(more)));
}

/// A thread is ready after the end of a turn and after nothing else; being called off is no failure,
/// and everything else is one.
pub proof fn only_the_end_of_a_turn_is_ready(reason: StopReason)
    ensures
        status_for_stop(reason) is Ready <==> reason == StopReason::EndTurn,
        status_for_stop(reason) is Canceled <==> reason == StopReason::Cancelled,
        status_for_stop(reason) is Failed <==> reason != StopReason::EndTurn && reason
            != StopReason::Cancelled,
{
}

proof fn lemma_first_new(observed: Set<u64>, ids: Seq<u64>, from: int)
    requires
        0 <= from,
    ensures
        first_new(observed, ids, from) matches Some(at) ==> from <= at < ids.len()
            && !observed.contains(ids[at]),
        first_new(observed, ids, from) is None ==> forall|k: int|
            from <= k < ids.len() ==> observed.contains(#[trigger] ids[k]),
    decreases ids.len() - from,
{
    if from < ids.len() {
        lemma_first_new(observed, ids, from + 1);
    }
}

/// An entry that changed has a thread read anew exactly where it has a text that is not watched yet;
/// a thread that is not followed changes nothing.
pub proof fn new_texts_are_read(
    before: ThreadObserver,
    after: ThreadObserver,
    id: u64,
    at: usize,
    thread: AgentThread,
    action: Option<ProjectionAction>,
)
    requires
        follows_event(before, after, id, AcpThreadEvent::EntryUpdated(at), thread, None, action),
    ensures
        before.observed_thread != Some(id) ==> after == before && action is None,
        before.observed_thread == Some(id) ==> (action is Some <==> exists|c: int, markdown: u64|
            is_answer(thread.entries@, at as int, c, markdown)
                && !before.observed_markdown_ids@.contains(markdown)),
        action matches Some(shown) ==> shown is Update && shown->Update_0.generation
            == before.generation && shown->Update_0.session_id == Some(thread.session_id)
            && shown->Update_0.assistant_turns@ == assistant_turns(
            thread.entries@,
            before.envelope_uri@,
            before.context_key,
            before.project_identity@,
        ),
{
    let ids = crate::ai_observer::entry_markdown(thread.entries@, at as int);
    lemma_first_new(before.observed_markdown_ids@, ids, 0);
    if before.observed_thread == Some(id) {
        let entries = thread.entries@;
        if let Some(k) = first_new(before.observed_markdown_ids@, ids, 0) {
            let chunks = entries[at as int]->AssistantMessage_chunks@;
            let chunk = AssistantMessageChunk::Message { markdown: Some(ids[k]) };
            assert(ids.contains(ids[k]));
            lemma_markdown_in(chunks, ids[k]);
            let c = choose|c: int| 0 <= c < chunks.len() && chunks[c] == chunk;
            assert(is_answer(entries, at as int, c, ids[k]));
        }
        if exists|c: int, markdown: u64|
            is_answer(entries, at as int, c, markdown) && !before.observed_markdown_ids@.contains(
                markdown,
            ) {
            let (c, markdown) = choose|c: int, markdown: u64|
                is_answer(entries, at as int, c, markdown)
                    && !before.observed_markdown_ids@.contains(markdown);
            let chunks = entries[at as int]->AssistantMessage_chunks@;
            assert(chunks.contains(chunks[c]));
            lemma_markdown_in(chunks, markdown);
            let k = choose|k: int| 0 <= k < ids.len() && ids[k] == markdown;
            assert(!before.observed_markdown_ids@.contains(ids[k]));
        }
    }
}

/// What is shown of a thread is that of its request and its session, and says whether it is at work.
pub proof fn threads_are_shown_as_they_stand(
    update: StackReviewAiProjectionUpdate,
    generation: u64,
    thread: AgentThread,
    envelope_uri: Seq<char>,
    context_key: StackReviewAiContextKey,
    project_identity: Seq<char>,
)
    requires
        shows_thread(
            update,
            generation,
            thread,
            envelope_uri,
            context_key,
            project_identity,
        ),
    ensures
        update.generation == generation,
        update.session_id == Some(thread.session_id),
        update.status@ is Generating <==> thread.is_generating,
        update.status@ is Ready <==> !thread.is_generating,
{
}

/// Where a thread stops, fails or changes otherwise, the status that follows is set for the request
/// that it was opened for, and no text is watched that was not before.
pub proof fn events_set_the_status(
    before: ThreadObserver,
    after: ThreadObserver,
    id: u64,
    event: AcpThreadEvent,
    thread: AgentThread,
    error_status: Option<StackReviewAiStatus>,
    action: Option<ProjectionAction>,
)
    requires
        follows_event(before, after, id, event, thread, error_status, action),
        before.observed_thread == Some(id),
    ensures
        event is Stopped || event is Error || event is LoadError || event is Refusal
            || event is StatusChanged ==> {
            &&& action is Some
            &&& action->0 is SetStatus
            &&& action->0->SetStatus_generation == before.generation
            &&& after.observed_markdown_ids@ == before.observed_markdown_ids@
        },
        event matches AcpThreadEvent::Stopped(reason) ==> (action->0->SetStatus_status@ is Ready
            <==> reason == StopReason::EndTurn),
        event is Refusal ==> action->0->SetStatus_status@ is Failed,
        event matches AcpThreadEvent::LoadError(error) ==> action->0->SetStatus_status@
            == AiStatusView::Failed(error@),
        event is Error ==> (error_status matches Some(status) ==> action->0->SetStatus_status@
            == status@) && (error_status is None ==> action->0->SetStatus_status@ is Failed),
        event is StatusChanged ==> (action->0->SetStatus_status@ is Generating
            <==> thread.is_generating),
        event is Other ==> action is None && after == before,
        event is NewEntry || event is EntriesRemoved ==> action is Some && action->0 is Update
            && action->0->Update_0.generation == before.generation && after.observed_markdown_ids@
            == markdown_of(thread.entries@).to_set(),
{
}

} // verus!
