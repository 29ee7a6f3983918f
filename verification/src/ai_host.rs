//! Asking an agent about a review: opening a thread, and sending a prompt to it.

use crate::ai_context::{
    ai_context_message, append_problem, composer_initial_content, content_blocks, envelope_for,
    is_envelope_block, origin_of, origin_problem, resource_blocks, thread_origin,
    AgentInitialContent, AiContextError, ContentBlock, StackReviewAiContext,
    StackReviewThreadOrigin, StackReviewTurnEnvelope,
};
use crate::text::same_text;
use crate::trim::trimmed;
use vstd::prelude::*;
use vstd::string::*;

verus! {

/// Why a thread with an agent cannot be used.
#[derive(Clone, Debug)]
pub enum AiHostError {
    Context(AiContextError),
    NoWorkspace,
    NoPanel,
    NoSession,
    NoConversation,
    NotRetained,
    OtherOwner,
    OtherOrigin,
    NotReady,
    /// The thread does not take a prompt now, and says why.
    Refused(String),
}

/// Why a thread with an agent cannot be used, as a value.
pub enum AiHostErrorView {
    Context(AiContextError),
    NoWorkspace,
    NoPanel,
    NoSession,
    NoConversation,
    NotRetained,
    OtherOwner,
    OtherOrigin,
    NotReady,
    Refused(Seq<char>),
}

impl View for AiHostError {
    type V = AiHostErrorView;

    open spec fn view(&self) -> AiHostErrorView {
        match self {
            AiHostError::Context(error) => AiHostErrorView::Context(*error),
            AiHostError::NoWorkspace => AiHostErrorView::NoWorkspace,
            AiHostError::NoPanel => AiHostErrorView::NoPanel,
            AiHostError::NoSession => AiHostErrorView::NoSession,
            AiHostError::NoConversation => AiHostErrorView::NoConversation,
            AiHostError::NotRetained => AiHostErrorView::NotRetained,
            AiHostError::OtherOwner => AiHostErrorView::OtherOwner,
            AiHostError::OtherOrigin => AiHostErrorView::OtherOrigin,
            AiHostError::NotReady => AiHostErrorView::NotReady,
            AiHostError::Refused(error) => AiHostErrorView::Refused(error@),
        }
    }
}

/// What an error says.
pub open spec fn ai_host_message(error: AiHostErrorView) -> Seq<char> {
    match error {
        AiHostErrorView::Context(error) => ai_context_message(error),
        AiHostErrorView::NoWorkspace => "Stack Review workspace is unavailable"@,
        AiHostErrorView::NoPanel => "Agent Panel is unavailable in this workspace"@,
        AiHostErrorView::NoSession =>
            "Stack Review Agent session is unavailable in this workspace"@,
        AiHostErrorView::NoConversation => "Stack Review Agent conversation is unavailable"@,
        AiHostErrorView::NotRetained => "Stack Review Agent conversation was not retained"@,
        AiHostErrorView::OtherOwner => "Stack Review Agent session owner does not match"@,
        AiHostErrorView::OtherOrigin =>
            "Stack Review Agent origin does not match the submitted context"@,
        AiHostErrorView::NotReady => "Stack Review Agent thread is not ready"@,
        AiHostErrorView::Refused(error) => error,
    }
}

impl AiHostError {
    /// The error in words.
    pub fn message(&self) -> (message: String)
        ensures
            message@ == ai_host_message(self@),
    {
        match self {
            AiHostError::Context(error) => error.message(),
            AiHostError::NoWorkspace => "Stack Review workspace is unavailable".to_owned(),
            AiHostError::NoPanel => "Agent Panel is unavailable in this workspace".to_owned(),
            AiHostError::NoSession =>
                "Stack Review Agent session is unavailable in this workspace".to_owned(),
            AiHostError::NoConversation =>
                "Stack Review Agent conversation is unavailable".to_owned(),
            AiHostError::NotRetained =>
                "Stack Review Agent conversation was not retained".to_owned(),
            AiHostError::OtherOwner =>
                "Stack Review Agent session owner does not match".to_owned(),
            AiHostError::OtherOrigin =>
                "Stack Review Agent origin does not match the submitted context".to_owned(),
            AiHostError::NotReady => "Stack Review Agent thread is not ready".to_owned(),
            AiHostError::Refused(error) => error.clone(),
        }
    }
}

/// A conversation that a prompt is sent to.
#[derive(Clone, Debug)]
pub struct ConversationInfo {
    pub owner: String,
    /// What its thread is about, if it is about a review.
    pub origin: Option<StackReviewThreadOrigin>,
    /// Why its thread does not take a prompt now, if it does not.
    pub refusal: Option<String>,
    pub has_thread: bool,
}

/// What there is of a session in a workspace.
#[derive(Clone, Debug)]
pub struct SessionLookup {
    pub has_workspace: bool,
    pub has_panel: bool,
    /// The thread of the session, if its owner has it.
    pub thread: Option<u64>,
    pub conversation: Option<ConversationInfo>,
}

/// What keeps a prompt from being sent to a session, if anything does.
pub open spec fn submission_problem(
    lookup: SessionLookup,
    session_owner: Seq<char>,
    expected: StackReviewThreadOrigin,
) -> Option<AiHostErrorView> {
    if !lookup.has_workspace {
        Some(AiHostErrorView::NoWorkspace)
    } else if !lookup.has_panel {
        Some(AiHostErrorView::NoPanel)
    } else if lookup.thread is None {
        Some(AiHostErrorView::NoSession)
    } else {
        match lookup.conversation {
            Some(conversation) => if conversation.owner@ != session_owner {
                Some(AiHostErrorView::OtherOwner)
            } else if !(conversation.origin matches Some(origin) && origin.same_as(expected)) {
                Some(AiHostErrorView::OtherOrigin)
            } else if conversation.refusal is Some {
                Some(AiHostErrorView::Refused(conversation.refusal->0@))
            } else if !conversation.has_thread {
                Some(AiHostErrorView::NotReady)
            } else {
                None
            },
            None => Some(AiHostErrorView::NoConversation),
        }
    }
}

/// Whether a prompt can be sent to a session.
pub fn check_submission(
    lookup: &SessionLookup,
    session_owner: &str,
    expected: &StackReviewThreadOrigin,
) -> (result: Result<(), AiHostError>)
    ensures
        match result {
            Ok(()) => submission_problem(*lookup, session_owner@, *expected) is None,
            Err(error) => submission_problem(*lookup, session_owner@, *expected) == Some(error@),
        },
{
    if !lookup.has_workspace {
        return Err(AiHostError::NoWorkspace);
    }
    if !lookup.has_panel {
        return Err(AiHostError::NoPanel);
    }
    if lookup.thread.is_none() {
        return Err(AiHostError::NoSession);
    }
    match &lookup.conversation {
        Some(conversation) => {
            if !same_text(conversation.owner.as_str(), session_owner) {
                return Err(AiHostError::OtherOwner);
            }
            let about = match &conversation.origin {
                Some(origin) => origin.same(expected),
                None => false,
            };
            if !about {
                return Err(AiHostError::OtherOrigin);
            }
            match &conversation.refusal {
                Some(refusal) => {
                    return Err(AiHostError::Refused(refusal.clone()));
                },
                None => {},
            }
            if !conversation.has_thread {
                return Err(AiHostError::NotReady);
            }
            Ok(())
        },
        None => Err(AiHostError::NoConversation),
    }
}

/// A prompt that is to be sent.
#[derive(Clone, Debug)]
pub struct StackReviewAiSubmitRequest {
    pub prompt: String,
    /// The envelope that the prompt itself reads as, if it does.
    pub prompt_envelope: Option<StackReviewTurnEnvelope>,
    pub context: StackReviewAiContext,
    pub envelope: StackReviewTurnEnvelope,
    /// What the envelope is written as.
    pub metadata: String,
    pub session_owner: String,
}

/// What keeps a prompt from being sent, if anything does.
pub open spec fn request_problem(
    request: StackReviewAiSubmitRequest,
    lookup: SessionLookup,
) -> Option<AiHostErrorView> {
    if trimmed(request.prompt@).len() == 0 {
        Some(AiHostErrorView::Context(AiContextError::EmptyPrompt))
    } else {
        match append_problem(request.context, request.envelope) {
            Some(error) => Some(AiHostErrorView::Context(error)),
            None => submission_problem(
                lookup,
                request.session_owner@,
                origin_of(request.context),
            ),
        }
    }
}

/// Whether `blocks` is what is sent for a request: the prompt, the resources and the envelope.
pub open spec fn is_sent_for(
    blocks: Seq<ContentBlock>,
    request: StackReviewAiSubmitRequest,
    envelope_uri: Seq<char>,
) -> bool {
    &&& blocks.len() == request.context.resources@.len() + 2
    &&& blocks[0] matches ContentBlock::Text { text, envelope } && text@ == request.prompt@
        && envelope == request.prompt_envelope
    &&& blocks.subrange(1, blocks.len() - 1) == resource_blocks(request.context.resources@)
    &&& is_envelope_block(blocks.last(), envelope_uri, request.metadata@, request.envelope)
}

fn copied_envelope(envelope: &Option<StackReviewTurnEnvelope>) -> (copy: Option<
    StackReviewTurnEnvelope,
>)
    ensures
        copy == *envelope,
{
    match envelope {
        Some(envelope) => Some(envelope.copied()),
        None => None,
    }
}

/// What is to be sent for a request.
pub fn submit_local_prompt(
    request: &StackReviewAiSubmitRequest,
    lookup: &SessionLookup,
    envelope_uri: &str,
) -> (blocks: Result<Vec<ContentBlock>, AiHostError>)
    ensures
        match blocks {
            Ok(blocks) => request_problem(*request, *lookup) is None && is_sent_for(
                blocks@,
                *request,
                envelope_uri@,
            ),
            Err(error) => request_problem(*request, *lookup) == Some(error@),
        },
{
    let blocks = match content_blocks(
        request.prompt.as_str(),
        copied_envelope(&request.prompt_envelope),
        &request.context,
        &request.envelope,
        envelope_uri,
        request.metadata.as_str(),
    ) {
        Ok(blocks) => blocks,
        Err(error) => {
            return Err(AiHostError::Context(error));
        },
    };
    let expected = match thread_origin(&request.context) {
        Ok(origin) => origin,
        Err(error) => {
            return Err(AiHostError::Context(error));
        },
    };
    match check_submission(lookup, request.session_owner.as_str(), &expected) {
        Ok(()) => Ok(blocks),
        Err(error) => Err(error),
    }
}

/// How a thread is opened.
#[derive(Clone, Debug)]
pub enum ActivationTarget {
    /// By going on with a session of the native agent.
    Resume { session_id: String },
    /// As a new one, with the agent that is selected.
    Create,
}

/// How a thread about a context is opened.
#[derive(Clone, Debug)]
pub struct ActivationPlan {
    pub origin: StackReviewThreadOrigin,
    pub title: String,
    pub initial_content: Option<AgentInitialContent>,
    pub target: ActivationTarget,
}

/// What keeps a thread about a context from being opened, if anything does.
pub open spec fn activation_problem(
    context: StackReviewAiContext,
    composer: Option<StackReviewTurnEnvelope>,
) -> Option<AiContextError> {
    match origin_problem(context) {
        Some(error) => Some(error),
        None => match composer {
            Some(envelope) => append_problem(context, envelope),
            None => None,
        },
    }
}

/// Whether a plan opens a thread about a context, with a prompt that begins with the context
/// where `composer` gives an envelope for it.
pub open spec fn is_plan_for(
    plan: ActivationPlan,
    context: StackReviewAiContext,
    persisted_session_id: Option<String>,
    composer: Option<StackReviewTurnEnvelope>,
    envelope_uri: Seq<char>,
    metadata: Seq<char>,
) -> bool {
    &&& plan.origin == origin_of(context)
    &&& plan.title == context.title
    &&& plan.target == match persisted_session_id {
        Some(session_id) => ActivationTarget::Resume { session_id },
        None => ActivationTarget::Create,
    }
    &&& match (plan.initial_content, composer) {
        (Some(content), Some(envelope)) => {
            &&& !content.auto_submit
            &&& content.blocks@.len() == context.resources@.len() + 1
            &&& content.blocks@.drop_last() == resource_blocks(context.resources@)
            &&& is_envelope_block(content.blocks@.last(), envelope_uri, metadata, envelope)
        },
        (None, None) => true,
        _ => false,
    }
}

/// How a thread about a context is opened. Where its prompt is to begin with the context,
/// `composer` is the envelope for that, written as `metadata`.
pub fn plan_activation(
    context: &StackReviewAiContext,
    persisted_session_id: &Option<String>,
    composer: &Option<StackReviewTurnEnvelope>,
    envelope_uri: &str,
    metadata: &str,
) -> (plan: Result<ActivationPlan, AiContextError>)
    ensures
        match plan {
            Ok(plan) => activation_problem(*context, *composer) is None && is_plan_for(
                plan,
                *context,
                *persisted_session_id,
                *composer,
                envelope_uri@,
                metadata@,
            ),
            Err(error) => activation_problem(*context, *composer) == Some(error),
        },
{
    let origin = match thread_origin(context) {
        Ok(origin) => origin,
        Err(error) => {
            return Err(error);
        },
    };
    let initial_content = match composer {
        Some(envelope) => match composer_initial_content(
            context,
            envelope,
            envelope_uri,
            metadata,
        ) {
            Ok(content) => Some(content),
            Err(error) => {
                return Err(error);
            },
        },
        None => None,
    };
    let target = match persisted_session_id {
        Some(session_id) => ActivationTarget::Resume { session_id: session_id.clone() },
        None => ActivationTarget::Create,
    };
    Ok(ActivationPlan { origin, title: context.title.clone(), initial_content, target })
}

/// The agents that a thread can be with.
#[derive(Clone, Debug)]
pub enum Agent {
    /// The one that is built in.
    NativeAgent,
    /// Another, by its name.
    Custom { id: String },
}

/// What a context is bound to once a thread about it was opened.
#[derive(Clone, Debug)]
pub struct SessionBinding {
    /// The key of the thread that owns the session.
    pub session_owner: String,
    /// Whether the binding may be kept beyond this run.
    pub allows_durable_binding: bool,
}

/// What a context is bound to once the thread with the key `thread_key` was opened: a binding to a
/// session with the built-in agent may be kept, and no other.
pub fn bind_session(thread_key: String, agent: &Agent) -> (binding: SessionBinding)
    ensures
        binding.session_owner == thread_key,
        binding.allows_durable_binding == (*agent is NativeAgent),
{
    let allows_durable_binding = match agent {
        Agent::NativeAgent => true,
        Agent::Custom { .. } => false,
    };
    SessionBinding { session_owner: thread_key, allows_durable_binding }
}

/// What is put into the prompt of a session.
#[derive(Clone, Debug)]
pub struct PreparedComposer {
    pub origin: StackReviewThreadOrigin,
    pub content: AgentInitialContent,
}

/// What keeps a context from being put into the prompt of a session, if anything does.
pub open spec fn composer_problem(
    context: StackReviewAiContext,
    envelope: StackReviewTurnEnvelope,
    has_workspace: bool,
    has_panel: bool,
) -> Option<AiHostErrorView> {
    match append_problem(context, envelope) {
        Some(error) => Some(AiHostErrorView::Context(error)),
        None => if !has_workspace {
            Some(AiHostErrorView::NoWorkspace)
        } else if !has_panel {
            Some(AiHostErrorView::NoPanel)
        } else {
            None
        },
    }
}

/// What is put into the prompt of a session: a context and its envelope, which is written as
/// `metadata`.
pub fn prepare_composer(
    context: &StackReviewAiContext,
    envelope: &StackReviewTurnEnvelope,
    envelope_uri: &str,
    metadata: &str,
    has_workspace: bool,
    has_panel: bool,
) -> (prepared: Result<PreparedComposer, AiHostError>)
    ensures
        match prepared {
            Ok(prepared) => {
                &&& composer_problem(*context, *envelope, has_workspace, has_panel) is None
                &&& prepared.origin == origin_of(*context)
                &&& !prepared.content.auto_submit
                &&& prepared.content.blocks@.len() == context.resources@.len() + 1
                &&& prepared.content.blocks@.drop_last() == resource_blocks(context.resources@)
                &&& is_envelope_block(
                    prepared.content.blocks@.last(),
                    envelope_uri@,
                    metadata@,
                    *envelope,
                )
            },
            Err(error) => composer_problem(*context, *envelope, has_workspace, has_panel) == Some(
                error@,
            ),
        },
{
    let origin = match thread_origin(context) {
        Ok(origin) => origin,
        Err(error) => {
            return Err(AiHostError::Context(error));
        },
    };
    let content = match composer_initial_content(context, envelope, envelope_uri, metadata) {
        Ok(content) => content,
        Err(error) => {
            return Err(AiHostError::Context(error));
        },
    };
    if !has_workspace {
        return Err(AiHostError::NoWorkspace);
    }
    if !has_panel {
        return Err(AiHostError::NoPanel);
    }
    Ok(PreparedComposer { origin, content })
}

/// The conversation that a thread was opened in.
pub fn opened_conversation(has_panel: bool, conversation: Option<u64>) -> (opened: Result<
    u64,
    AiHostError,
>)
    ensures
        match opened {
            Ok(id) => has_panel && conversation == Some(id),
            Err(error) => if !has_panel {
                error@ == AiHostErrorView::NoPanel
            } else {
                conversation is None && error@ == AiHostErrorView::NotRetained
            },
        },
{
    if !has_panel {
        return Err(AiHostError::NoPanel);
    }
    match conversation {
        Some(id) => Ok(id),
        None => Err(AiHostError::NotRetained),
    }
}

/// The thread of a session that is to be shown, and whether it has to be made the active one.
pub fn thread_to_reveal(has_panel: bool, thread: Option<u64>, active: Option<u64>) -> (reveal: Result<
    (u64, bool),
    AiHostError,
>)
    ensures
        match reveal {
            Ok((id, activate)) => has_panel && thread == Some(id) && activate == (active != Some(
                id,
            )),
            Err(error) => if !has_panel {
                error@ == AiHostErrorView::NoPanel
            } else {
                thread is None && error@ == AiHostErrorView::NoSession
            },
        },
{
    if !has_panel {
        return Err(AiHostError::NoPanel);
    }
    match thread {
        Some(id) => {
            let activate = match active {
                Some(active) => active != id,
                None => true,
            };
            Ok((id, activate))
        },
        None => Err(AiHostError::NoSession),
    }
}

/// An envelope that is made for a context can be sent with it, wherever the context can be sent
/// at all.
pub proof fn own_envelope_fits(turn_id: String, context: StackReviewAiContext)
    requires
        origin_problem(context) is None,
    ensures
        envelope_for(turn_id, context).project_identity@ == origin_of(context).project_identity@,
        append_problem(context, envelope_for(turn_id, context)) != Some(
            AiContextError::OtherProject,
        ),
{
}

} // verus!
