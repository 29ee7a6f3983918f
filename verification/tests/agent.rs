use std::collections::HashSet;

use stack_review::ai_context::{
    append_stack_review_context_with_envelope, composer_initial_content, content_blocks,
    is_stack_review_context_block, list_envelopes, new_envelope,
    renew_stack_review_turn_envelope,
    stack_review_turn_envelope, thread_origin, AiContextError, ContentBlock, EnvelopeReading,
    StackReviewAiContext, StackReviewAiContextKey, StackReviewAiResource, StackReviewCitation,
    StackReviewTurnEnvelope, TurnRenewal,
};
use stack_review::ai_host::{
    bind_session, check_submission, opened_conversation, plan_activation, prepare_composer, submit_local_prompt,
    thread_to_reveal, ActivationTarget, Agent, AiHostError, ConversationInfo, SessionLookup,
    StackReviewAiSubmitRequest,
};
use stack_review::ai_observer::{
    observe_markdown_ids, stack_review_status_for_stop, sync_projection, AcpThreadEvent,
    AgentThread, AgentThreadEntry, AssistantMessageChunk, ConversationState, ProjectionAction,
    StackReviewAiStatus, StopReason, ThreadObserver,
};
use stack_review::editor::Editor;
use stack_review::text_map::TextMap;

const ENVELOPE_URI: &str = "zed:///agent/stack-review-turn";

fn test_context() -> StackReviewAiContext {
    StackReviewAiContext {
        key: StackReviewAiContextKey {
            storage_key: "base-head".into(),
            stable_key: "comment:thread-a".into(),
        },
        title: "Review \u{b7} src/main.rs".into(),
        base_oid: "base".into(),
        head_oid: "head".into(),
        selected_record_id: Some("comment-a".into()),
        resources: vec![StackReviewAiResource {
            citation: StackReviewCitation {
                project_identity: "project-a".into(),
                storage_key: "base-head".into(),
                base_oid: "base".into(),
                head_oid: "head".into(),
            },
            uri: "zed:///agent/stack-review?storage_key=base-head".into(),
            text: "immutable code".into(),
        }],
    }
}

fn envelope(turn: &str) -> StackReviewTurnEnvelope {
    new_envelope(turn.into(), &test_context()).expect("an envelope")
}

fn renewal(turn_id: &str, metadata: &str) -> TurnRenewal {
    TurnRenewal {
        turn_id: turn_id.into(),
        metadata: metadata.into(),
    }
}

fn composed() -> Vec<ContentBlock> {
    composer_initial_content(&test_context(), &envelope("turn-0"), ENVELOPE_URI, "metadata")
        .expect("initial content")
        .blocks
}

fn read(blocks: &Vec<ContentBlock>) -> Option<StackReviewTurnEnvelope> {
    stack_review_turn_envelope(blocks, ENVELOPE_URI, &test_context().key, "project-a")
}

#[test]
fn stack_review_composer_context_is_canonical_and_never_auto_submits() {
    let context = test_context();
    let content =
        composer_initial_content(&context, &envelope("turn-0"), ENVELOPE_URI, "metadata")
            .expect("initial content");
    assert!(!content.auto_submit);
    assert_eq!(content.blocks.len(), context.resources.len() + 1);
    let envelope = read(&content.blocks).expect("exactly one canonical envelope");
    assert_eq!(envelope.projection_target, context.selected_record_id);
}

#[test]
fn managed_stack_review_context_renews_turn_identity_per_send() {
    let mut blocks = composed();
    let original = read(&blocks).expect("original envelope");

    let listed = list_envelopes(&blocks, ENVELOPE_URI);
    assert_eq!(listed.len(), 1);
    assert_eq!(listed[0].turn_id, original.turn_id);
    renew_stack_review_turn_envelope(&mut blocks, ENVELOPE_URI, &vec![renewal("turn-1", "first")])
        .expect("renew first turn");
    assert!(matches!(&blocks[1], ContentBlock::TextResource { text, .. } if text == "first"));
    assert!(
        matches!(&blocks[0], ContentBlock::TextResource { text, .. } if text == "immutable code")
    );
    let first = read(&blocks).expect("first renewed envelope");
    renew_stack_review_turn_envelope(&mut blocks, ENVELOPE_URI, &vec![renewal("turn-2", "second")])
        .expect("renew second turn");
    let second = read(&blocks).expect("second renewed envelope");

    assert_ne!(original.turn_id, first.turn_id);
    assert_ne!(first.turn_id, second.turn_id);
    assert!(first.context_key.same(&second.context_key));
    assert_eq!(first.projection_target, second.projection_target);
}

#[test]
fn stack_review_markdown_identity_tracking_is_incremental() {
    let mut observed = HashSet::new();

    assert!(observe_markdown_ids(&mut observed, &vec![1]));
    assert!(!observe_markdown_ids(&mut observed, &vec![1]));
    assert!(observe_markdown_ids(&mut observed, &vec![1, 2]));
    assert_eq!(observed.len(), 2);
}

#[test]
fn stack_review_stop_reasons_preserve_failure_semantics() {
    assert_eq!(
        stack_review_status_for_stop(StopReason::EndTurn),
        StackReviewAiStatus::Ready
    );
    assert_eq!(
        stack_review_status_for_stop(StopReason::Cancelled),
        StackReviewAiStatus::Canceled
    );
    assert!(matches!(
        stack_review_status_for_stop(StopReason::MaxTokens),
        StackReviewAiStatus::Failed(_)
    ));
    assert!(matches!(
        stack_review_status_for_stop(StopReason::MaxTurnRequests),
        StackReviewAiStatus::Failed(_)
    ));
    assert!(matches!(
        stack_review_status_for_stop(StopReason::Refusal),
        StackReviewAiStatus::Failed(_)
    ));
}

#[test]
fn contexts_that_do_not_fit_are_refused() {
    let mut context = test_context();
    context.resources[0].citation.storage_key = "other".into();
    assert_eq!(
        thread_origin(&context).map(|_| ()),
        Err(AiContextError::OtherStorageKey)
    );
    context = test_context();
    context.head_oid = "other".into();
    assert_eq!(
        thread_origin(&context).map(|_| ()),
        Err(AiContextError::OtherSnapshot)
    );
    context.resources.clear();
    assert_eq!(
        thread_origin(&context).map(|_| ()),
        Err(AiContextError::NoCitation)
    );
    assert_eq!(
        new_envelope("turn".into(), &context).map(|_| ()),
        Err(AiContextError::NoCitation)
    );
    let context = test_context();
    let mut foreign = envelope("turn");
    foreign.project_identity = "project-b".into();
    let mut contents = Vec::new();
    assert_eq!(
        append_stack_review_context_with_envelope(
            &mut contents,
            &context,
            &foreign,
            ENVELOPE_URI,
            "metadata"
        ),
        Err(AiContextError::OtherProject)
    );
    assert!(contents.is_empty());
    let mut mixed = test_context();
    let mut other = mixed.resources[0].clone();
    other.citation.base_oid = "other".into();
    mixed.resources.push(other);
    assert_eq!(
        append_stack_review_context_with_envelope(
            &mut contents,
            &mixed,
            &envelope("turn"),
            ENVELOPE_URI,
            "metadata"
        ),
        Err(AiContextError::OtherResource)
    );
    assert_eq!(contents.len(), 1);
    assert_eq!(
        content_blocks(" ", None, &context, &envelope("turn"), ENVELOPE_URI, "metadata")
            .map(|_| ()),
        Err(AiContextError::EmptyPrompt)
    );
    assert_eq!(
        AiContextError::EmptyPrompt.message(),
        "Stack Review Agent prompt is empty"
    );
}

#[test]
fn envelopes_are_read_only_where_there_is_one() {
    let mut blocks = composed();
    assert!(is_stack_review_context_block(&blocks[0], ENVELOPE_URI));
    assert!(is_stack_review_context_block(&blocks[1], ENVELOPE_URI));
    assert!(!is_stack_review_context_block(&ContentBlock::Other, ENVELOPE_URI));
    blocks.push(ContentBlock::Text {
        text: "metadata".into(),
        envelope: Some(envelope("turn-9")),
    });
    assert!(read(&blocks).is_none());
    assert_eq!(list_envelopes(&blocks, ENVELOPE_URI).len(), 2);
    assert_eq!(
        renew_stack_review_turn_envelope(
            &mut blocks,
            ENVELOPE_URI,
            &vec![renewal("turn-1", "one"), renewal("turn-2", "two")]
        ),
        Err(AiContextError::DuplicateEnvelopes)
    );
    let turns = list_envelopes(&blocks, ENVELOPE_URI)
        .into_iter()
        .map(|envelope| envelope.turn_id)
        .collect::<Vec<_>>();
    assert_eq!(turns, ["turn-1", "turn-2"]);
    assert!(matches!(&blocks[1], ContentBlock::TextResource { text, .. } if text == "one"));
    assert!(matches!(&blocks[2], ContentBlock::Text { text, .. } if text == "two"));
    let mut unreadable = composed();
    unreadable.push(ContentBlock::TextResource {
        uri: ENVELOPE_URI.into(),
        text: "?".into(),
        envelope: EnvelopeReading::Unreadable("expected value at line 1 column 1".into()),
    });
    let error = renew_stack_review_turn_envelope(
        &mut unreadable,
        ENVELOPE_URI,
        &vec![renewal("turn-1", "one")],
    )
    .expect_err("an unreadable envelope");
    assert_eq!(error.message(), "expected value at line 1 column 1");
    assert!(matches!(&unreadable[1], ContentBlock::TextResource { text, .. } if text == "one"));
    assert!(matches!(&unreadable[2], ContentBlock::TextResource { text, .. } if text == "?"));
    assert!(stack_review_turn_envelope(
        &composed(),
        ENVELOPE_URI,
        &test_context().key,
        "project-b"
    )
    .is_none());
}

fn thread() -> AgentThread {
    AgentThread {
        session_id: "session".into(),
        is_generating: true,
        entries: vec![
            AgentThreadEntry::AssistantMessage {
                chunks: vec![AssistantMessageChunk::Message { markdown: Some(1) }],
            },
            AgentThreadEntry::UserMessage { chunks: composed() },
            AgentThreadEntry::Other,
            AgentThreadEntry::AssistantMessage {
                chunks: vec![
                    AssistantMessageChunk::Thought,
                    AssistantMessageChunk::Message { markdown: Some(2) },
                    AssistantMessageChunk::Message { markdown: None },
                    AssistantMessageChunk::Message { markdown: Some(3) },
                ],
            },
            AgentThreadEntry::UserMessage { chunks: Vec::new() },
            AgentThreadEntry::AssistantMessage {
                chunks: vec![AssistantMessageChunk::Message { markdown: Some(4) }],
            },
        ],
    }
}

#[test]
fn answers_are_shown_under_the_envelope_they_answer() {
    let (update, observed) =
        sync_projection(&thread(), ENVELOPE_URI, &test_context().key, "project-a", 3);
    assert_eq!(update.generation, 3);
    let shown = update
        .assistant_turns
        .iter()
        .map(|turn| (turn.envelope.turn_id.as_str(), turn.markdown))
        .collect::<Vec<_>>();
    assert_eq!(shown, [("turn-0", 2), ("turn-0", 3)]);
    assert_eq!(update.session_id.as_deref(), Some("session"));
    assert_eq!(update.status, StackReviewAiStatus::Generating);
    assert_eq!(observed, HashSet::from([1, 2, 3, 4]));
}

#[test]
fn a_thread_is_followed_once() {
    let mut observer = ThreadObserver::new(
        ENVELOPE_URI.into(),
        test_context().key,
        "project-a".into(),
        3,
    );
    assert!(observer
        .attach_thread_observer(&ConversationState::Waiting)
        .is_empty());
    let failed = observer.attach_thread_observer(&ConversationState::LoadFailed {
        error: "gone".into(),
    });
    assert!(
        matches!(&failed[..], [ProjectionAction::Update(update)] if update.generation == 3 && update.status == StackReviewAiStatus::Failed("gone".into()))
    );
    assert_eq!(
        observer
            .attach_thread_observer(&ConversationState::AuthenticationRequired)
            .len(),
        1
    );
    let state = ConversationState::Thread {
        id: 5,
        thread: thread(),
        error_status: Some(StackReviewAiStatus::Canceled),
    };
    let first = observer.attach_thread_observer(&state);
    assert!(matches!(
        first[..],
        [
            ProjectionAction::Update(_),
            ProjectionAction::SetStatus {
                generation: 3,
                status: StackReviewAiStatus::Canceled,
            },
            ProjectionAction::Subscribe(5),
        ]
    ));
    assert_eq!(observer.attach_thread_observer(&state).len(), 2);
    let status = |action: Option<ProjectionAction>| match action {
        Some(ProjectionAction::SetStatus { generation: 3, status }) => Some(status),
        _ => None,
    };
    let thread = thread();
    assert!(observer
        .on_thread_event(6, &AcpThreadEvent::NewEntry, &thread, &None)
        .is_none());
    assert!(observer
        .on_thread_event(5, &AcpThreadEvent::EntryUpdated(3), &thread, &None)
        .is_none());
    assert!(matches!(
        observer.on_thread_event(5, &AcpThreadEvent::NewEntry, &thread, &None),
        Some(ProjectionAction::Update(_))
    ));
    assert_eq!(
        status(observer.on_thread_event(5, &AcpThreadEvent::StatusChanged, &thread, &None)),
        Some(StackReviewAiStatus::Generating)
    );
    assert_eq!(
        status(observer.on_thread_event(5, &AcpThreadEvent::Error, &thread, &None)),
        Some(StackReviewAiStatus::Failed("Agent turn failed".into()))
    );
    assert_eq!(
        status(observer.on_thread_event(5, &AcpThreadEvent::Refusal, &thread, &None)),
        Some(StackReviewAiStatus::Failed("Agent refused the prompt".into()))
    );
    assert_eq!(
        status(observer.on_thread_event(
            5,
            &AcpThreadEvent::LoadError("lost".into()),
            &thread,
            &None
        )),
        Some(StackReviewAiStatus::Failed("lost".into()))
    );
    assert!(observer
        .on_thread_event(5, &AcpThreadEvent::Other, &thread, &None)
        .is_none());
    let mut longer = thread;
    longer.entries.push(AgentThreadEntry::AssistantMessage {
        chunks: vec![AssistantMessageChunk::Message { markdown: Some(9) }],
    });
    assert!(observer
        .on_thread_event(5, &AcpThreadEvent::EntryUpdated(6), &longer, &None)
        .is_some());
    assert!(observer
        .on_thread_event(5, &AcpThreadEvent::EntryUpdated(6), &longer, &None)
        .is_none());
}

fn lookup() -> SessionLookup {
    SessionLookup {
        has_workspace: true,
        has_panel: true,
        thread: Some(1),
        conversation: Some(ConversationInfo {
            owner: "owner".into(),
            origin: thread_origin(&test_context()).ok(),
            refusal: None,
            has_thread: true,
        }),
    }
}

#[test]
fn prompts_are_sent_only_to_their_own_sessions() {
    let request = StackReviewAiSubmitRequest {
        prompt: "Why?".into(),
        prompt_envelope: None,
        context: test_context(),
        envelope: envelope("turn-0"),
        metadata: "metadata".into(),
        session_owner: "owner".into(),
    };
    let blocks = submit_local_prompt(&request, &lookup(), ENVELOPE_URI).expect("blocks");
    assert_eq!(blocks.len(), 3);
    assert!(matches!(&blocks[0], ContentBlock::Text { text, .. } if text == "Why?"));
    let refusal = |change: fn(&mut SessionLookup)| {
        let mut lookup = lookup();
        change(&mut lookup);
        check_submission(
            &lookup,
            "owner",
            &thread_origin(&test_context()).expect("origin"),
        )
        .expect_err("a refusal")
        .message()
    };
    assert_eq!(
        refusal(|lookup| lookup.has_workspace = false),
        "Stack Review workspace is unavailable"
    );
    assert_eq!(
        refusal(|lookup| lookup.has_panel = false),
        "Agent Panel is unavailable in this workspace"
    );
    assert_eq!(
        refusal(|lookup| lookup.thread = None),
        "Stack Review Agent session is unavailable in this workspace"
    );
    assert_eq!(
        refusal(|lookup| lookup.conversation = None),
        "Stack Review Agent conversation is unavailable"
    );
    assert_eq!(
        refusal(|lookup| lookup.conversation.as_mut().unwrap().owner = "other".into()),
        "Stack Review Agent session owner does not match"
    );
    assert_eq!(
        refusal(|lookup| lookup.conversation.as_mut().unwrap().origin = None),
        "Stack Review Agent origin does not match the submitted context"
    );
    assert_eq!(
        refusal(|lookup| lookup.conversation.as_mut().unwrap().refusal = Some("busy".into())),
        "busy"
    );
    assert_eq!(
        refusal(|lookup| lookup.conversation.as_mut().unwrap().has_thread = false),
        "Stack Review Agent thread is not ready"
    );
}

#[test]
fn threads_are_opened_and_shown() {
    let plan = plan_activation(
        &test_context(),
        &Some("session".into()),
        &Some(envelope("turn-0")),
        ENVELOPE_URI,
        "metadata",
    )
    .expect("a plan");
    assert!(matches!(plan.target, ActivationTarget::Resume { session_id } if session_id == "session"));
    assert_eq!(plan.initial_content.expect("content").blocks.len(), 2);
    let plan = plan_activation(&test_context(), &None, &None, ENVELOPE_URI, "metadata")
        .expect("a plan");
    assert!(matches!(plan.target, ActivationTarget::Create));
    assert!(plan.initial_content.is_none());
    assert!(matches!(thread_to_reveal(true, Some(1), Some(2)), Ok((1, true))));
    assert!(matches!(thread_to_reveal(true, Some(1), Some(1)), Ok((1, false))));
    assert!(matches!(thread_to_reveal(true, None, None), Err(AiHostError::NoSession)));
    assert!(matches!(thread_to_reveal(false, Some(1), None), Err(AiHostError::NoPanel)));
}

#[test]
fn answers_are_watched_once() {
    let mut projections = TextMap::new();
    projections.insert("a".into(), vec![3, 1]);
    projections.insert("b".into(), vec![1, 2]);
    let mut editor = Editor::new(true, true);
    let observed =
        editor.replace_stack_review_agent_projection(projections.clone(), vec!["c".into()]);
    assert_eq!(observed, [3, 1, 2]);
    let mut ordinary = Editor::new(false, true);
    assert!(ordinary
        .replace_stack_review_agent_projection(projections, Vec::new())
        .is_empty());
}

#[test]
fn a_prompt_is_prepared_where_there_is_a_panel() {
    let context = test_context();
    let turn = envelope("turn-0");
    let prepared = prepare_composer(&context, &turn, ENVELOPE_URI, "metadata", true, true)
        .expect("a prompt");
    assert!(!prepared.content.auto_submit);
    let read = read(&prepared.content.blocks).expect("an envelope");
    assert_eq!(read.turn_id, "turn-0");
    let refusal = |has_workspace, has_panel| {
        prepare_composer(&context, &turn, ENVELOPE_URI, "metadata", has_workspace, has_panel)
            .expect_err("a refusal")
            .message()
    };
    assert_eq!(refusal(false, true), "Stack Review workspace is unavailable");
    assert_eq!(refusal(true, false), "Agent Panel is unavailable in this workspace");
    assert!(matches!(opened_conversation(true, Some(4)), Ok(4)));
    assert!(matches!(opened_conversation(false, Some(4)), Err(AiHostError::NoPanel)));
    assert!(matches!(opened_conversation(true, None), Err(AiHostError::NotRetained)));
}

#[test]
fn only_bindings_to_the_native_agent_last() {
    let native = bind_session("thread-1".into(), &Agent::NativeAgent);
    assert_eq!(native.session_owner, "thread-1");
    assert!(native.allows_durable_binding);
    let other = bind_session("thread-2".into(), &Agent::Custom { id: "other".into() });
    assert_eq!(other.session_owner, "thread-2");
    assert!(!other.allows_durable_binding);
}
