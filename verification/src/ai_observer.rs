//! Following a thread with an agent: what is shown of it, and when that has to be read anew.

use crate::ai_context::{
    stack_review_turn_envelope, turn_envelope, ContentBlock, StackReviewAiContextKey,
    StackReviewTurnEnvelope,
};
use std::collections::HashSet;
use vstd::prelude::*;
use vstd::std_specs::hash::*;
use vstd::string::*;

verus! {

/// Why an agent stopped.
#[derive(Clone, Copy, Debug, PartialEq, Eq, Structural)]
pub enum StopReason {
    EndTurn,
    Cancelled,
    MaxTokens,
    MaxTurnRequests,
    Refusal,
    Other,
}

/// How a thread with an agent stands.
#[derive(Clone, Debug, PartialEq, Eq)]
pub enum StackReviewAiStatus {
    Ready,
    Generating,
    Canceled,
    Failed(String),
}

/// How a thread with an agent stands, as a value.
pub enum AiStatusView {
    Ready,
    Generating,
    Canceled,
    Failed(Seq<char>),
}

impl View for StackReviewAiStatus {
    type V = AiStatusView;

    open spec fn view(&self) -> AiStatusView {
        match self {
            StackReviewAiStatus::Ready => AiStatusView::Ready,
            StackReviewAiStatus::Generating => AiStatusView::Generating,
            StackReviewAiStatus::Canceled => AiStatusView::Canceled,
            StackReviewAiStatus::Failed(error) => AiStatusView::Failed(error@),
        }
    }
}

impl StackReviewAiStatus {
    /// A copy of the status.
    pub fn copied(&self) -> (status: Self)
        ensures
            status == *self,
    {
        match self {
            StackReviewAiStatus::Ready => StackReviewAiStatus::Ready,
            StackReviewAiStatus::Generating => StackReviewAiStatus::Generating,
            StackReviewAiStatus::Canceled => StackReviewAiStatus::Canceled,
            StackReviewAiStatus::Failed(error) => StackReviewAiStatus::Failed(error.clone()),
        }
    }
}

/// How a thread stands after an agent stopped: nothing but the end of its turn, or being called
/// off, is in order.
pub open spec fn status_for_stop(reason: StopReason) -> AiStatusView {
    match reason {
        StopReason::EndTurn => AiStatusView::Ready,
        StopReason::Cancelled => AiStatusView::Canceled,
        StopReason::MaxTokens => AiStatusView::Failed("Agent reached its token limit"@),
        StopReason::MaxTurnRequests => AiStatusView::Failed(
            "Agent reached its turn request limit"@,
        ),
        StopReason::Refusal => AiStatusView::Failed("Agent refused the prompt"@),
        StopReason::Other => AiStatusView::Failed("Agent stopped for an unsupported reason"@),
    }
}

/// How a thread stands after an agent stopped.
pub fn stack_review_status_for_stop(reason: StopReason) -> (status: StackReviewAiStatus)
    ensures
        status@ == status_for_stop(reason),
{
    match reason {
        StopReason::EndTurn => StackReviewAiStatus::Ready,
        StopReason::Cancelled => StackReviewAiStatus::Canceled,
        StopReason::MaxTokens => StackReviewAiStatus::Failed(
            "Agent reached its token limit".to_owned(),
        ),
        StopReason::MaxTurnRequests => StackReviewAiStatus::Failed(
            "Agent reached its turn request limit".to_owned(),
        ),
        StopReason::Refusal => StackReviewAiStatus::Failed("Agent refused the prompt".to_owned()),
        StopReason::Other => StackReviewAiStatus::Failed(
            "Agent stopped for an unsupported reason".to_owned(),
        ),
    }
}

/// A piece of what an agent says.
#[derive(Clone, Copy, Debug, PartialEq, Eq, Structural)]
pub enum AssistantMessageChunk {
    /// A piece of its answer, by the number of the text that shows it, if one does.
    Message { markdown: Option<u64> },
    Thought,
}

/// An entry of a thread.
#[derive(Clone, Debug)]
pub enum AgentThreadEntry {
    UserMessage { chunks: Vec<ContentBlock> },
    AssistantMessage { chunks: Vec<AssistantMessageChunk> },
    Other,
}

/// A thread with an agent.
#[derive(Clone, Debug)]
pub struct AgentThread {
    pub session_id: String,
    pub is_generating: bool,
    pub entries: Vec<AgentThreadEntry>,
}

/// An answer of an agent, and the envelope of what it answers.
#[derive(Clone, Debug)]
pub struct StackReviewAiTurn {
    pub envelope: StackReviewTurnEnvelope,
    pub markdown: u64,
}

/// The texts that show the pieces of an answer.
pub open spec fn markdown_in(chunks: Seq<AssistantMessageChunk>) -> Seq<u64>
    decreases chunks.len(),
{
    if chunks.len() == 0 {
        Seq::empty()
    } else {
        let before = markdown_in(chunks.drop_last());
        match chunks.last() {
            AssistantMessageChunk::Message { markdown: Some(markdown) } => before.push(markdown),
            _ => before,
        }
    }
}

/// The texts that show the answers in a thread.
pub open spec fn markdown_of(entries: Seq<AgentThreadEntry>) -> Seq<u64>
    decreases entries.len(),
{
    if entries.len() == 0 {
        Seq::empty()
    } else {
        let before = markdown_of(entries.drop_last());
        match entries.last() {
            AgentThreadEntry::AssistantMessage { chunks } => before + markdown_in(chunks@),
            _ => before,
        }
    }
}

/// The envelope that answers at the end of some entries belong to: that of the last message of
/// the user, if it has one.
pub open spec fn current_envelope(
    entries: Seq<AgentThreadEntry>,
    envelope_uri: Seq<char>,
    context_key: StackReviewAiContextKey,
    project_identity: Seq<char>,
) -> Option<StackReviewTurnEnvelope>
    decreases entries.len(),
{
    if entries.len() == 0 {
        None
    } else {
        match entries.last() {
            AgentThreadEntry::UserMessage { chunks } => turn_envelope(
                chunks@,
                envelope_uri,
                context_key,
                project_identity,
            ),
            _ => current_envelope(
                entries.drop_last(),
                envelope_uri,
                context_key,
                project_identity,
            ),
        }
    }
}

/// Some answers under one envelope.
pub open spec fn turns_under(
    envelope: Option<StackReviewTurnEnvelope>,
    markdown: Seq<u64>,
) -> Seq<StackReviewAiTurn> {
    match envelope {
        Some(envelope) => markdown.map_values(
            |markdown: u64| StackReviewAiTurn { envelope, markdown },
        ),
        None => Seq::empty(),
    }
}

/// The answers in a thread to what was asked about a part of a review.
pub open spec fn assistant_turns(
    entries: Seq<AgentThreadEntry>,
    envelope_uri: Seq<char>,
    context_key: StackReviewAiContextKey,
    project_identity: Seq<char>,
) -> Seq<StackReviewAiTurn>
    decreases entries.len(),
{
    if entries.len() == 0 {
        Seq::empty()
    } else {
        let before = assistant_turns(
            entries.drop_last(),
            envelope_uri,
            context_key,
            project_identity,
        );
        match entries.last() {
            AgentThreadEntry::AssistantMessage { chunks } => before + turns_under(
                current_envelope(
                    entries.drop_last(),
                    envelope_uri,
                    context_key,
                    project_identity,
                ),
                markdown_in(chunks@),
            ),
            _ => before,
        }
    }
}

/// What is shown of a thread.
#[derive(Clone, Debug)]
pub struct StackReviewAiProjectionUpdate {
    /// The request that the thread was opened for, by its number.
    pub generation: u64,
    pub session_id: Option<String>,
    pub status: StackReviewAiStatus,
    pub assistant_turns: Vec<StackReviewAiTurn>,
}

/// How a thread stands between its turns and within them.
pub open spec fn thread_status(thread: AgentThread) -> AiStatusView {
    if thread.is_generating {
        AiStatusView::Generating
    } else {
        AiStatusView::Ready
    }
}

fn status_of(thread: &AgentThread) -> (status: StackReviewAiStatus)
    ensures
        status@ == thread_status(*thread),
{
    if thread.is_generating {
        StackReviewAiStatus::Generating
    } else {
        StackReviewAiStatus::Ready
    }
}

/// Whether `update` is what is shown of a thread.
pub open spec fn shows_thread(
    update: StackReviewAiProjectionUpdate,
    generation: u64,
    thread: AgentThread,
    envelope_uri: Seq<char>,
    context_key: StackReviewAiContextKey,
    project_identity: Seq<char>,
) -> bool {
    &&& update.generation == generation
    &&& update.session_id == Some(thread.session_id)
    &&& update.status@ == thread_status(thread)
    &&& update.assistant_turns@ == assistant_turns(
        thread.entries@,
        envelope_uri,
        context_key,
        project_identity,
    )
}

fn push_turns(
    turns: &mut Vec<StackReviewAiTurn>,
    envelope: &Option<StackReviewTurnEnvelope>,
    chunks: &Vec<AssistantMessageChunk>,
    observed: &mut HashSet<u64>,
)
    ensures
        final(turns)@ == old(turns)@ + turns_under(*envelope, markdown_in(chunks@)),
        final(observed)@ == old(observed)@.union(markdown_in(chunks@).to_set()),
{
    broadcast use group_hash_axioms;

    let ghost before = turns@;
    let ghost seen = observed@;
    let mut i: usize = 0;
    proof {
        assert(chunks@.take(0) =~= Seq::empty());
        assert(before + turns_under(*envelope, Seq::empty()) =~= before);
        assert(seen.union(Seq::<u64>::empty().to_set()) =~= seen);
    }
    while i < chunks.len()
        invariant
            i <= chunks@.len(),
            turns@ == before + turns_under(*envelope, markdown_in(chunks@.take(i as int))),
            observed@ == seen.union(markdown_in(chunks@.take(i as int)).to_set()),
        decreases chunks.len() - i,
    {
        proof {
            assert(chunks@.take(i + 1).drop_last() =~= chunks@.take(i as int));
            assert(chunks@.take(i + 1).last() == chunks@[i as int]);
        }
        let ghost done = markdown_in(chunks@.take(i as int));
        if let AssistantMessageChunk::Message { markdown: Some(markdown) } = chunks[i] {
            observed.insert(markdown);
            proof {
                assert(done.push(markdown).to_set() =~= done.to_set().insert(markdown)) by {
                    let now = done.push(markdown);
                    assert forall|x: u64|
                        now.to_set().contains(x) == done.to_set().insert(markdown).contains(x) by {
                        if now.contains(x) {
                            let k = choose|k: int| 0 <= k < now.len() && now[k] == x;
                            if k < done.len() {
                                assert(done[k] == x);
                            }
                        }
                        if done.contains(x) {
                            let k = choose|k: int| 0 <= k < done.len() && done[k] == x;
                            assert(now[k] == x);
                        }
                        assert(now[done.len() as int] == markdown);
                    }
                }
                assert(observed@ =~= seen.union(done.push(markdown).to_set()));
            }
            match envelope {
                Some(envelope) => {
                    let turn = StackReviewAiTurn { envelope: envelope.copied(), markdown };
                    turns.push(turn);
                    assert(turns_under(Some(*envelope), done.push(markdown)) =~= turns_under(
                        Some(*envelope),
                        done,
                    ).push(turn));
                },
                None => {},
            }
            assert(turns@ =~= before + turns_under(*envelope, done.push(markdown)));
        }
        i += 1;
    }
    assert(chunks@.take(i as int) =~= chunks@);
}

/// What is shown of a thread, and the texts that show its answers.
pub fn sync_projection(
    thread: &AgentThread,
    envelope_uri: &str,
    context_key: &StackReviewAiContextKey,
    project_identity: &str,
    generation: u64,
) -> (result: (StackReviewAiProjectionUpdate, HashSet<u64>))
    ensures
        shows_thread(
            result.0,
            generation,
            *thread,
            envelope_uri@,
            *context_key,
            project_identity@,
        ),
        result.1@ == markdown_of(thread.entries@).to_set(),
{
    broadcast use group_hash_axioms;

    let entries = &thread.entries;
    let mut envelope: Option<StackReviewTurnEnvelope> = None;
    let mut turns: Vec<StackReviewAiTurn> = Vec::new();
    let mut observed: HashSet<u64> = HashSet::new();
    let mut i: usize = 0;
    proof {
        assert(entries@.take(0) =~= Seq::empty());
        assert(observed@ =~= Seq::<u64>::empty().to_set());
    }
    while i < entries.len()
        invariant
            i <= entries@.len(),
            envelope == current_envelope(
                entries@.take(i as int),
                envelope_uri@,
                *context_key,
                project_identity@,
            ),
            turns@ == assistant_turns(
                entries@.take(i as int),
                envelope_uri@,
                *context_key,
                project_identity@,
            ),
            observed@ == markdown_of(entries@.take(i as int)).to_set(),
        decreases entries.len() - i,
    {
        proof {
            assert(entries@.take(i + 1).drop_last() =~= entries@.take(i as int));
            assert(entries@.take(i + 1).last() == entries@[i as int]);
        }
        match &entries[i] {
            AgentThreadEntry::UserMessage { chunks } => {
                envelope = stack_review_turn_envelope(
                    chunks,
                    envelope_uri,
                    context_key,
                    project_identity,
                );
            },
            AgentThreadEntry::AssistantMessage { chunks } => {
                let ghost done = markdown_of(entries@.take(i as int));
                push_turns(&mut turns, &envelope, chunks, &mut observed);
                proof {
                    let more = markdown_in(chunks@);
                    assert((done + more).to_set() =~= done.to_set().union(more.to_set())) by {
                        let now = done + more;
                        assert forall|x: u64|
                            now.to_set().contains(x) == done.to_set().union(
                                more.to_set(),
                            ).contains(x) by {
                            if now.contains(x) {
                                let k = choose|k: int| 0 <= k < now.len() && now[k] == x;
                                if k < done.len() {
                                    assert(done[k] == x);
                                } else {
                                    assert(more[k - done.len()] == x);
                                }
                            }
                            if done.contains(x) {
                                let k = choose|k: int| 0 <= k < done.len() && done[k] == x;
                                assert(now[k] == x);
                            }
                            if more.contains(x) {
                                let k = choose|k: int| 0 <= k < more.len() && more[k] == x;
                                assert(now[done.len() + k] == x);
                            }
                        }
                    }
                }
            },
            AgentThreadEntry::Other => {},
        }
        i += 1;
    }
    assert(entries@.take(i as int) =~= entries@);
    (
        StackReviewAiProjectionUpdate {
            generation,
            session_id: Some(thread.session_id.clone()),
            status: status_of(thread),
            assistant_turns: turns,
        },
        observed,
    )
}

/// The first at or after `from` that was not observed.
pub open spec fn first_new(observed: Set<u64>, ids: Seq<u64>, from: int) -> Option<int>
    decreases ids.len() - from,
{
    if from < 0 || from >= ids.len() {
        None
    } else if !observed.contains(ids[from]) {
        Some(from)
    } else {
        first_new(observed, ids, from + 1)
    }
}

/// Observes the first of some texts that was not observed, and says whether there is one.
pub fn observe_markdown_ids(observed: &mut HashSet<u64>, ids: &Vec<u64>) -> (is_new: bool)
    ensures
        match first_new(old(observed)@, ids@, 0) {
            Some(at) => is_new && final(observed)@ == old(observed)@.insert(ids@[at]),
            None => !is_new && final(observed)@ == old(observed)@,
        },
{
    broadcast use group_hash_axioms;

    let ghost before = observed@;
    let mut i: usize = 0;
    while i < ids.len()
        invariant
            i <= ids@.len(),
            before == old(observed)@,
            observed@ == before,
            first_new(before, ids@, 0) == first_new(before, ids@, i as int),
        decreases ids.len() - i,
    {
        if !observed.contains(&ids[i]) {
            observed.insert(ids[i]);
            return true;
        }
        i += 1;
    }
    false
}

/// What happens in a thread.
#[derive(Clone, Debug)]
pub enum AcpThreadEvent {
    NewEntry,
    EntriesRemoved,
    EntryUpdated(usize),
    StatusChanged,
    Stopped(StopReason),
    Error,
    LoadError(String),
    Refusal,
    /// Anything that is not shown.
    Other,
}

/// How far a thread is followed.
#[derive(Debug)]
pub struct ThreadObserver {
    /// The thread that is followed.
    pub observed_thread: Option<u64>,
    pub observed_markdown_ids: HashSet<u64>,
    pub envelope_uri: String,
    pub context_key: StackReviewAiContextKey,
    pub project_identity: String,
    /// The request that the thread was opened for, by its number.
    pub generation: u64,
}

/// What is to be done to what is shown of a thread.
#[derive(Clone, Debug)]
pub enum ProjectionAction {
    Update(StackReviewAiProjectionUpdate),
    SetStatus { generation: u64, status: StackReviewAiStatus },
    /// Follow the thread from now on.
    Subscribe(u64),
}

/// Whether an action shows a thread as it is.
pub open spec fn action_shows(
    observer: ThreadObserver,
    action: ProjectionAction,
    thread: AgentThread,
) -> bool {
    match action {
        ProjectionAction::Update(update) => shows_thread(
            update,
            observer.generation,
            thread,
            observer.envelope_uri@,
            observer.context_key,
            observer.project_identity@,
        ),
        _ => false,
    }
}

/// Whether an action says that a thread cannot be shown.
pub open spec fn action_fails(
    action: ProjectionAction,
    generation: u64,
    error: Seq<char>,
) -> bool {
    match action {
        ProjectionAction::Update(update) => {
            &&& update.generation == generation
            &&& update.session_id is None
            &&& update.status@ == AiStatusView::Failed(error)
            &&& update.assistant_turns@.len() == 0
        },
        _ => false,
    }
}

/// Whether an action says how a thread stands.
pub open spec fn action_sets(
    action: ProjectionAction,
    generation: u64,
    status: AiStatusView,
) -> bool {
    match action {
        ProjectionAction::SetStatus { generation: of, status: now } => of == generation && now@
            == status,
        _ => false,
    }
}

/// A conversation with an agent.
#[derive(Clone, Debug)]
pub enum ConversationState {
    /// There is no thread yet.
    Waiting,
    /// There is none, and this is why.
    LoadFailed { error: String },
    /// There is none, since the user has to sign in first.
    AuthenticationRequired,
    /// There is a thread, and perhaps something went wrong in it.
    Thread { id: u64, thread: AgentThread, error_status: Option<StackReviewAiStatus> },
}

/// The texts that show the pieces of an entry that is an answer.
pub open spec fn entry_markdown(entries: Seq<AgentThreadEntry>, at: int) -> Seq<u64> {
    if 0 <= at < entries.len() {
        match entries[at] {
            AgentThreadEntry::AssistantMessage { chunks } => markdown_in(chunks@),
            _ => Seq::empty(),
        }
    } else {
        Seq::empty()
    }
}

fn collect_markdown(entries: &Vec<AgentThreadEntry>, at: usize) -> (ids: Vec<u64>)
    ensures
        ids@ == entry_markdown(entries@, at as int),
{
    let mut ids: Vec<u64> = Vec::new();
    if at < entries.len() {
        if let AgentThreadEntry::AssistantMessage { chunks } = &entries[at] {
            let mut i: usize = 0;
            assert(chunks@.take(0) =~= Seq::empty());
            while i < chunks.len()
                invariant
                    i <= chunks@.len(),
                    ids@ == markdown_in(chunks@.take(i as int)),
                decreases chunks.len() - i,
            {
                proof {
                    assert(chunks@.take(i + 1).drop_last() =~= chunks@.take(i as int));
                    assert(chunks@.take(i + 1).last() == chunks@[i as int]);
                }
                if let AssistantMessageChunk::Message { markdown: Some(markdown) } = chunks[i] {
                    ids.push(markdown);
                }
                i += 1;
            }
            assert(chunks@.take(i as int) =~= chunks@);
        }
    }
    assert(ids@ =~= entry_markdown(entries@, at as int));
    ids
}

/// The observer differs in nothing but what it has observed.
pub open spec fn same_observer(a: ThreadObserver, b: ThreadObserver) -> bool {
    &&& a.envelope_uri == b.envelope_uri
    &&& a.context_key == b.context_key
    &&& a.project_identity == b.project_identity
    &&& a.generation == b.generation
}

impl ThreadObserver {
    /// An observer that follows no thread yet.
    pub fn new(
        envelope_uri: String,
        context_key: StackReviewAiContextKey,
        project_identity: String,
        generation: u64,
    ) -> (observer: Self)
        ensures
            observer.observed_thread is None,
            observer.observed_markdown_ids@ == Set::<u64>::empty(),
            observer.envelope_uri == envelope_uri,
            observer.context_key == context_key,
            observer.project_identity == project_identity,
            observer.generation == generation,
    {
        ThreadObserver {
            observed_thread: None,
            observed_markdown_ids: HashSet::new(),
            envelope_uri,
            context_key,
            project_identity,
            generation,
        }
    }

    fn status_action(&self, status: StackReviewAiStatus) -> (action: ProjectionAction)
        ensures
            action == (ProjectionAction::SetStatus { generation: self.generation, status }),
    {
        ProjectionAction::SetStatus { generation: self.generation, status }
    }

    fn sync(&mut self, thread: &AgentThread) -> (action: ProjectionAction)
        ensures
            same_observer(*final(self), *old(self)),
            final(self).observed_thread == old(self).observed_thread,
            final(self).observed_markdown_ids@ == markdown_of(thread.entries@).to_set(),
            action_shows(*old(self), action, *thread),
    {
        let (update, observed) = sync_projection(
            thread,
            self.envelope_uri.as_str(),
            &self.context_key,
            self.project_identity.as_str(),
            self.generation,
        );
        self.observed_markdown_ids = observed;
        ProjectionAction::Update(update)
    }

    /// Shows the thread of a conversation, and follows it from now on if it was not followed
    /// before.
    pub fn attach_thread_observer(&mut self, conversation: &ConversationState) -> (actions: Vec<
        ProjectionAction,
    >)
        ensures
            same_observer(*final(self), *old(self)),
            match conversation {
                ConversationState::Waiting => actions@.len() == 0 && *final(self) == *old(self),
                ConversationState::LoadFailed { error } => actions@.len() == 1 && action_fails(
                    actions@[0],
                    old(self).generation,
                    error@,
                ) && *final(self) == *old(self),
                ConversationState::AuthenticationRequired => actions@.len() == 1 && action_fails(
                    actions@[0],
                    old(self).generation,
                    "Agent authentication is required; open Agent Panel to sign in"@,
                ) && *final(self) == *old(self),
                ConversationState::Thread { id, thread, error_status } => {
                    let status_count: int = if error_status is Some {
                        1
                    } else {
                        0
                    };
                    let follow_count: int = if old(self).observed_thread == Some(*id) {
                        0
                    } else {
                        1
                    };
                    &&& final(self).observed_thread == Some(*id)
                    &&& final(self).observed_markdown_ids@ == markdown_of(thread.entries@).to_set()
                    &&& actions@.len() == 1 + status_count + follow_count
                    &&& action_shows(*old(self), actions@[0], *thread)
                    &&& error_status matches Some(status) ==> action_sets(
                        actions@[1],
                        old(self).generation,
                        status@,
                    )
                    &&& follow_count == 1 ==> actions@.last() == ProjectionAction::Subscribe(*id)
                },
            },
    {
        let mut actions: Vec<ProjectionAction> = Vec::new();
        match conversation {
            ConversationState::Waiting => {},
            ConversationState::LoadFailed { error } => {
                actions.push(
                    ProjectionAction::Update(
                        StackReviewAiProjectionUpdate {
                            generation: self.generation,
                            session_id: None,
                            status: StackReviewAiStatus::Failed(error.clone()),
                            assistant_turns: Vec::new(),
                        },
                    ),
                );
            },
            ConversationState::AuthenticationRequired => {
                actions.push(
                    ProjectionAction::Update(
                        StackReviewAiProjectionUpdate {
                            generation: self.generation,
                            session_id: None,
                            status: StackReviewAiStatus::Failed(
                                "Agent authentication is required; open Agent Panel to sign in".to_owned(),
                            ),
                            assistant_turns: Vec::new(),
                        },
                    ),
                );
            },
            ConversationState::Thread { id, thread, error_status } => {
                let action = self.sync(thread);
                actions.push(action);
                match error_status {
                    Some(status) => {
                        actions.push(self.status_action(status.copied()));
                    },
                    None => {},
                }
                let follows = match self.observed_thread {
                    Some(observed) => observed == *id,
                    None => false,
                };
                self.observed_thread = Some(*id);
                if !follows {
                    actions.push(ProjectionAction::Subscribe(*id));
                }
            },
        }
        actions
    }

    /// What an event in a thread changes of what is shown. A thread that is not followed any
    /// longer changes nothing; one that changed is read anew where its texts may be others.
    pub fn on_thread_event(
        &mut self,
        id: u64,
        event: &AcpThreadEvent,
        thread: &AgentThread,
        error_status: &Option<StackReviewAiStatus>,
    ) -> (action: Option<ProjectionAction>)
        ensures
            same_observer(*final(self), *old(self)),
            final(self).observed_thread == old(self).observed_thread,
            follows_event(*old(self), *final(self), id, *event, *thread, *error_status, action),
    {
        let follows = match self.observed_thread {
            Some(observed) => observed == id,
            None => false,
        };
        if !follows {
            return None;
        }
        match event {
            AcpThreadEvent::NewEntry => Some(self.sync(thread)),
            AcpThreadEvent::EntriesRemoved => Some(self.sync(thread)),
            AcpThreadEvent::EntryUpdated(at) => {
                let ids = collect_markdown(&thread.entries, *at);
                if observe_markdown_ids(&mut self.observed_markdown_ids, &ids) {
                    Some(self.sync(thread))
                } else {
                    None
                }
            },
            AcpThreadEvent::StatusChanged => Some(self.status_action(status_of(thread))),
            AcpThreadEvent::Stopped(reason) => Some(
                self.status_action(stack_review_status_for_stop(*reason)),
            ),
            AcpThreadEvent::Error => match error_status {
                Some(status) => Some(self.status_action(status.copied())),
                None => Some(
                    self.status_action(
                        StackReviewAiStatus::Failed("Agent turn failed".to_owned()),
                    ),
                ),
            },
            AcpThreadEvent::LoadError(error) => Some(
                self.status_action(StackReviewAiStatus::Failed(error.clone())),
            ),
            AcpThreadEvent::Refusal => Some(
                self.status_action(
                    StackReviewAiStatus::Failed("Agent refused the prompt".to_owned()),
                ),
            ),
            AcpThreadEvent::Other => None,
        }
    }
}

/// Whether `action` sets a status, and nothing else was observed.
pub open spec fn only_sets(
    before: ThreadObserver,
    after: ThreadObserver,
    action: Option<ProjectionAction>,
    status: AiStatusView,
) -> bool {
    &&& after.observed_markdown_ids@ == before.observed_markdown_ids@
    &&& action matches Some(action) && action_sets(action, before.generation, status)
}

/// Whether `action` shows a thread as it is, and the texts that it has were observed.
pub open spec fn reads_anew(
    before: ThreadObserver,
    after: ThreadObserver,
    action: Option<ProjectionAction>,
    thread: AgentThread,
) -> bool {
    &&& after.observed_markdown_ids@ == markdown_of(thread.entries@).to_set()
    &&& action matches Some(action) && action_shows(before, action, thread)
}

/// What an event in a thread changes.
pub open spec fn follows_event(
    before: ThreadObserver,
    after: ThreadObserver,
    id: u64,
    event: AcpThreadEvent,
    thread: AgentThread,
    error_status: Option<StackReviewAiStatus>,
    action: Option<ProjectionAction>,
) -> bool {
    if before.observed_thread != Some(id) {
        after == before && action is None
    } else {
        match event {
            AcpThreadEvent::NewEntry => reads_anew(before, after, action, thread),
            AcpThreadEvent::EntriesRemoved => reads_anew(before, after, action, thread),
            AcpThreadEvent::EntryUpdated(at) => match first_new(
                before.observed_markdown_ids@,
                entry_markdown(thread.entries@, at as int),
                0,
            ) {
                Some(_) => reads_anew(before, after, action, thread),
                None => action is None && after.observed_markdown_ids@
                    == before.observed_markdown_ids@,
            },
            AcpThreadEvent::StatusChanged => only_sets(
                before,
                after,
                action,
                thread_status(thread),
            ),
            AcpThreadEvent::Stopped(reason) => only_sets(
                before,
                after,
                action,
                status_for_stop(reason),
            ),
            AcpThreadEvent::Error => only_sets(
                before,
                after,
                action,
                match error_status {
                    Some(status) => status@,
                    None => AiStatusView::Failed("Agent turn failed"@),
                },
            ),
            AcpThreadEvent::LoadError(error) => only_sets(
                before,
                after,
                action,
                AiStatusView::Failed(error@),
            ),
            AcpThreadEvent::Refusal => only_sets(
                before,
                after,
                action,
                AiStatusView::Failed("Agent refused the prompt"@),
            ),
            AcpThreadEvent::Other => after == before && action is None,
        }
    }
}

/// Nothing is shown of an answer to a message without an envelope for this part of the review.
pub proof fn unmarked_answers_are_not_shown(
    entries: Seq<AgentThreadEntry>,
    envelope_uri: Seq<char>,
    context_key: StackReviewAiContextKey,
    project_identity: Seq<char>,
    i: int,
)
    requires
        0 <= i < assistant_turns(entries, envelope_uri, context_key, project_identity).len(),
    ensures
        ({
            let turn = assistant_turns(entries, envelope_uri, context_key, project_identity)[i];
            &&& turn.envelope.context_key.same_as(context_key)
            &&& turn.envelope.project_identity@ == project_identity
            &&& markdown_of(entries).contains(turn.markdown)
        }),
    decreases entries.len(),
{
    let rest = entries.drop_last();
    let before = assistant_turns(rest, envelope_uri, context_key, project_identity);
    let shown = markdown_of(rest);
    if i < before.len() {
        unmarked_answers_are_not_shown(rest, envelope_uri, context_key, project_identity, i);
        let turn = before[i];
        let k = choose|k: int| 0 <= k < shown.len() && shown[k] == turn.markdown;
        assert(markdown_of(entries)[k] == turn.markdown);
    } else {
        match entries.last() {
            AgentThreadEntry::AssistantMessage { chunks } => {
                let envelope = current_envelope(rest, envelope_uri, context_key, project_identity);
                lemma_current_envelope(rest, envelope_uri, context_key, project_identity);
                let j = i - before.len();
                let more = markdown_in(chunks@);
                assert(turns_under(envelope, more)[j].markdown == more[j]);
                assert(markdown_of(entries)[shown.len() + j] == more[j]);
            },
            _ => {},
        }
    }
}

proof fn lemma_current_envelope(
    entries: Seq<AgentThreadEntry>,
    envelope_uri: Seq<char>,
    context_key: StackReviewAiContextKey,
    project_identity: Seq<char>,
)
    ensures
        current_envelope(entries, envelope_uri, context_key, project_identity) matches Some(
            envelope,
        ) ==> envelope.context_key.same_as(context_key) && envelope.project_identity@
            == project_identity,
    decreases entries.len(),
{
    if entries.len() > 0 {
        lemma_current_envelope(entries.drop_last(), envelope_uri, context_key, project_identity);
    }
}

} // verus!
