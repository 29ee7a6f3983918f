//! What is kept of how a snapshot's threads are shown: which are stashed, and which AI
//! thread goes with which comments.

use crate::decimal::{decimal_text, push_decimal};
use crate::text::{after_prefix, same_text, strip_prefix_text};
use crate::text_map::{has_key, TextMap};
use crate::thread_key::{
    lemma_stands_for_thread, serialized_key_problem, stable_text, stable_text_is_injective,
    stable_text_reads_back, stands_for_thread, thread_key_message,
    thread_key_problem, validate_serialized_comment_thread_key, CommentThreadKey, ThreadKeyError,
    ThreadKeyView,
};
use crate::trim::{trim_text, trimmed};
use vstd::prelude::*;
use vstd::string::*;

verus! {

pub const PRESENTATION_STATE_SCHEMA_VERSION: u32 = 1;

/// The binding of the AI thread that belongs to the review as a whole.
pub const STACK_REVIEW_REVIEW_BINDING_KEY: &'static str = "review";

const STACK_REVIEW_COMMENT_BINDING_PREFIX: &'static str = "comment:";

/// What is wrong with a presentation state, or with what is asked of it.
#[derive(Clone, Copy, Debug, PartialEq, Eq, Structural)]
pub enum PresentationError {
    UnsupportedSchema(u32),
    OtherSnapshot,
    InvalidThread(ThreadKeyError),
    InvalidStashedRoot(ThreadKeyError),
    UnknownBindingKey,
    InvalidBindingKey(ThreadKeyError),
    EmptySessionId,
}

/// What a presentation error says, the cause behind a colon.
pub open spec fn presentation_message(error: PresentationError) -> Seq<char> {
    match error {
        PresentationError::UnsupportedSchema(version) => "unsupported presentation-state schema "@
            + decimal_text(version as nat),
        PresentationError::OtherSnapshot => "presentation state does not match the selected Git snapshot"@,
        PresentationError::InvalidThread(cause) => thread_key_message(cause),
        PresentationError::InvalidStashedRoot(cause) => "invalid stashed comment thread root: "@
            + thread_key_message(cause),
        PresentationError::UnknownBindingKey => "invalid AI thread binding key"@,
        PresentationError::InvalidBindingKey(cause) => "invalid AI thread binding key: "@
            + thread_key_message(cause),
        PresentationError::EmptySessionId => "AI thread session ID is empty"@,
    }
}

impl PresentationError {
    /// The error in words.
    pub fn message(&self) -> (message: String)
        ensures
            message@ == presentation_message(*self),
    {
        match self {
            PresentationError::UnsupportedSchema(version) => {
                let mut message = "unsupported presentation-state schema ".to_owned();
                push_decimal(&mut message, *version as u64);
                message
            },
            PresentationError::OtherSnapshot =>
                "presentation state does not match the selected Git snapshot".to_owned(),
            PresentationError::InvalidThread(cause) => cause.message(),
            PresentationError::InvalidStashedRoot(cause) =>
                "invalid stashed comment thread root: ".to_owned().concat(
                cause.message().as_str(),
            ),
            PresentationError::UnknownBindingKey => "invalid AI thread binding key".to_owned(),
            PresentationError::InvalidBindingKey(cause) =>
                "invalid AI thread binding key: ".to_owned().concat(cause.message().as_str()),
            PresentationError::EmptySessionId => "AI thread session ID is empty".to_owned(),
        }
    }
}

/// What keeps a text from naming a binding on the snapshot.
pub open spec fn binding_key_problem(
    binding_key: Seq<char>,
    base_oid: Seq<char>,
    head_oid: Seq<char>,
) -> Option<PresentationError> {
    if binding_key == "review"@ {
        None
    } else {
        match after_prefix(binding_key, "comment:"@) {
            None => Some(PresentationError::UnknownBindingKey),
            Some(serialized) => match serialized_key_problem(serialized, base_oid, head_oid) {
                None => None,
                Some(cause) => Some(PresentationError::InvalidBindingKey(cause)),
            },
        }
    }
}

fn validate_ai_thread_binding_key(binding_key: &str, base_oid: &str, head_oid: &str) -> (checked:
    Result<(), PresentationError>)
    ensures
        match checked {
            Ok(()) => binding_key_problem(binding_key@, base_oid@, head_oid@) is None,
            Err(error) => binding_key_problem(binding_key@, base_oid@, head_oid@) == Some(error),
        },
{
    if same_text(binding_key, STACK_REVIEW_REVIEW_BINDING_KEY) {
        return Ok(());
    }
    match strip_prefix_text(binding_key, STACK_REVIEW_COMMENT_BINDING_PREFIX) {
        None => Err(PresentationError::UnknownBindingKey),
        Some(serialized) => match validate_serialized_comment_thread_key(
            serialized,
            base_oid,
            head_oid,
        ) {
            Ok(_) => Ok(()),
            Err(cause) => Err(PresentationError::InvalidBindingKey(cause)),
        },
    }
}

fn validate_ai_thread_session_id(session_id: &str) -> (checked: Result<(), PresentationError>)
    ensures
        match checked {
            Ok(()) => trimmed(session_id@).len() > 0,
            Err(error) => trimmed(session_id@).len() == 0 && error
                == PresentationError::EmptySessionId,
        },
{
    if trim_text(session_id).unicode_len() == 0 {
        Err(PresentationError::EmptySessionId)
    } else {
        Ok(())
    }
}

/// The first stashed root, in their order, that stands for no thread of the snapshot.
pub open spec fn first_root_problem(
    roots: Seq<(String, ())>,
    base_oid: Seq<char>,
    head_oid: Seq<char>,
) -> Option<ThreadKeyError>
    decreases roots.len(),
{
    if roots.len() == 0 {
        None
    } else {
        match serialized_key_problem(roots[0].0@, base_oid, head_oid) {
            Some(cause) => Some(cause),
            None => first_root_problem(roots.drop_first(), base_oid, head_oid),
        }
    }
}

/// What is wrong with one binding.
pub open spec fn binding_problem(
    binding_key: Seq<char>,
    session_id: Seq<char>,
    base_oid: Seq<char>,
    head_oid: Seq<char>,
) -> Option<PresentationError> {
    if trimmed(session_id).len() == 0 {
        Some(PresentationError::EmptySessionId)
    } else {
        binding_key_problem(binding_key, base_oid, head_oid)
    }
}

/// Whether a binding is one to a session, under the key of the review or of one of its threads.
pub open spec fn binding_is_valid(
    binding_key: Seq<char>,
    session_id: Seq<char>,
    base_oid: Seq<char>,
    head_oid: Seq<char>,
) -> bool {
    &&& trimmed(session_id).len() > 0
    &&& binding_key == "review"@ || (after_prefix(binding_key, "comment:"@) matches Some(serialized)
        && stands_for_thread(serialized, base_oid, head_oid))
}

proof fn lemma_binding_is_valid(
    binding_key: Seq<char>,
    session_id: Seq<char>,
    base_oid: Seq<char>,
    head_oid: Seq<char>,
)
    ensures
        (binding_problem(binding_key, session_id, base_oid, head_oid) is None) == binding_is_valid(
            binding_key,
            session_id,
            base_oid,
            head_oid,
        ),
{
    if let Some(serialized) = after_prefix(binding_key, "comment:"@) {
        lemma_stands_for_thread(serialized, base_oid, head_oid);
    }
}

/// What is wrong with the first binding, in the keys' order, with which something is.
pub open spec fn first_binding_problem(
    bindings: Seq<(String, String)>,
    base_oid: Seq<char>,
    head_oid: Seq<char>,
) -> Option<PresentationError>
    decreases bindings.len(),
{
    if bindings.len() == 0 {
        None
    } else {
        match binding_problem(bindings[0].0@, bindings[0].1@, base_oid, head_oid) {
            Some(error) => Some(error),
            None => first_binding_problem(bindings.drop_first(), base_oid, head_oid),
        }
    }
}

/// How a snapshot's threads are shown.
#[derive(Clone, Debug, PartialEq, Eq)]
pub struct StackReviewPresentationState {
    pub schema_version: u32,
    pub base_oid: String,
    pub head_oid: String,
    /// The texts of the stashed roots.
    pub stashed_thread_roots: TextMap<()>,
    /// The sessions under their binding keys.
    pub ai_thread_bindings: TextMap<String>,
}

impl StackReviewPresentationState {
    /// The texts of the stashed roots, in order.
    pub open spec fn root_entries(&self) -> Seq<(String, ())> {
        self.stashed_thread_roots.spec_entries()
    }

    /// The bindings, in the order of their keys.
    pub open spec fn binding_entries(&self) -> Seq<(String, String)> {
        self.ai_thread_bindings.spec_entries()
    }

    /// The texts of the stashed roots.
    pub open spec fn roots(&self) -> Set<Seq<char>> {
        self.stashed_thread_roots@.dom()
    }

    /// The session under each binding key.
    pub open spec fn bindings(&self) -> Map<Seq<char>, Seq<char>> {
        self.ai_thread_bindings@.map_values(|session: String| session@)
    }

    /// Both collections are in order, without repetition.
    pub open spec fn wf(&self) -> bool {
        self.stashed_thread_roots.wf() && self.ai_thread_bindings.wf()
    }

    /// The first thing that keeps the state from describing the snapshot between `base_oid` and
    /// `head_oid`.
    pub open spec fn problem(&self, base_oid: Seq<char>, head_oid: Seq<char>) -> Option<
        PresentationError,
    > {
        if self.schema_version != PRESENTATION_STATE_SCHEMA_VERSION {
            Some(PresentationError::UnsupportedSchema(self.schema_version))
        } else if self.base_oid@ != base_oid || self.head_oid@ != head_oid {
            Some(PresentationError::OtherSnapshot)
        } else {
            match first_root_problem(self.root_entries(), base_oid, head_oid) {
                Some(cause) => Some(PresentationError::InvalidStashedRoot(cause)),
                None => first_binding_problem(self.binding_entries(), base_oid, head_oid),
            }
        }
    }

    /// The state describes the snapshot that it names: its schema is known, its stashed roots stand
    /// for threads of the snapshot, and its bindings are for those or for the review.
    pub open spec fn is_valid(&self) -> bool {
        &&& self.schema_version == PRESENTATION_STATE_SCHEMA_VERSION
        &&& forall|root: Seq<char>| #[trigger]
            self.roots().contains(root) ==> stands_for_thread(root, self.base_oid@, self.head_oid@)
        &&& forall|key: Seq<char>| #[trigger]
            self.bindings().contains_key(key) ==> binding_is_valid(
                key,
                self.bindings()[key],
                self.base_oid@,
                self.head_oid@,
            )
    }

    /// A state in which nothing is stashed or bound.
    pub fn new(base_oid: &str, head_oid: &str) -> (state: Self)
        ensures
            state.wf(),
            state.schema_version == PRESENTATION_STATE_SCHEMA_VERSION,
            state.base_oid@ == base_oid@,
            state.head_oid@ == head_oid@,
            state.roots() == Set::<Seq<char>>::empty(),
            state.bindings() == Map::<Seq<char>, Seq<char>>::empty(),
            state.is_valid(),
    {
        let state = StackReviewPresentationState {
            schema_version: PRESENTATION_STATE_SCHEMA_VERSION,
            base_oid: base_oid.to_owned(),
            head_oid: head_oid.to_owned(),
            stashed_thread_roots: TextMap::new(),
            ai_thread_bindings: TextMap::new(),
        };
        proof {
            assert(state.roots() =~= Set::<Seq<char>>::empty());
            assert(state.bindings() =~= Map::<Seq<char>, Seq<char>>::empty());
            lemma_validity(state);
        }
        state
    }

    /// The state that a file's fields describe. A root may be given twice; of two sessions under
    /// one key the later counts.
    pub fn from_parts(
        schema_version: u32,
        base_oid: String,
        head_oid: String,
        stashed_thread_roots: Vec<String>,
        ai_thread_bindings: Vec<(String, String)>,
    ) -> (state: Self)
        ensures
            state.wf(),
            state.schema_version == schema_version,
            state.base_oid == base_oid,
            state.head_oid == head_oid,
            state.roots() == roots_among(stashed_thread_roots@),
            state.bindings() == bindings_among(ai_thread_bindings@),
    {
        let mut roots: TextMap<()> = TextMap::new();
        let mut i: usize = 0;
        assert(roots@.dom() =~= roots_among(stashed_thread_roots@.take(0)));
        while i < stashed_thread_roots.len()
            invariant
                i <= stashed_thread_roots@.len(),
                roots.wf(),
                roots@.dom() == roots_among(stashed_thread_roots@.take(i as int)),
            decreases stashed_thread_roots.len() - i,
        {
            roots.insert(stashed_thread_roots[i].clone(), ());
            assert(stashed_thread_roots@.take(i + 1).drop_last() =~= stashed_thread_roots@.take(
                i as int,
            ));
            assert(roots@.dom() =~= roots_among(stashed_thread_roots@.take(i + 1)));
            i += 1;
        }
        assert(stashed_thread_roots@.take(i as int) =~= stashed_thread_roots@);
        let mut bindings: TextMap<String> = TextMap::new();
        let mut j: usize = 0;
        let ghost session_of = |session: String| session@;
        assert(bindings@.map_values(session_of) =~= bindings_among(ai_thread_bindings@.take(0)));
        while j < ai_thread_bindings.len()
            invariant
                j <= ai_thread_bindings@.len(),
                bindings.wf(),
                session_of == (|session: String| session@),
                bindings@.map_values(session_of) == bindings_among(
                    ai_thread_bindings@.take(j as int),
                ),
            decreases ai_thread_bindings.len() - j,
        {
            let ghost before = bindings@;
            let key = ai_thread_bindings[j].0.clone();
            let session = ai_thread_bindings[j].1.clone();
            bindings.insert(key, session);
            assert(ai_thread_bindings@.take(j + 1).drop_last() =~= ai_thread_bindings@.take(
                j as int,
            ));
            assert(bindings@.map_values(session_of) =~= before.map_values(session_of).insert(
                key@,
                session@,
            ));
            j += 1;
        }
        assert(ai_thread_bindings@.take(j as int) =~= ai_thread_bindings@);
        StackReviewPresentationState {
            schema_version,
            base_oid,
            head_oid,
            stashed_thread_roots: roots,
            ai_thread_bindings: bindings,
        }
    }

    /// Whether the state describes the snapshot between `base_oid` and `head_oid` and, if it does
    /// not, the first reason.
    pub fn validate(&self, base_oid: &str, head_oid: &str) -> (checked: Result<
        (),
        PresentationError,
    >)
        ensures
            match checked {
                Ok(()) => self.problem(base_oid@, head_oid@) is None,
                Err(error) => self.problem(base_oid@, head_oid@) == Some(error),
            },
    {
        if self.schema_version != PRESENTATION_STATE_SCHEMA_VERSION {
            return Err(PresentationError::UnsupportedSchema(self.schema_version));
        }
        if !same_text(self.base_oid.as_str(), base_oid) || !same_text(
            self.head_oid.as_str(),
            head_oid,
        ) {
            return Err(PresentationError::OtherSnapshot);
        }
        let ghost roots = self.root_entries();
        let root_count: usize = self.stashed_thread_roots.len();
        let mut i: usize = 0;
        assert(roots.skip(0) =~= roots);
        while i < root_count
            invariant
                i <= root_count == roots.len(),
                roots == self.root_entries(),
                self.schema_version == PRESENTATION_STATE_SCHEMA_VERSION,
                self.base_oid@ == base_oid@,
                self.head_oid@ == head_oid@,
                first_root_problem(roots, base_oid@, head_oid@) == first_root_problem(
                    roots.skip(i as int),
                    base_oid@,
                    head_oid@,
                ),
            decreases root_count - i,
        {
            let (root, _) = self.stashed_thread_roots.entry(i);
            assert(roots.skip(i as int)[0] == roots[i as int]);
            assert(roots.skip(i as int).drop_first() =~= roots.skip(i + 1));
            match validate_serialized_comment_thread_key(root.as_str(), base_oid, head_oid) {
                Ok(_) => {},
                Err(cause) => {
                    return Err(PresentationError::InvalidStashedRoot(cause));
                },
            }
            i += 1;
        }
        let ghost bindings = self.binding_entries();
        let binding_count: usize = self.ai_thread_bindings.len();
        let mut j: usize = 0;
        assert(bindings.skip(0) =~= bindings);
        while j < binding_count
            invariant
                j <= binding_count == bindings.len(),
                bindings == self.binding_entries(),
                self.schema_version == PRESENTATION_STATE_SCHEMA_VERSION,
                self.base_oid@ == base_oid@,
                self.head_oid@ == head_oid@,
                first_root_problem(self.root_entries(), base_oid@, head_oid@) is None,
                first_binding_problem(bindings, base_oid@, head_oid@) == first_binding_problem(
                    bindings.skip(j as int),
                    base_oid@,
                    head_oid@,
                ),
            decreases binding_count - j,
        {
            let (binding_key, session_id) = self.ai_thread_bindings.entry(j);
            assert(bindings.skip(j as int)[0] == bindings[j as int]);
            assert(bindings.skip(j as int).drop_first() =~= bindings.skip(j + 1));
            match validate_ai_thread_session_id(session_id.as_str()) {
                Ok(()) => {},
                Err(error) => {
                    return Err(error);
                },
            }
            match validate_ai_thread_binding_key(binding_key.as_str(), base_oid, head_oid) {
                Ok(()) => {},
                Err(error) => {
                    return Err(error);
                },
            }
            j += 1;
        }
        Ok(())
    }

    /// The text of a root, where it is a thread of the snapshot.
    fn serialized_root(&self, root: &CommentThreadKey) -> (text: Result<String, PresentationError>)
        ensures
            match text {
                Ok(text) => text@ == stable_text(root@) && thread_key_problem(
                    root@,
                    self.base_oid@,
                    self.head_oid@,
                ) is None,
                Err(error) => match thread_key_problem(root@, self.base_oid@, self.head_oid@) {
                    Some(cause) => error == PresentationError::InvalidThread(cause),
                    None => false,
                },
            },
    {
        let text = root.stable_string();
        proof {
            stable_text_reads_back(root@, self.base_oid@, self.head_oid@);
        }
        match validate_serialized_comment_thread_key(
            text.as_str(),
            self.base_oid.as_str(),
            self.head_oid.as_str(),
        ) {
            Ok(_) => Ok(text),
            Err(cause) => Err(PresentationError::InvalidThread(cause)),
        }
    }

    /// Stashes the thread under `root`; says whether it was not stashed already.
    pub fn stash_root(&mut self, root: &CommentThreadKey) -> (stashed: Result<
        bool,
        PresentationError,
    >)
        requires
            old(self).wf(),
        ensures
            final(self).wf(),
            final(self).schema_version == old(self).schema_version,
            final(self).base_oid == old(self).base_oid,
            final(self).head_oid == old(self).head_oid,
            final(self).bindings() == old(self).bindings(),
            old(self).is_valid() ==> final(self).is_valid(),
            match stashed {
                Ok(added) => {
                    &&& thread_key_problem(root@, old(self).base_oid@, old(self).head_oid@) is None
                    &&& added == !old(self).roots().contains(stable_text(root@))
                    &&& final(self).roots() == old(self).roots().insert(stable_text(root@))
                },
                Err(error) => {
                    &&& *final(self) == *old(self)
                    &&& thread_key_problem(root@, old(self).base_oid@, old(self).head_oid@) matches Some(cause)
                    &&& error == PresentationError::InvalidThread(cause)
                },
            },
    {
        let text = match self.serialized_root(root) {
            Ok(text) => text,
            Err(error) => return Err(error),
        };
        let replaced = self.stashed_thread_roots.insert(text, ());
        proof {
            assert(self.roots() =~= old(self).roots().insert(stable_text(root@)));
            stable_text_reads_back(root@, self.base_oid@, self.head_oid@);
            if old(self).is_valid() {
                lemma_stays_valid(*old(self), *self);
            }
        }
        Ok(replaced.is_none())
    }

    /// Unstashes the thread under `root`; says whether it was stashed.
    pub fn restore_root(&mut self, root: &CommentThreadKey) -> (restored: Result<
        bool,
        PresentationError,
    >)
        requires
            old(self).wf(),
        ensures
            final(self).wf(),
            final(self).schema_version == old(self).schema_version,
            final(self).base_oid == old(self).base_oid,
            final(self).head_oid == old(self).head_oid,
            final(self).bindings() == old(self).bindings(),
            old(self).is_valid() ==> final(self).is_valid(),
            match restored {
                Ok(removed) => {
                    &&& thread_key_problem(root@, old(self).base_oid@, old(self).head_oid@) is None
                    &&& removed == old(self).roots().contains(stable_text(root@))
                    &&& final(self).roots() == old(self).roots().remove(stable_text(root@))
                },
                Err(error) => {
                    &&& *final(self) == *old(self)
                    &&& thread_key_problem(root@, old(self).base_oid@, old(self).head_oid@) matches Some(cause)
                    &&& error == PresentationError::InvalidThread(cause)
                },
            },
    {
        let text = match self.serialized_root(root) {
            Ok(text) => text,
            Err(error) => return Err(error),
        };
        let removed = self.stashed_thread_roots.remove(text.as_str());
        proof {
            assert(self.roots() =~= old(self).roots().remove(stable_text(root@)));
            if old(self).is_valid() {
                lemma_stays_valid(*old(self), *self);
            }
        }
        Ok(removed.is_some())
    }

    /// Whether the thread under `root` is stashed.
    pub fn is_stashed(&self, root: &CommentThreadKey) -> (stashed: Result<bool, PresentationError>)
        requires
            self.wf(),
        ensures
            match stashed {
                Ok(stashed) => thread_key_problem(root@, self.base_oid@, self.head_oid@) is None
                    && stashed == self.roots().contains(stable_text(root@)),
                Err(error) => match thread_key_problem(root@, self.base_oid@, self.head_oid@) {
                    Some(cause) => error == PresentationError::InvalidThread(cause),
                    None => false,
                },
            },
    {
        let text = match self.serialized_root(root) {
            Ok(text) => text,
            Err(error) => return Err(error),
        };
        Ok(self.stashed_thread_roots.get(text.as_str()).is_some())
    }

    /// The stashed threads, in the order of their texts.
    pub fn stashed_roots(&self) -> (roots: Result<Vec<CommentThreadKey>, PresentationError>)
        ensures
            match roots {
                Ok(roots) => {
                    &&& first_root_problem(self.root_entries(), self.base_oid@, self.head_oid@) is None
                    &&& roots@.len() == self.root_entries().len()
                    &&& forall|i: int|
                        0 <= i < roots@.len() ==> stable_text((#[trigger] roots@[i])@)
                            == self.root_entries()[i].0@
                },
                Err(error) => match first_root_problem(
                    self.root_entries(),
                    self.base_oid@,
                    self.head_oid@,
                ) {
                    Some(cause) => error == PresentationError::InvalidThread(cause),
                    None => false,
                },
            },
    {
        let ghost entries = self.root_entries();
        let count: usize = self.stashed_thread_roots.len();
        let mut roots: Vec<CommentThreadKey> = Vec::new();
        let mut i: usize = 0;
        assert(entries.skip(0) =~= entries);
        while i < count
            invariant
                i <= count == entries.len(),
                entries == self.root_entries(),
                roots@.len() == i,
                first_root_problem(entries, self.base_oid@, self.head_oid@) == first_root_problem(
                    entries.skip(i as int),
                    self.base_oid@,
                    self.head_oid@,
                ),
                forall|k: int|
                    0 <= k < i ==> stable_text((#[trigger] roots@[k])@) == entries[k].0@,
            decreases count - i,
        {
            let (text, _) = self.stashed_thread_roots.entry(i);
            assert(entries.skip(i as int)[0] == entries[i as int]);
            assert(entries.skip(i as int).drop_first() =~= entries.skip(i + 1));
            match validate_serialized_comment_thread_key(
                text.as_str(),
                self.base_oid.as_str(),
                self.head_oid.as_str(),
            ) {
                Ok(key) => roots.push(key),
                Err(cause) => {
                    return Err(PresentationError::InvalidThread(cause));
                },
            }
            i += 1;
        }
        Ok(roots)
    }

    /// Binds a session; gives back the one that was bound before.
    pub fn bind_thread(&mut self, binding_key: &str, session_id: &str) -> (replaced: Result<
        Option<String>,
        PresentationError,
    >)
        requires
            old(self).wf(),
        ensures
            final(self).wf(),
            final(self).schema_version == old(self).schema_version,
            final(self).base_oid == old(self).base_oid,
            final(self).head_oid == old(self).head_oid,
            final(self).roots() == old(self).roots(),
            old(self).is_valid() ==> final(self).is_valid(),
            match replaced {
                Ok(replaced) => {
                    &&& binding_key_problem(
                        binding_key@,
                        old(self).base_oid@,
                        old(self).head_oid@,
                    ) is None
                    &&& trimmed(session_id@).len() > 0
                    &&& final(self).bindings() == old(self).bindings().insert(
                        binding_key@,
                        session_id@,
                    )
                    &&& match replaced {
                        Some(before) => old(self).bindings().contains_key(binding_key@) && before@
                            == old(self).bindings()[binding_key@],
                        None => !old(self).bindings().contains_key(binding_key@),
                    }
                },
                Err(error) => {
                    &&& *final(self) == *old(self)
                    &&& match binding_key_problem(
                        binding_key@,
                        old(self).base_oid@,
                        old(self).head_oid@,
                    ) {
                        Some(problem) => error == problem,
                        None => trimmed(session_id@).len() == 0 && error
                            == PresentationError::EmptySessionId,
                    }
                },
            },
    {
        match validate_ai_thread_binding_key(
            binding_key,
            self.base_oid.as_str(),
            self.head_oid.as_str(),
        ) {
            Ok(()) => {},
            Err(error) => return Err(error),
        }
        match validate_ai_thread_session_id(session_id) {
            Ok(()) => {},
            Err(error) => return Err(error),
        }
        let replaced = self.ai_thread_bindings.insert(
            binding_key.to_owned(),
            session_id.to_owned(),
        );
        proof {
            assert(self.bindings() =~= old(self).bindings().insert(binding_key@, session_id@));
            if old(self).is_valid() {
                lemma_stays_valid(*old(self), *self);
            }
        }
        Ok(replaced)
    }

    /// Unbinds a key; gives back the session that was bound.
    pub fn unbind_thread(&mut self, binding_key: &str) -> (removed: Result<
        Option<String>,
        PresentationError,
    >)
        requires
            old(self).wf(),
        ensures
            final(self).wf(),
            final(self).schema_version == old(self).schema_version,
            final(self).base_oid == old(self).base_oid,
            final(self).head_oid == old(self).head_oid,
            final(self).roots() == old(self).roots(),
            old(self).is_valid() ==> final(self).is_valid(),
            match removed {
                Ok(removed) => {
                    &&& binding_key_problem(
                        binding_key@,
                        old(self).base_oid@,
                        old(self).head_oid@,
                    ) is None
                    &&& final(self).bindings() == old(self).bindings().remove(binding_key@)
                    &&& match removed {
                        Some(before) => old(self).bindings().contains_key(binding_key@) && before@
                            == old(self).bindings()[binding_key@],
                        None => !old(self).bindings().contains_key(binding_key@),
                    }
                },
                Err(error) => {
                    &&& *final(self) == *old(self)
                    &&& binding_key_problem(
                        binding_key@,
                        old(self).base_oid@,
                        old(self).head_oid@,
                    ) == Some(error)
                },
            },
    {
        match validate_ai_thread_binding_key(
            binding_key,
            self.base_oid.as_str(),
            self.head_oid.as_str(),
        ) {
            Ok(()) => {},
            Err(error) => return Err(error),
        }
        let removed = self.ai_thread_bindings.remove(binding_key);
        proof {
            assert(self.bindings() =~= old(self).bindings().remove(binding_key@));
            if old(self).is_valid() {
                lemma_stays_valid(*old(self), *self);
            }
        }
        Ok(removed)
    }

    /// The session bound under a key.
    pub fn binding(&self, binding_key: &str) -> (session: Result<Option<&str>, PresentationError>)
        requires
            self.wf(),
        ensures
            match session {
                Ok(session) => {
                    &&& binding_key_problem(binding_key@, self.base_oid@, self.head_oid@) is None
                    &&& match session {
                        Some(session) => self.bindings().contains_key(binding_key@) && session@
                            == self.bindings()[binding_key@],
                        None => !self.bindings().contains_key(binding_key@),
                    }
                },
                Err(error) => binding_key_problem(binding_key@, self.base_oid@, self.head_oid@)
                    == Some(error),
            },
    {
        match validate_ai_thread_binding_key(
            binding_key,
            self.base_oid.as_str(),
            self.head_oid.as_str(),
        ) {
            Ok(()) => {},
            Err(error) => return Err(error),
        }
        match self.ai_thread_bindings.get(binding_key) {
            Some(session) => Ok(Some(session.as_str())),
            None => Ok(None),
        }
    }
}

/// The texts that some roots have.
pub open spec fn roots_among(roots: Seq<String>) -> Set<Seq<char>>
    decreases roots.len(),
{
    if roots.len() == 0 {
        Set::empty()
    } else {
        roots_among(roots.drop_last()).insert(roots.last()@)
    }
}

/// The session under each of some keys, the last one given.
pub open spec fn bindings_among(bindings: Seq<(String, String)>) -> Map<Seq<char>, Seq<char>>
    decreases bindings.len(),
{
    if bindings.len() == 0 {
        Map::empty()
    } else {
        bindings_among(bindings.drop_last()).insert(bindings.last().0@, bindings.last().1@)
    }
}

proof fn lemma_roots_valid(roots: Seq<(String, ())>, base_oid: Seq<char>, head_oid: Seq<char>)
    ensures
        first_root_problem(roots, base_oid, head_oid) is None <==> forall|i: int|
            0 <= i < roots.len() ==> serialized_key_problem(
                (#[trigger] roots[i]).0@,
                base_oid,
                head_oid,
            ) is None,
    decreases roots.len(),
{
    if roots.len() > 0 {
        let rest = roots.drop_first();
        lemma_roots_valid(rest, base_oid, head_oid);
        if first_root_problem(roots, base_oid, head_oid) is None {
            assert forall|i: int| 0 <= i < roots.len() implies serialized_key_problem(
                (#[trigger] roots[i]).0@,
                base_oid,
                head_oid,
            ) is None by {
                if i > 0 {
                    assert(rest[i - 1] == roots[i]);
                }
            }
        }
        if forall|i: int|
            0 <= i < roots.len() ==> serialized_key_problem(
                (#[trigger] roots[i]).0@,
                base_oid,
                head_oid,
            ) is None {
            assert(serialized_key_problem(roots[0].0@, base_oid, head_oid) is None);
            assert forall|i: int| 0 <= i < rest.len() implies serialized_key_problem(
                (#[trigger] rest[i]).0@,
                base_oid,
                head_oid,
            ) is None by {
                assert(rest[i] == roots[i + 1]);
            }
        }
    }
}

proof fn lemma_bindings_valid(
    bindings: Seq<(String, String)>,
    base_oid: Seq<char>,
    head_oid: Seq<char>,
)
    ensures
        first_binding_problem(bindings, base_oid, head_oid) is None <==> forall|i: int|
            0 <= i < bindings.len() ==> binding_problem(
                (#[trigger] bindings[i]).0@,
                bindings[i].1@,
                base_oid,
                head_oid,
            ) is None,
    decreases bindings.len(),
{
    if bindings.len() > 0 {
        let rest = bindings.drop_first();
        lemma_bindings_valid(rest, base_oid, head_oid);
        if first_binding_problem(bindings, base_oid, head_oid) is None {
            assert forall|i: int| 0 <= i < bindings.len() implies binding_problem(
                (#[trigger] bindings[i]).0@,
                bindings[i].1@,
                base_oid,
                head_oid,
            ) is None by {
                if i > 0 {
                    assert(rest[i - 1] == bindings[i]);
                }
            }
        }
        if forall|i: int|
            0 <= i < bindings.len() ==> binding_problem(
                (#[trigger] bindings[i]).0@,
                bindings[i].1@,
                base_oid,
                head_oid,
            ) is None {
            assert(binding_problem(bindings[0].0@, bindings[0].1@, base_oid, head_oid) is None);
            assert forall|i: int| 0 <= i < rest.len() implies binding_problem(
                (#[trigger] rest[i]).0@,
                rest[i].1@,
                base_oid,
                head_oid,
            ) is None by {
                assert(rest[i] == bindings[i + 1]);
            }
        }
    }
}

/// A state has no problem exactly where nothing that it holds has one.
proof fn lemma_no_problem(state: StackReviewPresentationState)
    requires
        state.wf(),
    ensures
        state.problem(state.base_oid@, state.head_oid@) is None <==> {
            &&& state.schema_version == PRESENTATION_STATE_SCHEMA_VERSION
            &&& forall|root: Seq<char>| #[trigger]
                state.roots().contains(root) ==> serialized_key_problem(
                    root,
                    state.base_oid@,
                    state.head_oid@,
                ) is None
            &&& forall|key: Seq<char>| #[trigger]
                state.bindings().contains_key(key) ==> binding_problem(
                    key,
                    state.bindings()[key],
                    state.base_oid@,
                    state.head_oid@,
                ) is None
        },
{
    let base = state.base_oid@;
    let head = state.head_oid@;
    let roots = state.root_entries();
    let bindings = state.binding_entries();
    lemma_roots_valid(roots, base, head);
    lemma_bindings_valid(bindings, base, head);
    state.stashed_thread_roots.lemma_entries_in_map();
    state.ai_thread_bindings.lemma_entries_in_map();
    if state.problem(base, head) is None {
        assert forall|root: Seq<char>| #[trigger] state.roots().contains(
            root,
        ) implies serialized_key_problem(root, base, head) is None by {
            assert(has_key(roots, root));
            let i = choose|i: int| 0 <= i < roots.len() && (#[trigger] roots[i]).0@ == root;
            assert(serialized_key_problem(roots[i].0@, base, head) is None);
        }
        assert forall|key: Seq<char>| #[trigger] state.bindings().contains_key(
            key,
        ) implies binding_problem(key, state.bindings()[key], base, head) is None by {
            assert(has_key(bindings, key));
            let i = choose|i: int| 0 <= i < bindings.len() && (#[trigger] bindings[i]).0@ == key;
            assert(binding_problem(bindings[i].0@, bindings[i].1@, base, head) is None);
        }
    }
    if state.schema_version == PRESENTATION_STATE_SCHEMA_VERSION && (forall|root: Seq<char>| #[trigger]
        state.roots().contains(root) ==> serialized_key_problem(root, base, head) is None) && (
    forall|key: Seq<char>| #[trigger]
        state.bindings().contains_key(key) ==> binding_problem(
            key,
            state.bindings()[key],
            base,
            head,
        ) is None) {
        assert forall|i: int| 0 <= i < roots.len() implies serialized_key_problem(
            (#[trigger] roots[i]).0@,
            base,
            head,
        ) is None by {
            assert(state.roots().contains(roots[i].0@));
        }
        assert forall|i: int| 0 <= i < bindings.len() implies binding_problem(
            (#[trigger] bindings[i]).0@,
            bindings[i].1@,
            base,
            head,
        ) is None by {
            assert(state.bindings().contains_key(bindings[i].0@));
        }
    }
}

/// A state describes the snapshot that it names exactly where it has no problem with it.
pub proof fn valid_states_have_no_problem(state: StackReviewPresentationState)
    requires
        state.wf(),
    ensures
        state.is_valid() == (state.problem(state.base_oid@, state.head_oid@) is None),
{
    lemma_validity(state);
    lemma_no_problem(state);
}

proof fn lemma_validity(state: StackReviewPresentationState)
    ensures
        state.is_valid() <==> {
            &&& state.schema_version == PRESENTATION_STATE_SCHEMA_VERSION
            &&& forall|root: Seq<char>| #[trigger]
                state.roots().contains(root) ==> serialized_key_problem(
                    root,
                    state.base_oid@,
                    state.head_oid@,
                ) is None
            &&& forall|key: Seq<char>| #[trigger]
                state.bindings().contains_key(key) ==> binding_problem(
                    key,
                    state.bindings()[key],
                    state.base_oid@,
                    state.head_oid@,
                ) is None
        },
{
    let base = state.base_oid@;
    let head = state.head_oid@;
    assert forall|root: Seq<char>| #[trigger] state.roots().contains(root) implies (
    serialized_key_problem(root, base, head) is None) == stands_for_thread(root, base, head) by {
        lemma_stands_for_thread(root, base, head);
    }
    assert forall|key: Seq<char>| #[trigger] state.bindings().contains_key(key) implies (
    binding_problem(key, state.bindings()[key], base, head) is None) == binding_is_valid(
        key,
        state.bindings()[key],
        base,
        head,
    ) by {
        lemma_binding_is_valid(key, state.bindings()[key], base, head);
    }
}

/// What is changed in a valid state to something valid leaves it valid.
proof fn lemma_stays_valid(
    before: StackReviewPresentationState,
    after: StackReviewPresentationState,
)
    requires
        before.wf(),
        after.wf(),
        before.is_valid(),
        after.schema_version == before.schema_version,
        after.base_oid == before.base_oid,
        after.head_oid == before.head_oid,
        forall|root: Seq<char>| #[trigger]
            after.roots().contains(root) ==> before.roots().contains(root)
                || serialized_key_problem(root, after.base_oid@, after.head_oid@) is None,
        forall|key: Seq<char>| #[trigger]
            after.bindings().contains_key(key) ==> (before.bindings().contains_key(key)
                && before.bindings()[key] == after.bindings()[key]) || binding_problem(
                key,
                after.bindings()[key],
                after.base_oid@,
                after.head_oid@,
            ) is None,
    ensures
        after.is_valid(),
{
    lemma_validity(before);
    lemma_validity(after);
}

/// Where a valid state's stashed threads are listed, a thread is among them exactly where the
/// state says that it is stashed.
pub proof fn stashed_roots_are_those_stashed(
    state: StackReviewPresentationState,
    listed: Seq<ThreadKeyView>,
    root: ThreadKeyView,
)
    requires
        state.wf(),
        state.is_valid(),
        listed.len() == state.root_entries().len(),
        forall|i: int|
            0 <= i < listed.len() ==> stable_text(#[trigger] listed[i])
                == state.root_entries()[i].0@,
    ensures
        listed.contains(root) == state.roots().contains(stable_text(root)),
{
    let roots = state.root_entries();
    state.stashed_thread_roots.lemma_entries_in_map();
    if listed.contains(root) {
        let i = choose|i: int| 0 <= i < listed.len() && listed[i] == root;
        assert(stable_text(listed[i]) == roots[i].0@);
        assert(state.stashed_thread_roots@.contains_key(roots[i].0@));
    }
    if state.roots().contains(stable_text(root)) {
        assert(has_key(roots, stable_text(root)));
        let i = choose|i: int|
            0 <= i < roots.len() && (#[trigger] roots[i]).0@ == stable_text(root);
        assert(stable_text(listed[i]) == stable_text(root));
        stable_text_is_injective(listed[i], root);
    }
}

/// Stashing a thread stashes that thread and no other, and restoring it makes all as it was.
pub proof fn stashing_is_for_one_thread(
    before: StackReviewPresentationState,
    stashed: StackReviewPresentationState,
    restored: StackReviewPresentationState,
    root: ThreadKeyView,
    other: ThreadKeyView,
)
    requires
        stashed.roots() == before.roots().insert(stable_text(root)),
        restored.roots() == stashed.roots().remove(stable_text(root)),
    ensures
        stashed.roots().contains(stable_text(root)),
        !restored.roots().contains(stable_text(root)),
        other != root ==> {
            &&& stashed.roots().contains(stable_text(other)) == before.roots().contains(
                stable_text(other),
            )
            &&& restored.roots().contains(stable_text(other)) == before.roots().contains(
                stable_text(other),
            )
        },
        !before.roots().contains(stable_text(root)) ==> restored.roots() == before.roots(),
{
    if stable_text(root) == stable_text(other) {
        stable_text_is_injective(root, other);
    }
    if !before.roots().contains(stable_text(root)) {
        assert(restored.roots() =~= before.roots());
    }
}

} // verus!
