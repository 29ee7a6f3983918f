//! What holds of a presentation state after any calls that change it.

use crate::presentation::{stashed_roots_are_those_stashed, StackReviewPresentationState};
use crate::text::text_le;
use crate::thread_key::{
    stable_text, stable_text_is_injective, thread_key_problem, ThreadKeyView,
};
use vstd::prelude::*;

verus! {

/// A call that may change a presentation state.
pub enum PresentationCall {
    /// Of `stash_root`.
    Stash(ThreadKeyView),
    /// Of `restore_root`.
    Restore(ThreadKeyView),
    /// Of `bind_thread` or `unbind_thread`.
    Binding,
}

/// Whether a call took one state to another, as far as stashed threads go. A key that does not
/// stand for a thread of the snapshot changes nothing.
pub open spec fn is_step(
    before: StackReviewPresentationState,
    call: PresentationCall,
    after: StackReviewPresentationState,
) -> bool {
    &&& after.wf()
    &&& after.base_oid == before.base_oid
    &&& after.head_oid == before.head_oid
    &&& before.is_valid() ==> after.is_valid()
    &&& after.roots() == match call {
        PresentationCall::Stash(root) => if thread_key_problem(
            root,
            before.base_oid@,
            before.head_oid@,
        ) is None {
            before.roots().insert(stable_text(root))
        } else {
            before.roots()
        },
        PresentationCall::Restore(root) => if thread_key_problem(
            root,
            before.base_oid@,
            before.head_oid@,
        ) is None {
            before.roots().remove(stable_text(root))
        } else {
            before.roots()
        },
        PresentationCall::Binding => before.roots(),
    }
}

/// Whether the last of the calls for `root` that succeeded stashed it.
pub open spec fn stashed_last(
    calls: Seq<PresentationCall>,
    root: ThreadKeyView,
    base_oid: Seq<char>,
    head_oid: Seq<char>,
) -> bool
    decreases calls.len(),
{
    if calls.len() == 0 {
        false
    } else {
        match calls.last() {
            PresentationCall::Stash(other) if other == root && thread_key_problem(
                root,
                base_oid,
                head_oid,
            ) is None => true,
            PresentationCall::Restore(other) if other == root && thread_key_problem(
                root,
                base_oid,
                head_oid,
            ) is None => false,
            _ => stashed_last(calls.drop_last(), root, base_oid, head_oid),
        }
    }
}

/// Whether calls led through these states, from one in which nothing is stashed or bound.
pub open spec fn is_run(
    states: Seq<StackReviewPresentationState>,
    calls: Seq<PresentationCall>,
) -> bool {
    &&& states.len() == calls.len() + 1
    &&& states[0].wf()
    &&& states[0].is_valid()
    &&& states[0].roots() == Set::<Seq<char>>::empty()
    &&& forall|i: int|
        0 <= i < calls.len() ==> is_step(states[i], #[trigger] calls[i], states[i + 1])
}

/// What one call says of whether `root` is stashed.
spec fn stashed_by(
    before: bool,
    call: PresentationCall,
    root: ThreadKeyView,
    base_oid: Seq<char>,
    head_oid: Seq<char>,
) -> bool {
    match call {
        PresentationCall::Stash(other) => before || (other == root && thread_key_problem(
            root,
            base_oid,
            head_oid,
        ) is None),
        PresentationCall::Restore(other) => before && !(other == root && thread_key_problem(
            root,
            base_oid,
            head_oid,
        ) is None),
        PresentationCall::Binding => before,
    }
}

proof fn lemma_step(
    before: StackReviewPresentationState,
    call: PresentationCall,
    after: StackReviewPresentationState,
    root: ThreadKeyView,
)
    requires
        is_step(before, call, after),
    ensures
        after.base_oid == before.base_oid,
        after.head_oid == before.head_oid,
        after.roots().contains(stable_text(root)) == stashed_by(
            before.roots().contains(stable_text(root)),
            call,
            root,
            before.base_oid@,
            before.head_oid@,
        ),
{
    let text = stable_text(root);
    match call {
        PresentationCall::Stash(other) => {
            if stable_text(other) == text {
                stable_text_is_injective(other, root);
            }
        },
        PresentationCall::Restore(other) => {
            if stable_text(other) == text {
                stable_text_is_injective(other, root);
            }
        },
        PresentationCall::Binding => {},
    }
}

proof fn lemma_step_valid(
    before: StackReviewPresentationState,
    call: PresentationCall,
    after: StackReviewPresentationState,
)
    requires
        is_step(before, call, after),
        before.is_valid(),
    ensures
        after.wf(),
        after.is_valid(),
{
}

proof fn lemma_fewer(states: Seq<StackReviewPresentationState>, calls: Seq<PresentationCall>)
    requires
        is_run(states, calls),
        calls.len() > 0,
    ensures
        is_run(states.drop_last(), calls.drop_last()),
        is_step(states[calls.len() - 1], calls.last(), states.last()),
{
    let fewer = states.drop_last();
    let earlier = calls.drop_last();
    assert(fewer[0] == states[0]);
    assert forall|i: int| 0 <= i < earlier.len() implies is_step(
        fewer[i],
        #[trigger] earlier[i],
        fewer[i + 1],
    ) by {
        assert(is_step(states[i], calls[i], states[i + 1]));
    }
    let last = calls.len() - 1;
    assert(is_step(states[last], calls[last], states[last + 1]));
}

proof fn lemma_run_valid(states: Seq<StackReviewPresentationState>, calls: Seq<PresentationCall>)
    requires
        is_run(states, calls),
    ensures
        states.last().wf(),
        states.last().is_valid(),
    decreases calls.len(),
{
    if calls.len() > 0 {
        lemma_fewer(states, calls);
        lemma_run_valid(states.drop_last(), calls.drop_last());
        lemma_step_valid(states[calls.len() - 1], calls.last(), states.last());
    }
}

proof fn lemma_run(
    states: Seq<StackReviewPresentationState>,
    calls: Seq<PresentationCall>,
    root: ThreadKeyView,
)
    requires
        is_run(states, calls),
    ensures
        states.last().base_oid == states[0].base_oid,
        states.last().head_oid == states[0].head_oid,
        states.last().roots().contains(stable_text(root)) == stashed_last(
            calls,
            root,
            states[0].base_oid@,
            states[0].head_oid@,
        ),
    decreases calls.len(),
{
    if calls.len() == 0 {
        assert(states.last() == states[0]);
    } else {
        lemma_fewer(states, calls);
        lemma_run(states.drop_last(), calls.drop_last(), root);
        lemma_step(states[calls.len() - 1], calls.last(), states.last(), root);
    }
}

/// Whatever was called since a state was made, the threads that it lists as stashed ascend by
/// their texts without repetition, and a thread is among them exactly where the last call for it
/// that succeeded stashed it.
pub proof fn stashed_roots_are_those_stashed_last(
    states: Seq<StackReviewPresentationState>,
    calls: Seq<PresentationCall>,
    listed: Seq<ThreadKeyView>,
    root: ThreadKeyView,
)
    requires
        is_run(states, calls),
        listed.len() == states.last().root_entries().len(),
        forall|i: int|
            0 <= i < listed.len() ==> stable_text(#[trigger] listed[i])
                == states.last().root_entries()[i].0@,
    ensures
        states.last().is_valid(),
        listed.no_duplicates(),
        forall|i: int, j: int|
            #![trigger listed[i], listed[j]]
            0 <= i < j < listed.len() ==> text_le(stable_text(listed[i]), stable_text(listed[j]))
                && stable_text(listed[i]) != stable_text(listed[j]),
        listed.contains(root) == stashed_last(
            calls,
            root,
            states[0].base_oid@,
            states[0].head_oid@,
        ),
{
    lemma_run(states, calls, root);
    lemma_run_valid(states, calls);
    stashed_roots_are_those_stashed(states.last(), listed, root);
    let entries = states.last().root_entries();
    assert forall|i: int, j: int|
        #![trigger listed[i], listed[j]]
        0 <= i < j < listed.len() implies text_le(stable_text(listed[i]), stable_text(listed[j]))
        && stable_text(listed[i]) != stable_text(listed[j]) by {
        assert(stable_text(listed[i]) == entries[i].0@);
        assert(stable_text(listed[j]) == entries[j].0@);
    }
}

} // verus!
