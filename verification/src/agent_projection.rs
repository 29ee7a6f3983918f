//! The answers of an agent, as an editor shows them next to comments.

use crate::editor::{AgentProjection, Editor};
use crate::editor_projection::{is_text_among, text_among};
use crate::review_comment::StoredReviewComment;
use crate::text_map::TextMap;
use vstd::prelude::*;
use vstd::string::*;

verus! {

/// The numbers, each once, in the order in which they come.
pub open spec fn distinct(ids: Seq<u64>) -> Seq<u64>
    decreases ids.len(),
{
    if ids.len() == 0 {
        Seq::empty()
    } else {
        let before = distinct(ids.drop_last());
        if before.contains(ids.last()) {
            before
        } else {
            before.push(ids.last())
        }
    }
}

/// The texts under some records, record after record.
pub open spec fn texts_under(entries: Seq<(String, Vec<u64>)>) -> Seq<u64>
    decreases entries.len(),
{
    if entries.len() == 0 {
        Seq::empty()
    } else {
        texts_under(entries.drop_last()) + entries.last().1@
    }
}

/// What is shown once, is all that is shown, and nothing else.
pub proof fn distinct_keeps_all(ids: Seq<u64>, id: u64)
    ensures
        distinct(ids).no_duplicates(),
        distinct(ids).contains(id) == ids.contains(id),
    decreases ids.len(),
{
    if ids.len() > 0 {
        let rest = ids.drop_last();
        let last = ids.last();
        distinct_keeps_all(rest, id);
        distinct_keeps_all(rest, last);
        let before = distinct(rest);
        let now = distinct(ids);
        if ids.contains(id) {
            let i = choose|i: int| 0 <= i < ids.len() && ids[i] == id;
            if i < rest.len() {
                assert(rest[i] == id);
            }
        }
        if rest.contains(id) {
            let i = choose|i: int| 0 <= i < rest.len() && rest[i] == id;
            assert(ids[i] == id);
        }
        assert(ids[ids.len() - 1] == last);
        if !before.contains(last) {
            assert(now[before.len() as int] == last);
            if before.contains(id) {
                let i = choose|i: int| 0 <= i < before.len() && before[i] == id;
                assert(now[i] == id);
            }
            if now.contains(id) && id != last {
                let i = choose|i: int| 0 <= i < now.len() && now[i] == id;
                assert(before[i] == id);
            }
            assert forall|i: int, j: int|
                0 <= i < now.len() && 0 <= j < now.len() && i != j implies now[i] != now[j] by {
                if i < before.len() {
                    assert(before[i] == now[i]);
                }
                if j < before.len() {
                    assert(before[j] == now[j]);
                }
            }
        }
    }
}

fn holds_id(ids: &Vec<u64>, id: u64) -> (holds: bool)
    ensures
        holds == ids@.contains(id),
{
    let mut i: usize = 0;
    while i < ids.len()
        invariant
            i <= ids@.len(),
            forall|j: int| 0 <= j < i ==> ids@[j] != id,
        decreases ids.len() - i,
    {
        if ids[i] == id {
            return true;
        }
        i += 1;
    }
    false
}

proof fn lemma_distinct_push(ids: Seq<u64>, id: u64)
    ensures
        distinct(ids.push(id)) == if distinct(ids).contains(id) {
            distinct(ids)
        } else {
            distinct(ids).push(id)
        },
{
    assert(ids.push(id).drop_last() =~= ids);
}

fn collect_distinct(projections: &TextMap<Vec<u64>>) -> (observed: Vec<u64>)
    ensures
        observed@ == distinct(texts_under(projections.spec_entries())),
{
    let ghost entries = projections.spec_entries();
    let mut observed: Vec<u64> = Vec::new();
    let len: usize = projections.len();
    let mut e: usize = 0;
    assert(texts_under(entries.take(0)) =~= Seq::empty());
    while e < len
        invariant
            e <= len,
            len == entries.len(),
            entries == projections.spec_entries(),
            observed@ == distinct(texts_under(entries.take(e as int))),
        decreases len - e,
    {
        let (_, texts) = projections.entry(e);
        let ghost before = texts_under(entries.take(e as int));
        let mut i: usize = 0;
        assert(before + texts@.take(0) =~= before);
        while i < texts.len()
            invariant
                i <= texts@.len(),
                observed@ == distinct(before + texts@.take(i as int)),
            decreases texts.len() - i,
        {
            let id: u64 = texts[i];
            proof {
                assert(before + texts@.take(i + 1) =~= (before + texts@.take(i as int)).push(id));
                lemma_distinct_push(before + texts@.take(i as int), id);
            }
            if !holds_id(&observed, id) {
                observed.push(id);
            }
            i += 1;
        }
        proof {
            assert(texts@.take(i as int) =~= texts@);
            assert(entries.take(e + 1).drop_last() =~= entries.take(e as int));
            assert(entries.take(e + 1).last() == entries[e as int]);
        }
        e += 1;
    }
    assert(entries.take(e as int) =~= entries);
    observed
}

/// The texts that show the answers at a comment: those under its record.
pub open spec fn responses_at(comment: StoredReviewComment, texts: Map<Seq<char>, Vec<u64>>) -> Seq<
    u64,
> {
    match comment.record_id {
        Some(record_id) => if texts.contains_key(record_id@) {
            texts[record_id@]@
        } else {
            Seq::empty()
        },
        None => Seq::empty(),
    }
}

/// The texts that show the answers at a comment.
pub fn agent_responses(comment: &StoredReviewComment, texts: &TextMap<Vec<u64>>) -> (responses: Vec<
    u64,
>)
    requires
        texts.wf(),
    ensures
        responses@ == responses_at(*comment, texts@),
{
    match &comment.record_id {
        Some(record_id) => match texts.get(record_id.as_str()) {
            Some(responses) => copied_ids(responses),
            None => Vec::new(),
        },
        None => Vec::new(),
    }
}

/// A copy of some numbers.
pub(crate) fn copied_ids(ids: &Vec<u64>) -> (copies: Vec<u64>)
    ensures
        copies@ == ids@,
{
    let mut copies: Vec<u64> = Vec::new();
    let mut i: usize = 0;
    while i < ids.len()
        invariant
            i <= ids@.len(),
            copies@ == ids@.take(i as int),
        decreases ids.len() - i,
    {
        copies.push(ids[i]);
        assert(ids@.take(i + 1) =~= ids@.take(i as int).push(ids@[i as int]));
        i += 1;
    }
    assert(ids@.take(i as int) =~= ids@);
    copies
}

impl Editor {
    /// Shows the answers of an agent next to the comments of the records they are under, and
    /// that it is at work at others. Gives the texts to watch, each once.
    pub fn replace_stack_review_agent_projection(
        &mut self,
        projections: TextMap<Vec<u64>>,
        loading_record_ids: Vec<String>,
    ) -> (observed: Vec<u64>)
        requires
            old(self).wf(),
            projections.wf(),
        ensures
            final(self).wf(),
            if old(self).is_stack_review {
                &&& *final(self) == (Editor {
                    agent: AgentProjection { texts: projections, loading_record_ids },
                    ..*old(self)
                })
                &&& observed@ == distinct(texts_under(projections.spec_entries()))
            } else {
                *final(self) == *old(self) && observed@.len() == 0
            },
    {
        if !self.is_stack_review {
            return Vec::new();
        }
        let observed = collect_distinct(&projections);
        self.agent = AgentProjection { texts: projections, loading_record_ids };
        observed
    }

    /// Whether an agent is at work at a comment.
    pub fn is_agent_loading(&self, comment: &StoredReviewComment) -> (loading: bool)
        ensures
            loading == match comment.record_id {
                Some(record_id) => text_among(
                    self.agent.loading_record_ids@,
                    record_id@,
                ),
                None => false,
            },
    {
        match &comment.record_id {
            Some(record_id) => is_text_among(
                self.agent.loading_record_ids.as_slice(),
                record_id.as_str(),
            ),
            None => false,
        }
    }
}

} // verus!
