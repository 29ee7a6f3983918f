//! What was done in the review of a snapshot: the files that were reviewed and the comments.

use crate::comment::StackReviewComment;
use crate::decimal::{decimal_text, push_decimal};
use crate::ranking::{is_ranking, lemma_ranking_covers, positions, rank, sorts_before};
use crate::text::same_text;
use crate::text_map::TextMap;
use std::collections::HashSet;
use vstd::prelude::*;
use vstd::string::*;

verus! {

pub const REVIEW_STATE_SCHEMA_VERSION: u32 = 1;

/// A review state follows a schema that is not known here.
#[derive(Clone, Copy, Debug, PartialEq, Eq, Structural)]
pub struct UnsupportedReviewState {
    pub schema_version: u32,
}

impl UnsupportedReviewState {
    /// The error in words.
    pub fn message(&self) -> (message: String)
        ensures
            message@ == "unsupported review-state schema "@ + decimal_text(
                self.schema_version as nat,
            ),
    {
        let mut message = "unsupported review-state schema ".to_owned();
        push_decimal(&mut message, self.schema_version as u64);
        message
    }
}

/// What was done in the review of the snapshot between two commits.
#[derive(Clone, Debug, PartialEq, Eq)]
pub struct StackReviewState {
    pub schema_version: u32,
    pub base_oid: String,
    pub head_oid: String,
    /// Files that were reviewed before their contents were told apart. Read, never written.
    pub reviewed_files: TextMap<()>,
    /// The contents that were reviewed, by path.
    pub reviewed_file_fingerprints: TextMap<String>,
    pub comments: Vec<StackReviewComment>,
}

/// The number after `n`, or the greatest there is.
pub open spec fn next_number(n: usize) -> usize {
    if n < usize::MAX {
        (n + 1) as usize
    } else {
        usize::MAX
    }
}

fn number_after(n: usize) -> (next: usize)
    ensures
        next == next_number(n),
{
    if n < usize::MAX {
        n + 1
    } else {
        n
    }
}

/// The ids of some comments.
pub open spec fn comment_ids(comments: Seq<StackReviewComment>) -> Seq<usize> {
    comments.map_values(|comment: StackReviewComment| comment.id)
}

/// The greatest of some numbers, or zero.
pub open spec fn greatest(ids: Seq<usize>) -> usize
    decreases ids.len(),
{
    if ids.len() == 0 {
        0
    } else {
        let before = greatest(ids.drop_last());
        if before < ids.last() {
            ids.last()
        } else {
            before
        }
    }
}

/// Some ids, with a new one for each that was seen before; new ones are counted up from `next`.
pub open spec fn renumbered(ids: Seq<usize>, seen: Set<usize>, next: usize) -> Seq<usize>
    decreases ids.len(),
{
    if ids.len() == 0 {
        Seq::empty()
    } else if seen.contains(ids[0]) {
        seq![next] + renumbered(ids.drop_first(), seen.insert(next), next_number(next))
    } else {
        seq![ids[0]] + renumbered(ids.drop_first(), seen.insert(ids[0]), next)
    }
}

/// Some ids, with a new one for each that an earlier comment has; new ones are counted up from
/// past the greatest.
pub open spec fn deduplicated(ids: Seq<usize>) -> Seq<usize> {
    renumbered(ids, Set::empty(), next_number(greatest(ids)))
}

/// A comment with another id.
pub open spec fn with_id(comment: StackReviewComment, id: usize) -> StackReviewComment {
    StackReviewComment { id, ..comment }
}

/// Some comments with other ids.
pub open spec fn with_ids(comments: Seq<StackReviewComment>, ids: Seq<usize>) -> Seq<
    StackReviewComment,
> {
    Seq::new(comments.len(), |i: int| with_id(comments[i], ids[i]))
}

pub proof fn lemma_renumbered_len(ids: Seq<usize>, seen: Set<usize>, next: usize)
    ensures
        renumbered(ids, seen, next).len() == ids.len(),
    decreases ids.len(),
{
    if ids.len() > 0 {
        if seen.contains(ids[0]) {
            lemma_renumbered_len(ids.drop_first(), seen.insert(next), next_number(next));
        } else {
            lemma_renumbered_len(ids.drop_first(), seen.insert(ids[0]), next);
        }
    }
}

proof fn lemma_greatest(ids: Seq<usize>, i: int)
    requires
        0 <= i < ids.len(),
    ensures
        ids[i] <= greatest(ids),
    decreases ids.len(),
{
    if i < ids.len() - 1 {
        assert(ids.drop_last()[i] == ids[i]);
        lemma_greatest(ids.drop_last(), i);
    }
}

/// Whether the id at `i` is among `seen` or is that of an earlier one.
pub open spec fn is_repeat(ids: Seq<usize>, seen: Set<usize>, i: int) -> bool {
    seen.contains(ids[i]) || exists|j: int| 0 <= j < i && #[trigger] ids[j] == ids[i]
}

/// How many ids are among `seen` or are those of earlier ones.
pub open spec fn repeat_count(ids: Seq<usize>, seen: Set<usize>) -> nat
    decreases ids.len(),
{
    if ids.len() == 0 {
        0
    } else if seen.contains(ids[0]) {
        1 + repeat_count(ids.drop_first(), seen)
    } else {
        repeat_count(ids.drop_first(), seen.insert(ids[0]))
    }
}

/// Comments that were read keep their order; an id that no earlier one has is kept, and another
/// becomes greater than all that were given. Unless the numbers run out, no two then have the same
/// id.
pub proof fn deduplicated_ids_are_distinct(ids: Seq<usize>)
    requires
        greatest(ids) + repeat_count(ids, Set::empty()) <= usize::MAX,
    ensures
        deduplicated(ids).no_duplicates(),
        deduplicated(ids).len() == ids.len(),
        forall|i: int|
            0 <= i < ids.len() && !is_repeat(ids, Set::empty(), i) ==> #[trigger] deduplicated(
                ids,
            )[i] == ids[i],
        forall|i: int|
            0 <= i < ids.len() && is_repeat(ids, Set::empty(), i) ==> #[trigger] deduplicated(
                ids,
            )[i] > greatest(ids),
        forall|i: int| 0 <= i < ids.len() ==> #[trigger] ids[i] <= greatest(ids),
{
    assert forall|i: int| 0 <= i < ids.len() implies #[trigger] ids[i] <= greatest(ids) by {
        lemma_greatest(ids, i);
    }
    if repeat_count(ids, Set::empty()) == 0 {
        lemma_no_repeats(ids, Set::empty());
    }
    lemma_renumbered(ids, Set::empty(), next_number(greatest(ids)));
}

proof fn lemma_no_repeats(ids: Seq<usize>, seen: Set<usize>)
    requires
        repeat_count(ids, seen) == 0,
    ensures
        forall|i: int| 0 <= i < ids.len() ==> !#[trigger] is_repeat(ids, seen, i),
    decreases ids.len(),
{
    if ids.len() > 0 {
        let rest = ids.drop_first();
        lemma_no_repeats(rest, seen.insert(ids[0]));
        assert forall|i: int| 0 <= i < ids.len() implies !#[trigger] is_repeat(ids, seen, i) by {
            if i > 0 {
                assert(!is_repeat(rest, seen.insert(ids[0]), i - 1));
                assert forall|j: int| 0 <= j < i implies #[trigger] ids[j] != ids[i] by {
                    if j > 0 {
                        assert(rest[j - 1] == ids[j]);
                    }
                }
            }
        }
    }
}

proof fn lemma_repeat_count_without(ids: Seq<usize>, seen: Set<usize>, other: usize)
    requires
        forall|i: int| 0 <= i < ids.len() ==> #[trigger] ids[i] != other,
    ensures
        repeat_count(ids, seen.insert(other)) == repeat_count(ids, seen),
    decreases ids.len(),
{
    if ids.len() > 0 {
        let rest = ids.drop_first();
        assert forall|i: int| 0 <= i < rest.len() implies #[trigger] rest[i] != other by {
            assert(rest[i] == ids[i + 1]);
        }
        assert(ids[0] != other);
        if seen.contains(ids[0]) {
            lemma_repeat_count_without(rest, seen, other);
        } else {
            lemma_repeat_count_without(rest, seen.insert(ids[0]), other);
            assert(seen.insert(ids[0]).insert(other) =~= seen.insert(other).insert(ids[0]));
        }
    }
}

proof fn lemma_renumbered(ids: Seq<usize>, seen: Set<usize>, next: usize)
    requires
        repeat_count(ids, seen) > 0 ==> {
            &&& next + repeat_count(ids, seen) <= usize::MAX + 1
            &&& forall|i: int| 0 <= i < ids.len() ==> #[trigger] ids[i] < next
            &&& forall|id: usize| #[trigger] seen.contains(id) ==> id < next
        },
    ensures
        renumbered(ids, seen, next).len() == ids.len(),
        renumbered(ids, seen, next).no_duplicates(),
        forall|i: int|
            0 <= i < ids.len() ==> !seen.contains(#[trigger] renumbered(ids, seen, next)[i]),
        forall|i: int|
            0 <= i < ids.len() ==> if is_repeat(ids, seen, i) {
                #[trigger] renumbered(ids, seen, next)[i] >= next
            } else {
                renumbered(ids, seen, next)[i] == ids[i]
            },
    decreases ids.len(),
{
    if ids.len() > 0 {
        let rest = ids.drop_first();
        let again = seen.contains(ids[0]);
        let first = if again {
            next
        } else {
            ids[0]
        };
        let after = if again {
            next_number(next)
        } else {
            next
        };
        assert(forall|i: int| 0 <= i < rest.len() ==> (#[trigger] rest[i]) == ids[i + 1]);
        if again {
            lemma_repeat_count_without(rest, seen, next);
        }
        lemma_renumbered(rest, seen.insert(first), after);
        let tail = renumbered(rest, seen.insert(first), after);
        let whole = renumbered(ids, seen, next);
        assert(whole =~= seq![first] + tail);
        assert forall|i: int| 0 <= i < ids.len() implies !seen.contains(#[trigger] whole[i]) by {
            if i > 0 {
                assert(whole[i] == tail[i - 1]);
            }
        }
        assert forall|i: int, j: int| 0 <= i < whole.len() && 0 <= j < whole.len() && i
            != j implies whole[i] != whole[j] by {
            if i == 0 {
                assert(whole[j] == tail[j - 1]);
            } else if j == 0 {
                assert(whole[i] == tail[i - 1]);
            } else {
                assert(whole[i] == tail[i - 1]);
                assert(whole[j] == tail[j - 1]);
            }
        }
        assert forall|i: int| 0 <= i < ids.len() implies if is_repeat(ids, seen, i) {
            #[trigger] whole[i] >= next
        } else {
            whole[i] == ids[i]
        } by {
            if i > 0 {
                assert(whole[i] == tail[i - 1]);
                assert(rest[i - 1] == ids[i]);
                if is_repeat(ids, seen, i) && !seen.insert(first).contains(ids[i]) {
                    let j = choose|j: int| 0 <= j < i && #[trigger] ids[j] == ids[i];
                    assert(j > 0);
                    assert(rest[j - 1] == ids[j]);
                }
                if is_repeat(rest, seen.insert(first), i - 1) {
                    if exists|j: int| 0 <= j < i - 1 && #[trigger] rest[j] == rest[i - 1] {
                        let j = choose|j: int| 0 <= j < i - 1 && #[trigger] rest[j] == rest[i - 1];
                        assert(ids[j + 1] == ids[i]);
                    } else {
                        assert(seen.insert(first).contains(ids[i]));
                    }
                }
                assert(is_repeat(ids, seen, i) == is_repeat(rest, seen.insert(first), i - 1));
            }
        }
    }
}

/// The first of some comments in the order of their ids.
pub open spec fn id_le(comments: Seq<StackReviewComment>) -> spec_fn(int, int) -> bool {
    |a: int, b: int| comments[a].id <= comments[b].id
}

/// `sorted` holds `comments` in the order of their ids, those with one id as they stood.
pub open spec fn sorted_by_id(
    comments: Seq<StackReviewComment>,
    sorted: Seq<StackReviewComment>,
) -> bool {
    exists|order: Seq<int>| #[trigger]
        is_ranking(order, comments.len(), id_le(comments)) && sorted == Seq::new(
            comments.len(),
            |i: int| comments[order[i]],
        )
}

/// The comments that are not on `path` or whose id was not rendered.
pub open spec fn unrendered(
    comments: Seq<StackReviewComment>,
    path: Seq<char>,
    rendered: Set<usize>,
) -> Seq<StackReviewComment>
    decreases comments.len(),
{
    if comments.len() == 0 {
        Seq::empty()
    } else {
        let before = unrendered(comments.drop_last(), path, rendered);
        let last = comments.last();
        if last.path@ != path || !rendered.contains(last.id) {
            before.push(last)
        } else {
            before
        }
    }
}

/// Whether a file was reviewed with these contents.
pub open spec fn reviewed_with(
    fingerprints: Map<Seq<char>, Seq<char>>,
    path: Seq<char>,
    fingerprint: Seq<char>,
) -> bool {
    fingerprints.contains_key(path) && fingerprints[path] == fingerprint
}

/// The fingerprints after a file was marked as reviewed with these contents, or as not reviewed.
pub open spec fn marked(
    fingerprints: Map<Seq<char>, Seq<char>>,
    path: Seq<char>,
    fingerprint: Seq<char>,
    reviewed: bool,
) -> Map<Seq<char>, Seq<char>> {
    if reviewed {
        fingerprints.insert(path, fingerprint)
    } else {
        fingerprints.remove(path)
    }
}

impl StackReviewState {
    /// The collections are in order, without repetition.
    pub open spec fn wf(&self) -> bool {
        self.reviewed_files.wf() && self.reviewed_file_fingerprints.wf()
    }

    /// The fingerprint that was reviewed, by path.
    pub open spec fn fingerprints(&self) -> Map<Seq<char>, Seq<char>> {
        self.reviewed_file_fingerprints@.map_values(|fingerprint: String| fingerprint@)
    }

    /// A state in which nothing was done yet.
    pub fn new(base_oid: &str, head_oid: &str) -> (state: Self)
        ensures
            state.wf(),
            state.schema_version == REVIEW_STATE_SCHEMA_VERSION,
            state.base_oid@ == base_oid@,
            state.head_oid@ == head_oid@,
            state.reviewed_files@ == Map::<Seq<char>, ()>::empty(),
            state.fingerprints() == Map::<Seq<char>, Seq<char>>::empty(),
            state.comments@ == Seq::<StackReviewComment>::empty(),
    {
        let state = StackReviewState {
            schema_version: REVIEW_STATE_SCHEMA_VERSION,
            base_oid: base_oid.to_owned(),
            head_oid: head_oid.to_owned(),
            reviewed_files: TextMap::new(),
            reviewed_file_fingerprints: TextMap::new(),
            comments: Vec::new(),
        };
        assert(state.fingerprints() =~= Map::<Seq<char>, Seq<char>>::empty());
        state
    }

    /// A state as it was read from a file: its schema is checked, and a comment whose id an
    /// earlier one has gets a new one.
    pub fn upgraded(self) -> (state: Result<Self, UnsupportedReviewState>)
        ensures
            match state {
                Ok(state) => {
                    &&& self.schema_version == REVIEW_STATE_SCHEMA_VERSION
                    &&& state.schema_version == self.schema_version
                    &&& state.base_oid == self.base_oid
                    &&& state.head_oid == self.head_oid
                    &&& state.reviewed_files == self.reviewed_files
                    &&& state.reviewed_file_fingerprints == self.reviewed_file_fingerprints
                    &&& state.comments@ == with_ids(
                        self.comments@,
                        deduplicated(comment_ids(self.comments@)),
                    )
                },
                Err(error) => self.schema_version != REVIEW_STATE_SCHEMA_VERSION && error == (
                UnsupportedReviewState { schema_version: self.schema_version }),
            },
    {
        if self.schema_version != REVIEW_STATE_SCHEMA_VERSION {
            return Err(UnsupportedReviewState { schema_version: self.schema_version });
        }
        let ghost ids = comment_ids(self.comments@);
        let mut highest: usize = 0;
        let mut i: usize = 0;
        assert(ids.take(0) =~= Seq::<usize>::empty());
        while i < self.comments.len()
            invariant
                i <= self.comments@.len(),
                ids == comment_ids(self.comments@),
                highest == greatest(ids.take(i as int)),
            decreases self.comments.len() - i,
        {
            assert(ids.take(i + 1).drop_last() =~= ids.take(i as int));
            let id: usize = self.comments[i].id;
            assert(ids[i as int] == id);
            if highest < id {
                highest = id;
            }
            i += 1;
        }
        assert(ids.take(i as int) =~= ids);
        let mut next: usize = number_after(highest);
        let mut comments: Vec<StackReviewComment> = Vec::new();
        let mut given: Vec<usize> = Vec::new();
        let ghost mut seen: Set<usize> = Set::empty();
        let ghost whole = deduplicated(ids);
        let mut i: usize = 0;
        assert(ids.skip(0) =~= ids);
        assert(given@ + renumbered(ids.skip(0), seen, next) =~= whole);
        proof {
            lemma_renumbered_len(ids, Set::empty(), next);
        }
        while i < self.comments.len()
            invariant
                i <= self.comments@.len(),
                ids == comment_ids(self.comments@),
                given@.len() == i,
                comments@.len() == i,
                forall|id: usize| #[trigger] seen.contains(id) == given@.contains(id),
                whole == given@ + renumbered(ids.skip(i as int), seen, next),
                whole.len() == ids.len(),
                forall|k: int|
                    0 <= k < i ==> #[trigger] comments@[k] == with_id(self.comments@[k], whole[k]),
            decreases self.comments.len() - i,
        {
            let mut comment = self.comments[i].copied();
            let taken = holds(&given, comment.id);
            let ghost rest = ids.skip(i as int);
            assert(rest[0] == comment.id);
            assert(rest.drop_first() =~= ids.skip(i + 1));
            let ghost before = given@;
            let id: usize = if taken {
                next
            } else {
                comment.id
            };
            assert(seen.contains(comment.id) == taken);
            let after: usize = if taken {
                number_after(next)
            } else {
                next
            };
            proof {
                let tail = renumbered(ids.skip(i + 1), seen.insert(id), after);
                assert(renumbered(rest, seen, next) =~= seq![id] + tail);
                assert(whole =~= before.push(id) + tail);
                assert forall|other: usize| #[trigger]
                    seen.insert(id).contains(other) == before.push(id).contains(other) by {
                    if before.contains(other) {
                        let k = choose|k: int| 0 <= k < before.len() && before[k] == other;
                        assert(before.push(id)[k] == other);
                    }
                    if other == id {
                        assert(before.push(id)[before.len() as int] == other);
                    }
                    if before.push(id).contains(other) {
                        let k = choose|k: int|
                            0 <= k < before.push(id).len() && before.push(id)[k] == other;
                        if k < before.len() {
                            assert(before[k] == other);
                        }
                    }
                }
                seen = seen.insert(id);
            }
            given.push(id);
            next = after;
            comment.id = id;
            comments.push(comment);
            i += 1;
        }
        assert(comments@ =~= with_ids(self.comments@, whole));
        Ok(
            StackReviewState {
                schema_version: self.schema_version,
                base_oid: self.base_oid,
                head_oid: self.head_oid,
                reviewed_files: self.reviewed_files,
                reviewed_file_fingerprints: self.reviewed_file_fingerprints,
                comments,
            },
        )
    }

    /// Whether the state is about the snapshot between `base_oid` and `head_oid`.
    pub fn matches_snapshot(&self, base_oid: &str, head_oid: &str) -> (matches: bool)
        ensures
            matches == (self.base_oid@ == base_oid@ && self.head_oid@ == head_oid@),
    {
        same_text(self.base_oid.as_str(), base_oid) && same_text(self.head_oid.as_str(), head_oid)
    }

    /// Whether the file was reviewed with these contents.
    pub fn is_file_reviewed(&self, path: &str, fingerprint: &str) -> (reviewed: bool)
        requires
            self.wf(),
        ensures
            reviewed == reviewed_with(self.fingerprints(), path@, fingerprint@),
    {
        match self.reviewed_file_fingerprints.get(path) {
            Some(known) => same_text(known.as_str(), fingerprint),
            None => false,
        }
    }

    /// Notes that the file was reviewed with these contents, or that it was not.
    pub fn set_file_reviewed(&mut self, path: &str, fingerprint: &str, reviewed: bool)
        requires
            old(self).wf(),
        ensures
            final(self).wf(),
            final(self).fingerprints() == marked(
                old(self).fingerprints(),
                path@,
                fingerprint@,
                reviewed,
            ),
            final(self).schema_version == old(self).schema_version,
            final(self).base_oid == old(self).base_oid,
            final(self).head_oid == old(self).head_oid,
            final(self).reviewed_files == old(self).reviewed_files,
            final(self).comments == old(self).comments,
    {
        if reviewed {
            self.reviewed_file_fingerprints.insert(path.to_owned(), fingerprint.to_owned());
            assert(self.fingerprints() =~= old(self).fingerprints().insert(path@, fingerprint@));
        } else {
            self.reviewed_file_fingerprints.remove(path);
            assert(self.fingerprints() =~= old(self).fingerprints().remove(path@));
        }
    }

    /// How many files were reviewed.
    pub fn reviewed_file_count(&self) -> (count: usize)
        requires
            self.wf(),
        ensures
            count == self.fingerprints().dom().len(),
    {
        assert(self.fingerprints().dom() =~= self.reviewed_file_fingerprints@.dom());
        self.reviewed_file_fingerprints.len()
    }

    /// The comments.
    pub fn comments(&self) -> (comments: &[StackReviewComment])
        ensures
            comments@ == self.comments@,
    {
        self.comments.as_slice()
    }

    /// Takes the comments out of the state.
    pub fn take_comments(&mut self) -> (comments: Vec<StackReviewComment>)
        ensures
            comments@ == old(self).comments@,
            final(self).comments@ == Seq::<StackReviewComment>::empty(),
            final(self).schema_version == old(self).schema_version,
            final(self).base_oid == old(self).base_oid,
            final(self).head_oid == old(self).head_oid,
            final(self).reviewed_files == old(self).reviewed_files,
            final(self).reviewed_file_fingerprints == old(self).reviewed_file_fingerprints,
    {
        let mut comments: Vec<StackReviewComment> = Vec::new();
        std::mem::swap(&mut self.comments, &mut comments);
        comments
    }

    /// Puts other comments in the place of those in the state.
    pub fn set_comments(&mut self, comments: Vec<StackReviewComment>)
        ensures
            final(self).comments == comments,
            final(self).schema_version == old(self).schema_version,
            final(self).base_oid == old(self).base_oid,
            final(self).head_oid == old(self).head_oid,
            final(self).reviewed_files == old(self).reviewed_files,
            final(self).reviewed_file_fingerprints == old(self).reviewed_file_fingerprints,
    {
        self.comments = comments;
    }

    /// Puts `comments` in the place of those on `path` that were rendered; those that were not
    /// rendered stay.
    pub fn reconcile_rendered_comments_for_path(
        &mut self,
        path: &str,
        rendered_comment_ids: &HashSet<usize>,
        comments: Vec<StackReviewComment>,
    )
        ensures
            sorted_by_id(
                unrendered(old(self).comments@, path@, rendered_comment_ids@) + comments@,
                final(self).comments@,
            ),
            final(self).schema_version == old(self).schema_version,
            final(self).base_oid == old(self).base_oid,
            final(self).head_oid == old(self).head_oid,
            final(self).reviewed_files == old(self).reviewed_files,
            final(self).reviewed_file_fingerprints == old(self).reviewed_file_fingerprints,
    {
        broadcast use vstd::std_specs::hash::group_hash_axioms;

        let ghost before = self.comments@;
        let mut all: Vec<StackReviewComment> = Vec::new();
        let mut i: usize = 0;
        assert(before.take(0) =~= Seq::<StackReviewComment>::empty());
        while i < self.comments.len()
            invariant
                i <= self.comments@.len(),
                self.comments@ == before,
                all@ == unrendered(before.take(i as int), path@, rendered_comment_ids@),
            decreases self.comments.len() - i,
        {
            assert(before.take(i + 1).drop_last() =~= before.take(i as int));
            let comment = &self.comments[i];
            if !same_text(comment.path.as_str(), path) || !rendered_comment_ids.contains(
                &comment.id,
            ) {
                all.push(comment.copied());
            }
            i += 1;
        }
        assert(before.take(i as int) =~= before);
        let ghost kept = all@;
        let mut j: usize = 0;
        assert(comments@.take(0) =~= Seq::<StackReviewComment>::empty());
        assert(all@ =~= kept + comments@.take(0));
        while j < comments.len()
            invariant
                j <= comments@.len(),
                all@ == kept + comments@.take(j as int),
            decreases comments.len() - j,
        {
            all.push(comments[j].copied());
            assert(comments@.take(j + 1) =~= comments@.take(j as int).push(comments@[j as int]));
            assert(all@ =~= kept + comments@.take(j + 1));
            j += 1;
        }
        assert(comments@.take(j as int) =~= comments@);
        self.comments = sort_by_id(&all);
    }
}

/// Whether `numbers` holds `n`.
fn holds(numbers: &Vec<usize>, n: usize) -> (held: bool)
    ensures
        held == numbers@.contains(n),
{
    let mut i: usize = 0;
    while i < numbers.len()
        invariant
            i <= numbers@.len(),
            forall|k: int| 0 <= k < i ==> numbers@[k] != n,
        decreases numbers.len() - i,
    {
        if numbers[i] == n {
            return true;
        }
        i += 1;
    }
    false
}

/// The comments in the order of their ids.
fn sort_by_id(comments: &Vec<StackReviewComment>) -> (sorted: Vec<StackReviewComment>)
    ensures
        sorted_by_id(comments@, sorted@),
{
    let ghost le = id_le(comments@);
    let not_after = |a: usize, b: usize| -> (answer: bool)
        requires
            a < comments@.len(),
            b < comments@.len(),
        ensures
            answer == (comments@[a as int].id <= comments@[b as int].id),
        { comments[a].id <= comments[b].id };
    let len: usize = comments.len();
    let order = rank(len, not_after, Ghost(le));
    let ghost places = positions(order@);
    let mut sorted: Vec<StackReviewComment> = Vec::new();
    let mut i: usize = 0;
    while i < order.len()
        invariant
            i <= order@.len(),
            sorted@.len() == i,
            order@.len() == comments@.len(),
            places == positions(order@),
            is_ranking(places, comments@.len(), le),
            forall|k: int| 0 <= k < i ==> #[trigger] sorted@[k] == comments@[places[k]],
        decreases order.len() - i,
    {
        assert(places[i as int] == order@[i as int] as int);
        sorted.push(comments[order[i]].copied());
        i += 1;
    }
    assert(sorted@ =~= Seq::new(comments@.len(), |i: int| comments@[places[i]]));
    sorted
}

/// A file that was reviewed counts as reviewed with the contents it had then and with no others;
/// taken back, it does not count as reviewed at all. Other files are as they were.
pub proof fn reviewing_is_for_these_contents(
    fingerprints: Map<Seq<char>, Seq<char>>,
    path: Seq<char>,
    fingerprint: Seq<char>,
    reviewed: bool,
    other_path: Seq<char>,
    other: Seq<char>,
)
    ensures
        reviewed_with(marked(fingerprints, path, fingerprint, reviewed), path, other) == (reviewed
            && other == fingerprint),
        other_path != path ==> reviewed_with(
            marked(fingerprints, path, fingerprint, reviewed),
            other_path,
            other,
        ) == reviewed_with(fingerprints, other_path, other),
{
}

/// A call that marks a file as reviewed with some contents, or as not reviewed.
pub struct ReviewMark {
    pub path: Seq<char>,
    pub fingerprint: Seq<char>,
    pub reviewed: bool,
}

/// The fingerprints after some files were marked, where none was before.
pub open spec fn marked_in_turn(marks: Seq<ReviewMark>) -> Map<Seq<char>, Seq<char>>
    decreases marks.len(),
{
    if marks.len() == 0 {
        Map::empty()
    } else {
        let mark = marks.last();
        marked(
            marked_in_turn(marks.drop_last()),
            mark.path,
            mark.fingerprint,
            mark.reviewed,
        )
    }
}

/// The last mark that a file got, if it got any.
pub open spec fn last_mark(marks: Seq<ReviewMark>, path: Seq<char>) -> Option<ReviewMark>
    decreases marks.len(),
{
    if marks.len() == 0 {
        None
    } else if marks.last().path == path {
        Some(marks.last())
    } else {
        last_mark(marks.drop_last(), path)
    }
}

proof fn lemma_marked_in_turn(marks: Seq<ReviewMark>, path: Seq<char>)
    ensures
        marked_in_turn(marks).contains_key(path) == (last_mark(marks, path) matches Some(mark)
            && mark.reviewed),
    decreases marks.len(),
{
    if marks.len() > 0 {
        lemma_marked_in_turn(marks.drop_last(), path);
    }
}

/// As many files count as reviewed as there are paths whose last mark says so. A path that was
/// marked again, be it with other contents, counts once.
pub proof fn reviewed_files_are_those_marked_last(
    marks: Seq<ReviewMark>,
    reviewed: Set<Seq<char>>,
)
    requires
        forall|path: Seq<char>| #[trigger]
            reviewed.contains(path) == (last_mark(marks, path) matches Some(mark)
                && mark.reviewed),
    ensures
        marked_in_turn(marks).dom() == reviewed,
        marked_in_turn(marks).dom().len() == reviewed.len(),
{
    assert forall|path: Seq<char>| #[trigger]
        marked_in_turn(marks).dom().contains(path) == reviewed.contains(path) by {
        lemma_marked_in_turn(marks, path);
    }
    assert(marked_in_turn(marks).dom() =~= reviewed);
}

proof fn lemma_unrendered_holds(
    comments: Seq<StackReviewComment>,
    path: Seq<char>,
    rendered: Set<usize>,
    comment: StackReviewComment,
)
    ensures
        unrendered(comments, path, rendered).contains(comment) == (comments.contains(comment) && (
        comment.path@ != path || !rendered.contains(comment.id))),
    decreases comments.len(),
{
    if comments.len() > 0 {
        let rest = comments.drop_last();
        let last = comments.last();
        lemma_unrendered_holds(rest, path, rendered, comment);
        assert(comments =~= rest.push(last));
        vstd::seq_lib::lemma_seq_contains_after_push(rest, last, comment);
        let before = unrendered(rest, path, rendered);
        vstd::seq_lib::lemma_seq_contains_after_push(before, last, comment);
    }
}

/// After what was rendered on a path is put in the place of what was there, a comment is there
/// exactly where it is new or was there and was not rendered on that path; and the comments come
/// in the order of their ids.
pub proof fn reconciling_keeps_what_was_not_rendered(
    before: Seq<StackReviewComment>,
    path: Seq<char>,
    rendered: Set<usize>,
    comments: Seq<StackReviewComment>,
    after: Seq<StackReviewComment>,
    comment: StackReviewComment,
)
    requires
        sorted_by_id(unrendered(before, path, rendered) + comments, after),
    ensures
        after.contains(comment) == (comments.contains(comment) || (before.contains(comment) && (
        comment.path@ != path || !rendered.contains(comment.id)))),
        after.len() == unrendered(before, path, rendered).len() + comments.len(),
        forall|i: int, j: int|
            #![trigger after[i], after[j]]
            0 <= i < j < after.len() ==> after[i].id <= after[j].id,
{
    let kept = unrendered(before, path, rendered);
    let all = kept + comments;
    let order = choose|order: Seq<int>| #[trigger]
        is_ranking(order, all.len(), id_le(all)) && after == Seq::new(
            all.len(),
            |i: int| all[order[i]],
        );
    lemma_unrendered_holds(before, path, rendered, comment);
    if after.contains(comment) {
        let i = choose|i: int| 0 <= i < after.len() && after[i] == comment;
        let k = order[i];
        assert(all[k] == comment);
        if k < kept.len() {
            assert(kept[k] == comment);
        } else {
            assert(comments[k - kept.len()] == comment);
        }
    }
    if kept.contains(comment) || comments.contains(comment) {
        let k = if kept.contains(comment) {
            choose|k: int| 0 <= k < kept.len() && kept[k] == comment
        } else {
            kept.len() + choose|k: int| 0 <= k < comments.len() && comments[k] == comment
        };
        assert(all[k] == comment);
        lemma_ranking_covers(order, all.len(), id_le(all), k);
        let i = choose|i: int| 0 <= i < order.len() && order[i] == k;
        assert(after[i] == comment);
    }
    assert forall|i: int, j: int|
        #![trigger after[i], after[j]]
        0 <= i < j < after.len() implies after[i].id <= after[j].id by {
        assert(sorts_before(id_le(all), order[i], order[j]));
    }
}

} // verus!
