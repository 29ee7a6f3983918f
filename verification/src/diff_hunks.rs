//! Hunks of a diff as they are shown, and as they are found in the buffers they belong to.

use crate::review_comment::AnchorRange;
use vstd::prelude::*;

verus! {

/// A position in a buffer that follows its text.
#[derive(Clone, Copy, Debug, PartialEq, Eq, Structural)]
pub enum TextAnchor {
    /// The beginning, whatever is put there.
    Min,
    /// The end, whatever is put there.
    Max,
    At(u64),
}

/// A range of a buffer.
#[derive(Clone, Copy, Debug, PartialEq, Eq, Structural)]
pub struct TextRange {
    pub start: TextAnchor,
    pub end: TextAnchor,
}

/// A range of bytes of the text that a buffer is compared with.
#[derive(Clone, Copy, Debug, PartialEq, Eq, Structural)]
pub struct ByteRange {
    pub start: usize,
    pub end: usize,
}

/// How a hunk differs.
#[derive(Clone, Copy, Debug, PartialEq, Eq, Structural)]
pub enum DiffHunkStatusKind {
    Added,
    Modified,
    Deleted,
}

/// How a hunk differs, and how far it is staged.
#[derive(Clone, Copy, Debug, PartialEq, Eq, Structural)]
pub struct DiffHunkStatus {
    pub kind: DiffHunkStatusKind,
    /// Whether some of it is not staged.
    pub has_secondary_hunk: bool,
    /// Whether it is being staged or unstaged.
    pub is_pending: bool,
}

/// A hunk as an editor shows it.
#[derive(Clone, Copy, Debug, PartialEq, Eq, Structural)]
pub struct MultiBufferDiffHunk {
    pub buffer_id: u64,
    pub start_row: u32,
    pub end_row: u32,
    /// Its place in all that the editor shows.
    pub multi_buffer_range: AnchorRange,
    /// Its place in the buffer that it is of.
    pub buffer_range: TextRange,
    pub diff_base_byte_range: ByteRange,
    pub status: DiffHunkStatus,
    /// Where the excerpt that it is in ends, if that can be told, by its place among all ends.
    pub excerpt_end: Option<u64>,
}

/// A hunk of the diff of one buffer.
#[derive(Clone, Copy, Debug, PartialEq, Eq, Structural)]
pub struct BufferDiffHunk {
    pub buffer_range: TextRange,
    pub diff_base_byte_range: ByteRange,
    pub has_secondary_hunk: bool,
    pub is_pending: bool,
}

/// The diff of a buffer, as far as staging goes. What is shown may be another buffer, such as
/// the text that the buffer is compared with.
#[derive(Clone, Debug)]
pub struct BufferDiffState {
    pub shown_buffer_id: u64,
    pub diff: u64,
    pub main_buffer_id: u64,
    pub buffer: Option<u64>,
    pub is_stageable: bool,
    /// The diff of what is not staged, where it comes with one.
    pub secondary_diff: Option<u64>,
    pub hunks: Vec<BufferDiffHunk>,
}

/// A hunk as it is found in its buffer.
#[derive(Clone, Copy, Debug, PartialEq, Eq, Structural)]
pub struct ResolvedDiffHunk {
    pub buffer_range: TextRange,
    pub diff_base_byte_range: ByteRange,
    pub status: DiffHunkStatus,
}

/// Hunks of one buffer.
#[derive(Clone, Debug)]
pub struct ResolvedDiffHunks {
    pub diff: u64,
    pub buffer_id: u64,
    pub buffer: Option<u64>,
    pub is_stageable: bool,
    pub secondary_diff: Option<u64>,
    pub hunks: Vec<ResolvedDiffHunk>,
}

/// Hunks of one buffer, as a value.
pub struct ResolvedView {
    pub diff: u64,
    pub buffer_id: u64,
    pub buffer: Option<u64>,
    pub is_stageable: bool,
    pub secondary_diff: Option<u64>,
    pub hunks: Seq<ResolvedDiffHunk>,
}

impl View for ResolvedDiffHunks {
    type V = ResolvedView;

    open spec fn view(&self) -> ResolvedView {
        ResolvedView {
            diff: self.diff,
            buffer_id: self.buffer_id,
            buffer: self.buffer,
            is_stageable: self.is_stageable,
            secondary_diff: self.secondary_diff,
            hunks: self.hunks@,
        }
    }
}

impl ResolvedDiffHunks {
    /// A copy of the hunks.
    pub fn copied(&self) -> (copy: Self)
        ensures
            copy@ == self@,
    {
        let mut hunks: Vec<ResolvedDiffHunk> = Vec::new();
        let mut i: usize = 0;
        while i < self.hunks.len()
            invariant
                i <= self.hunks@.len(),
                hunks@ == self.hunks@.take(i as int),
            decreases self.hunks.len() - i,
        {
            hunks.push(self.hunks[i]);
            assert(self.hunks@.take(i + 1) =~= self.hunks@.take(i as int).push(
                self.hunks@[i as int],
            ));
            i += 1;
        }
        assert(self.hunks@.take(i as int) =~= self.hunks@);
        ResolvedDiffHunks {
            diff: self.diff,
            buffer_id: self.buffer_id,
            buffer: self.buffer,
            is_stageable: self.is_stageable,
            secondary_diff: self.secondary_diff,
            hunks,
        }
    }
}

/// Hunks of buffers, as values.
pub open spec fn resolved_views(groups: Seq<ResolvedDiffHunks>) -> Seq<ResolvedView> {
    groups.map_values(|group: ResolvedDiffHunks| group@)
}

/// How a hunk of a buffer's diff differs: one without text of its own is deleted, and one
/// without text that it is compared with is added.
pub open spec fn kind_of(hunk: BufferDiffHunk) -> DiffHunkStatusKind {
    if hunk.buffer_range.start == hunk.buffer_range.end {
        DiffHunkStatusKind::Deleted
    } else if hunk.diff_base_byte_range.start >= hunk.diff_base_byte_range.end {
        DiffHunkStatusKind::Added
    } else {
        DiffHunkStatusKind::Modified
    }
}

/// The first hunk at or after `from` that differs from the same bytes.
pub open spec fn hunk_with_base(
    hunks: Seq<BufferDiffHunk>,
    base: ByteRange,
    from: int,
) -> Option<int>
    decreases hunks.len() - from,
{
    if from < 0 || from >= hunks.len() {
        None
    } else if hunks[from].diff_base_byte_range == base {
        Some(from)
    } else {
        hunk_with_base(hunks, base, from + 1)
    }
}

/// A hunk as it is found in its buffer: itself, where that buffer is shown, and else the one
/// that differs from the same bytes, if there is one.
pub open spec fn resolved_hunk(hunk: MultiBufferDiffHunk, diff: BufferDiffState) -> Option<
    ResolvedDiffHunk,
> {
    if hunk.buffer_id == diff.main_buffer_id {
        Some(
            ResolvedDiffHunk {
                buffer_range: hunk.buffer_range,
                diff_base_byte_range: hunk.diff_base_byte_range,
                status: hunk.status,
            },
        )
    } else {
        match hunk_with_base(diff.hunks@, hunk.diff_base_byte_range, 0) {
            Some(at) => Some(
                ResolvedDiffHunk {
                    buffer_range: diff.hunks@[at].buffer_range,
                    diff_base_byte_range: diff.hunks@[at].diff_base_byte_range,
                    status: DiffHunkStatus {
                        kind: kind_of(diff.hunks@[at]),
                        has_secondary_hunk: diff.hunks@[at].has_secondary_hunk,
                        is_pending: diff.hunks@[at].is_pending,
                    },
                },
            ),
            None => None,
        }
    }
}

/// The hunks that are found in their buffer.
pub open spec fn resolved_run(hunks: Seq<MultiBufferDiffHunk>, diff: BufferDiffState) -> Seq<
    ResolvedDiffHunk,
>
    decreases hunks.len(),
{
    if hunks.len() == 0 {
        Seq::empty()
    } else {
        let before = resolved_run(hunks.drop_last(), diff);
        match resolved_hunk(hunks.last(), diff) {
            Some(hunk) => before.push(hunk),
            None => before,
        }
    }
}

/// The first diff at or after `from` of what is shown of a buffer.
pub open spec fn diff_from(diffs: Seq<BufferDiffState>, buffer_id: u64, from: int) -> Option<int>
    decreases diffs.len() - from,
{
    if from < 0 || from >= diffs.len() {
        None
    } else if diffs[from].shown_buffer_id == buffer_id {
        Some(from)
    } else {
        diff_from(diffs, buffer_id, from + 1)
    }
}

/// Where the hunks of one buffer end that begin before `at`.
pub open spec fn run_end(hunks: Seq<MultiBufferDiffHunk>, buffer_id: u64, at: int) -> int
    decreases hunks.len() - at,
{
    if at < 0 || at >= hunks.len() || hunks[at].buffer_id != buffer_id {
        at
    } else {
        run_end(hunks, buffer_id, at + 1)
    }
}

/// The hunks of one buffer, if they are found there.
pub open spec fn resolved_group(
    hunks: Seq<MultiBufferDiffHunk>,
    buffer_id: u64,
    diffs: Seq<BufferDiffState>,
) -> Seq<ResolvedView> {
    match diff_from(diffs, buffer_id, 0) {
        Some(at) => {
            let found = resolved_run(hunks, diffs[at]);
            if found.len() > 0 {
                seq![
                    ResolvedView {
                        diff: diffs[at].diff,
                        buffer_id: diffs[at].main_buffer_id,
                        buffer: diffs[at].buffer,
                        is_stageable: diffs[at].is_stageable,
                        secondary_diff: diffs[at].secondary_diff,
                        hunks: found,
                    },
                ]
            } else {
                Seq::empty()
            }
        },
        None => Seq::empty(),
    }
}

/// The hunks from `from` on, grouped by buffers, as far as they are found there.
pub open spec fn resolved_from(
    hunks: Seq<MultiBufferDiffHunk>,
    diffs: Seq<BufferDiffState>,
    from: int,
) -> Seq<ResolvedView>
    decreases hunks.len() - from,
    via resolved_from_decreases
{
    if from < 0 || from >= hunks.len() {
        Seq::empty()
    } else {
        let buffer_id = hunks[from].buffer_id;
        let end = run_end(hunks, buffer_id, from + 1);
        resolved_group(hunks.subrange(from, end), buffer_id, diffs) + resolved_from(
            hunks,
            diffs,
            end,
        )
    }
}

#[via_fn]
proof fn resolved_from_decreases(
    hunks: Seq<MultiBufferDiffHunk>,
    diffs: Seq<BufferDiffState>,
    from: int,
) {
    if !(from < 0 || from >= hunks.len()) {
        lemma_run_end(hunks, hunks[from].buffer_id, from + 1);
    }
}

proof fn lemma_run_end(hunks: Seq<MultiBufferDiffHunk>, buffer_id: u64, at: int)
    ensures
        run_end(hunks, buffer_id, at) >= at,
        0 <= at <= hunks.len() ==> run_end(hunks, buffer_id, at) <= hunks.len(),
    decreases hunks.len() - at,
{
    if !(at < 0 || at >= hunks.len() || hunks[at].buffer_id != buffer_id) {
        lemma_run_end(hunks, buffer_id, at + 1);
    }
}

/// The hunks, grouped by buffers, as far as they are found there.
pub open spec fn resolved_hunks(
    hunks: Seq<MultiBufferDiffHunk>,
    diffs: Seq<BufferDiffState>,
) -> Seq<ResolvedView> {
    resolved_from(hunks, diffs, 0)
}

fn find_hunk_with_base(hunks: &Vec<BufferDiffHunk>, base: ByteRange) -> (at: Option<usize>)
    ensures
        match at {
            Some(at) => at < hunks@.len() && hunk_with_base(hunks@, base, 0) == Some(at as int),
            None => hunk_with_base(hunks@, base, 0) is None,
        },
{
    let mut k: usize = 0;
    while k < hunks.len()
        invariant
            k <= hunks@.len(),
            hunk_with_base(hunks@, base, 0) == hunk_with_base(hunks@, base, k as int),
        decreases hunks.len() - k,
    {
        if hunks[k].diff_base_byte_range == base {
            return Some(k);
        }
        k += 1;
    }
    None
}

fn find_diff(diffs: &Vec<BufferDiffState>, buffer_id: u64) -> (at: Option<usize>)
    ensures
        match at {
            Some(at) => at < diffs@.len() && diff_from(diffs@, buffer_id, 0) == Some(at as int),
            None => diff_from(diffs@, buffer_id, 0) is None,
        },
{
    let mut k: usize = 0;
    while k < diffs.len()
        invariant
            k <= diffs@.len(),
            diff_from(diffs@, buffer_id, 0) == diff_from(diffs@, buffer_id, k as int),
        decreases diffs.len() - k,
    {
        if diffs[k].shown_buffer_id == buffer_id {
            return Some(k);
        }
        k += 1;
    }
    None
}

fn resolve_hunk(hunk: &MultiBufferDiffHunk, diff: &BufferDiffState) -> (found: Option<
    ResolvedDiffHunk,
>)
    ensures
        found == resolved_hunk(*hunk, *diff),
{
    if hunk.buffer_id == diff.main_buffer_id {
        Some(
            ResolvedDiffHunk {
                buffer_range: hunk.buffer_range,
                diff_base_byte_range: hunk.diff_base_byte_range,
                status: hunk.status,
            },
        )
    } else {
        match find_hunk_with_base(&diff.hunks, hunk.diff_base_byte_range) {
            Some(at) => {
                let found = diff.hunks[at];
                let kind = if found.buffer_range.start == found.buffer_range.end {
                    DiffHunkStatusKind::Deleted
                } else if found.diff_base_byte_range.start >= found.diff_base_byte_range.end {
                    DiffHunkStatusKind::Added
                } else {
                    DiffHunkStatusKind::Modified
                };
                Some(
                    ResolvedDiffHunk {
                        buffer_range: found.buffer_range,
                        diff_base_byte_range: found.diff_base_byte_range,
                        status: DiffHunkStatus {
                            kind,
                            has_secondary_hunk: found.has_secondary_hunk,
                            is_pending: found.is_pending,
                        },
                    },
                )
            },
            None => None,
        }
    }
}

/// The hunks, grouped by buffers, as far as they are found there.
pub fn resolve_diff_hunks(hunks: &Vec<MultiBufferDiffHunk>, diffs: &Vec<BufferDiffState>) -> (groups:
    Vec<ResolvedDiffHunks>)
    ensures
        resolved_views(groups@) == resolved_hunks(hunks@, diffs@),
{
    let mut groups: Vec<ResolvedDiffHunks> = Vec::new();
    let mut from: usize = 0;
    assert(resolved_views(groups@) + resolved_from(hunks@, diffs@, 0) =~= resolved_from(
        hunks@,
        diffs@,
        0,
    ));
    while from < hunks.len()
        invariant
            from <= hunks@.len(),
            resolved_hunks(hunks@, diffs@) == resolved_views(groups@) + resolved_from(
                hunks@,
                diffs@,
                from as int,
            ),
        decreases hunks.len() - from,
    {
        let buffer_id: u64 = hunks[from].buffer_id;
        let mut end: usize = from + 1;
        while end < hunks.len() && hunks[end].buffer_id == buffer_id
            invariant
                from < end <= hunks@.len(),
                run_end(hunks@, buffer_id, from + 1) == run_end(hunks@, buffer_id, end as int),
            decreases hunks.len() - end,
        {
            end += 1;
        }
        let ghost run = hunks@.subrange(from as int, end as int);
        let ghost before = groups@;
        match find_diff(diffs, buffer_id) {
            Some(at) => {
                let diff = &diffs[at];
                let mut found: Vec<ResolvedDiffHunk> = Vec::new();
                let mut k: usize = from;
                assert(run.take(0) =~= Seq::empty());
                while k < end
                    invariant
                        from <= k <= end <= hunks@.len(),
                        run == hunks@.subrange(from as int, end as int),
                        found@ == resolved_run(run.take(k - from), *diff),
                    decreases end - k,
                {
                    proof {
                        assert(run.take(k - from + 1).drop_last() =~= run.take(k - from));
                        assert(run.take(k - from + 1).last() == hunks@[k as int]);
                    }
                    match resolve_hunk(&hunks[k], diff) {
                        Some(hunk) => {
                            found.push(hunk);
                        },
                        None => {},
                    }
                    k += 1;
                }
                assert(run.take(k - from) =~= run);
                if found.len() > 0 {
                    let group = ResolvedDiffHunks {
                        diff: diff.diff,
                        buffer_id: diff.main_buffer_id,
                        buffer: diff.buffer,
                        is_stageable: diff.is_stageable,
                        secondary_diff: diff.secondary_diff,
                        hunks: found,
                    };
                    groups.push(group);
                    assert(resolved_views(groups@) =~= resolved_views(before) + seq![group@]);
                }
            },
            None => {},
        }
        proof {
            assert(resolved_views(groups@) =~= resolved_views(before) + resolved_group(
                run,
                buffer_id,
                diffs@,
            ));
            assert(resolved_views(groups@) + resolved_from(hunks@, diffs@, end as int)
                =~= resolved_views(before) + (resolved_group(run, buffer_id, diffs@)
                + resolved_from(hunks@, diffs@, end as int)));
        }
        from = end;
    }
    assert(resolved_views(groups@) + resolved_from(hunks@, diffs@, from as int) =~= resolved_views(
        groups@,
    ));
    groups
}

/// The rows that a range of lines asks hunks for, and the hunks that were found there.
#[derive(Clone, Debug)]
pub struct HunkQuery {
    pub start_row: u32,
    pub end_row: u32,
    pub hunks: Vec<MultiBufferDiffHunk>,
}

/// Whether a hunk is on the rows that are asked for. One that is deleted has no rows, and counts
/// where it is next to them.
pub open spec fn touches(hunk: MultiBufferDiffHunk, start_row: u32, end_row: u32) -> bool {
    let below = end_row + 1;
    ||| hunk.start_row < below && start_row < hunk.end_row
    ||| hunk.status.kind == DiffHunkStatusKind::Deleted && (hunk.start_row == below || hunk.end_row
        == start_row)
}

/// Whether two hunks are the same part of the same buffer.
pub open spec fn same_part(a: MultiBufferDiffHunk, b: MultiBufferDiffHunk) -> bool {
    a.buffer_id == b.buffer_id && a.buffer_range == b.buffer_range
}

/// Whether a hunk is among those taken.
pub open spec fn is_taken(taken: Seq<MultiBufferDiffHunk>, hunk: MultiBufferDiffHunk) -> bool {
    exists|i: int| 0 <= i < taken.len() && same_part(#[trigger] taken[i], hunk)
}

/// Those taken, and after them those of `hunks` that are on the rows and not taken yet.
pub open spec fn taking(
    taken: Seq<MultiBufferDiffHunk>,
    hunks: Seq<MultiBufferDiffHunk>,
    start_row: u32,
    end_row: u32,
) -> Seq<MultiBufferDiffHunk>
    decreases hunks.len(),
{
    if hunks.len() == 0 {
        taken
    } else {
        let before = taking(taken, hunks.drop_last(), start_row, end_row);
        if touches(hunks.last(), start_row, end_row) && !is_taken(before, hunks.last()) {
            before.push(hunks.last())
        } else {
            before
        }
    }
}

/// The hunks on the rows of some queries, each once.
pub open spec fn hunks_of(queries: Seq<HunkQuery>) -> Seq<MultiBufferDiffHunk>
    decreases queries.len(),
{
    if queries.len() == 0 {
        Seq::empty()
    } else {
        let query = queries.last();
        taking(hunks_of(queries.drop_last()), query.hunks@, query.start_row, query.end_row)
    }
}

fn is_hunk_taken(taken: &Vec<MultiBufferDiffHunk>, hunk: &MultiBufferDiffHunk) -> (is: bool)
    ensures
        is == is_taken(taken@, *hunk),
{
    let mut i: usize = 0;
    while i < taken.len()
        invariant
            i <= taken@.len(),
            forall|j: int| 0 <= j < i ==> !same_part(#[trigger] taken@[j], *hunk),
        decreases taken.len() - i,
    {
        if taken[i].buffer_id == hunk.buffer_id && taken[i].buffer_range == hunk.buffer_range {
            assert(same_part(taken@[i as int], *hunk));
            return true;
        }
        i += 1;
    }
    false
}

/// The hunks on the rows of some queries, each once.
pub fn hunks_for_ranges(queries: &Vec<HunkQuery>) -> (taken: Vec<MultiBufferDiffHunk>)
    requires
        forall|i: int| 0 <= i < queries@.len() ==> (#[trigger] queries@[i]).end_row < u32::MAX,
    ensures
        taken@ == hunks_of(queries@),
{
    let mut taken: Vec<MultiBufferDiffHunk> = Vec::new();
    let mut q: usize = 0;
    while q < queries.len()
        invariant
            q <= queries@.len(),
            forall|i: int| 0 <= i < queries@.len() ==> (#[trigger] queries@[i]).end_row < u32::MAX,
            taken@ == hunks_of(queries@.take(q as int)),
        decreases queries.len() - q,
    {
        let query = &queries[q];
        let below: u32 = query.end_row + 1;
        let ghost before = taken@;
        let mut k: usize = 0;
        while k < query.hunks.len()
            invariant
                k <= query.hunks@.len(),
                below == query.end_row + 1,
                taken@ == taking(
                    before,
                    query.hunks@.take(k as int),
                    query.start_row,
                    query.end_row,
                ),
            decreases query.hunks@.len() - k,
        {
            let hunk = query.hunks[k];
            proof {
                assert(query.hunks@.take(k + 1).drop_last() =~= query.hunks@.take(k as int));
                assert(query.hunks@.take(k + 1).last() == hunk);
            }
            let mut on_rows = hunk.start_row < below && query.start_row < hunk.end_row;
            if hunk.status.kind == DiffHunkStatusKind::Deleted {
                on_rows = on_rows || hunk.start_row == below || hunk.end_row == query.start_row;
            }
            if on_rows && !is_hunk_taken(&taken, &hunk) {
                taken.push(hunk);
            }
            k += 1;
        }
        proof {
            assert(query.hunks@.take(k as int) =~= query.hunks@);
            assert(queries@.take(q + 1).drop_last() =~= queries@.take(q as int));
            assert(queries@.take(q + 1).last() == *query);
        }
        q += 1;
    }
    assert(queries@.take(q as int) =~= queries@);
    taken
}

/// No hunk is taken twice.
pub proof fn hunks_are_taken_once(queries: Seq<HunkQuery>, i: int, j: int)
    requires
        0 <= i < j < hunks_of(queries).len(),
    ensures
        !same_part(hunks_of(queries)[i], hunks_of(queries)[j]),
{
    lemma_taken_once(queries);
}

spec fn all_different(taken: Seq<MultiBufferDiffHunk>) -> bool {
    forall|i: int, j: int|
        #![trigger taken[i], taken[j]]
        0 <= i < j < taken.len() ==> !same_part(taken[i], taken[j])
}

proof fn lemma_taken_once(queries: Seq<HunkQuery>)
    ensures
        all_different(hunks_of(queries)),
    decreases queries.len(),
{
    if queries.len() > 0 {
        lemma_taken_once(queries.drop_last());
        let query = queries.last();
        lemma_taking_once(
            hunks_of(queries.drop_last()),
            query.hunks@,
            query.start_row,
            query.end_row,
        );
    }
}

proof fn lemma_taking_once(
    taken: Seq<MultiBufferDiffHunk>,
    hunks: Seq<MultiBufferDiffHunk>,
    start_row: u32,
    end_row: u32,
)
    requires
        all_different(taken),
    ensures
        all_different(taking(taken, hunks, start_row, end_row)),
    decreases hunks.len(),
{
    if hunks.len() > 0 {
        lemma_taking_once(taken, hunks.drop_last(), start_row, end_row);
        let before = taking(taken, hunks.drop_last(), start_row, end_row);
        let now = taking(taken, hunks, start_row, end_row);
        assert forall|i: int, j: int|
            #![trigger now[i], now[j]]
            0 <= i < j < now.len() implies !same_part(now[i], now[j]) by {
            assert(now[i] == before[i]);
            if j < before.len() {
                assert(now[j] == before[j]);
            }
        }
    }
}

/// Where the end of a range is, and the hunks that were found in it and just below.
#[derive(Clone, Debug)]
pub struct RangeHunks {
    /// Where the excerpt ends that the range ends in, if that can be told.
    pub excerpt_end: Option<u64>,
    pub hunks: Vec<MultiBufferDiffHunk>,
}

/// Whether a hunk is in an excerpt after the one that a range ends in.
pub open spec fn is_beyond(hunk: MultiBufferDiffHunk, excerpt_end: Option<u64>) -> bool {
    match (excerpt_end, hunk.excerpt_end) {
        (Some(end), Some(hunk_end)) => hunk_end > end,
        _ => false,
    }
}

/// The hunks that are not in a later excerpt.
pub open spec fn hunks_within(hunks: Seq<MultiBufferDiffHunk>, excerpt_end: Option<u64>) -> Seq<
    MultiBufferDiffHunk,
>
    decreases hunks.len(),
{
    if hunks.len() == 0 {
        Seq::empty()
    } else {
        let before = hunks_within(hunks.drop_last(), excerpt_end);
        if is_beyond(hunks.last(), excerpt_end) {
            before
        } else {
            before.push(hunks.last())
        }
    }
}

/// The hunks in some ranges, range after range.
pub open spec fn hunks_in(ranges: Seq<RangeHunks>) -> Seq<MultiBufferDiffHunk>
    decreases ranges.len(),
{
    if ranges.len() == 0 {
        Seq::empty()
    } else {
        hunks_in(ranges.drop_last()) + hunks_within(
            ranges.last().hunks@,
            ranges.last().excerpt_end,
        )
    }
}

/// The hunks in some ranges, range after range.
pub fn take_hunks_in(ranges: &Vec<RangeHunks>) -> (taken: Vec<MultiBufferDiffHunk>)
    ensures
        taken@ == hunks_in(ranges@),
{
    let mut taken: Vec<MultiBufferDiffHunk> = Vec::new();
    let mut r: usize = 0;
    while r < ranges.len()
        invariant
            r <= ranges@.len(),
            taken@ == hunks_in(ranges@.take(r as int)),
        decreases ranges.len() - r,
    {
        let range = &ranges[r];
        let ghost before = taken@;
        let mut k: usize = 0;
        assert(before + hunks_within(range.hunks@.take(0), range.excerpt_end) =~= before);
        while k < range.hunks.len()
            invariant
                k <= range.hunks@.len(),
                taken@ == before + hunks_within(range.hunks@.take(k as int), range.excerpt_end),
            decreases range.hunks@.len() - k,
        {
            let hunk = range.hunks[k];
            proof {
                assert(range.hunks@.take(k + 1).drop_last() =~= range.hunks@.take(k as int));
                assert(range.hunks@.take(k + 1).last() == hunk);
            }
            let beyond = match (range.excerpt_end, hunk.excerpt_end) {
                (Some(end), Some(hunk_end)) => hunk_end > end,
                (Some(_), None) => false,
                (None, Some(_)) => false,
                (None, None) => false,
            };
            if !beyond {
                taken.push(hunk);
            }
            assert(taken@ =~= before + hunks_within(
                range.hunks@.take(k + 1),
                range.excerpt_end,
            ));
            k += 1;
        }
        proof {
            assert(range.hunks@.take(k as int) =~= range.hunks@);
            assert(ranges@.take(r + 1).drop_last() =~= ranges@.take(r as int));
            assert(ranges@.take(r + 1).last() == *range);
        }
        r += 1;
    }
    assert(ranges@.take(r as int) =~= ranges@);
    taken
}

} // verus!
