//! Laws on finding, staging and restoring hunks.

use crate::diff_hunks::{
    diff_from, hunk_with_base, hunks_of, hunks_within, is_taken, resolved_from, resolved_group,
    resolved_hunk, resolved_hunks, resolved_run, run_end, same_part, taking, touches,
    BufferDiffState, ByteRange, DiffHunkStatusKind, HunkQuery, MultiBufferDiffHunk,
    ResolvedDiffHunk, ResolvedView, TextAnchor,
};
use crate::editor::{DelegateKind, Editor};
use crate::editor_hunks::{
    buffers_to_save, groups_for, row_after, row_ended_before, row_to_go_to, stageable_groups,
    BufferSaveState, Direction, HunkSearch,
};
use crate::hunk_delegate::{
    restore_actions, revert_actions, revert_changes, stage_actions, DiffHunkDelegate,
    HunkActionView, HunkHost, RevertChange, UncommittedDiffHunkDelegate,
};
use crate::review_snapshot::Point;
use vstd::prelude::*;

verus! {

/// Whether there is something to go back to at a hunk: it is not the whole of a new file.
pub open spec fn has_base(hunk: ResolvedDiffHunk) -> bool {
    !(hunk.diff_base_byte_range.start == 0 && hunk.diff_base_byte_range.end == 0
        && hunk.buffer_range.start == TextAnchor::Min && hunk.buffer_range.end == TextAnchor::Max)
}

/// Whether a change has the lines of a hunk read again as the bytes that it is compared with, from
/// the first to the last.
pub open spec fn gives_back(change: RevertChange, hunk: ResolvedDiffHunk) -> bool {
    &&& change.buffer_range.start == hunk.buffer_range.start
    &&& change.buffer_range.end == hunk.buffer_range.end
    &&& change.diff_base_byte_range.start == hunk.diff_base_byte_range.start
    &&& change.diff_base_byte_range.end == hunk.diff_base_byte_range.end
}

/// Whether an action restores the hunks of a group, each that there is something to go back to at,
/// in their order, and nothing else.
pub open spec fn restores_group(action: HunkActionView, group: ResolvedView) -> bool {
    &&& action is Revert
    &&& Some(action->Revert_buffer) == group.buffer
    &&& action->Revert_diff == group.diff
    &&& ({
        let hunks = group.hunks.filter(|hunk: ResolvedDiffHunk| has_base(hunk));
        let changes = action->Revert_changes;
        &&& changes.len() == hunks.len()
        &&& forall|i: int|
            0 <= i < changes.len() ==> gives_back(#[trigger] changes[i], hunks[i])
    })
}

proof fn lemma_changes(hunks: Seq<ResolvedDiffHunk>)
    ensures
        ({
            let kept = hunks.filter(|hunk: ResolvedDiffHunk| has_base(hunk));
            let changes = revert_changes(hunks);
            &&& changes.len() == kept.len()
            &&& forall|i: int|
                0 <= i < changes.len() ==> gives_back(#[trigger] changes[i], kept[i])
        }),
    decreases hunks.len(),
{
    reveal(Seq::filter);
    if hunks.len() > 0 {
        lemma_changes(hunks.drop_last());
    }
}

proof fn lemma_filter_holds(hunks: Seq<ResolvedDiffHunk>, i: int)
    requires
        0 <= i < hunks.len(),
        has_base(hunks[i]),
    ensures
        hunks.filter(|hunk: ResolvedDiffHunk| has_base(hunk)).contains(hunks[i]),
    decreases hunks.len(),
{
    reveal(Seq::filter);
    let keep = |hunk: ResolvedDiffHunk| has_base(hunk);
    let now = hunks.filter(keep);
    let before = hunks.drop_last().filter(keep);
    if i < hunks.len() - 1 {
        lemma_filter_holds(hunks.drop_last(), i);
        let k = choose|k: int| 0 <= k < before.len() && before[k] == hunks[i];
        assert(now[k] == hunks[i]);
    } else {
        assert(now[now.len() - 1] == hunks[i]);
    }
}

proof fn lemma_filter_is_part(hunks: Seq<ResolvedDiffHunk>, k: int)
    requires
        0 <= k < hunks.filter(|hunk: ResolvedDiffHunk| has_base(hunk)).len(),
    ensures
        ({
            let kept = hunks.filter(|hunk: ResolvedDiffHunk| has_base(hunk));
            has_base(kept[k]) && hunks.contains(kept[k])
        }),
    decreases hunks.len(),
{
    reveal(Seq::filter);
    let keep = |hunk: ResolvedDiffHunk| has_base(hunk);
    if hunks.len() > 0 {
        let before = hunks.drop_last().filter(keep);
        if k < before.len() {
            lemma_filter_is_part(hunks.drop_last(), k);
            let i = choose|i: int|
                0 <= i < hunks.drop_last().len() && hunks.drop_last()[i] == before[k];
            assert(hunks[i] == before[k]);
        } else {
            assert(hunks[hunks.len() - 1] == hunks.last());
        }
    }
}

proof fn lemma_group_is_restored(groups: Seq<ResolvedView>, g: int, i: int)
    requires
        0 <= g < groups.len(),
        groups[g].buffer is Some,
        0 <= i < groups[g].hunks.len(),
        has_base(groups[g].hunks[i]),
    ensures
        exists|a: int|
            0 <= a < revert_actions(groups).len() && restores_group(
                #[trigger] revert_actions(groups)[a],
                groups[g],
            ),
    decreases groups.len(),
{
    let rest = groups.drop_last();
    let before = revert_actions(rest);
    let now = revert_actions(groups);
    if g < groups.len() - 1 {
        assert(rest[g] == groups[g]);
        lemma_group_is_restored(rest, g, i);
        let a = choose|a: int|
            0 <= a < before.len() && restores_group(#[trigger] before[a], groups[g]);
        assert(now[a] == before[a]);
    } else {
        lemma_changes(groups[g].hunks);
        lemma_filter_holds(groups[g].hunks, i);
        assert(restores_group(now[before.len() as int], groups[g]));
    }
}

proof fn lemma_reverts_are_of_groups(groups: Seq<ResolvedView>, a: int)
    requires
        0 <= a < revert_actions(groups).len(),
    ensures
        exists|g: int|
            0 <= g < groups.len() && restores_group(
                revert_actions(groups)[a],
                #[trigger] groups[g],
            ),
    decreases groups.len(),
{
    let rest = groups.drop_last();
    let before = revert_actions(rest);
    if a < before.len() {
        lemma_reverts_are_of_groups(rest, a);
        let g = choose|g: int| 0 <= g < rest.len() && restores_group(before[a], #[trigger] rest[g]);
        assert(groups[g] == rest[g]);
    } else {
        lemma_changes(groups.last().hunks);
        assert(restores_group(revert_actions(groups)[a], groups[groups.len() - 1]));
    }
}

/// Whether a way to restore hunks restores any.
pub open spec fn restored_by(delegate: DelegateKind, host: HunkHost) -> bool {
    (delegate == DelegateKind::Uncommitted || delegate == DelegateKind::RestoreOnlyUnstaged)
        && !host.read_only
}

/// Restoring hunks restores each whose buffer is at hand: its lines are to read again as exactly the
/// bytes that it is compared with, from the first to the last.
pub proof fn restoring_gives_back_every_hunk(
    delegate: DelegateKind,
    groups: Seq<ResolvedView>,
    host: HunkHost,
    g: int,
    i: int,
)
    requires
        restored_by(delegate, host),
        0 <= g < groups.len(),
        groups[g].buffer is Some,
        0 <= i < groups[g].hunks.len(),
        has_base(groups[g].hunks[i]),
    ensures
        exists|a: int, k: int|
            #![trigger delegate.restores(groups, host)[a]->Revert_changes[k]]
            0 <= a < delegate.restores(groups, host).len() && restores_group(
                delegate.restores(groups, host)[a],
                groups[g],
            ) && 0 <= k < delegate.restores(groups, host)[a]->Revert_changes.len() && gives_back(
                delegate.restores(groups, host)[a]->Revert_changes[k],
                groups[g].hunks[i],
            ),
        exists|a: int|
            0 <= a < revert_actions(groups).len() && restores_group(
                #[trigger] revert_actions(groups)[a],
                groups[g],
            ),
{
    lemma_group_is_restored(groups, g, i);
    let reverts = revert_actions(groups);
    let b = choose|b: int| 0 <= b < reverts.len() && restores_group(#[trigger] reverts[b], groups[g]);
    lemma_filter_holds(groups[g].hunks, i);
    let kept = groups[g].hunks.filter(|hunk: ResolvedDiffHunk| has_base(hunk));
    let k = choose|k: int| 0 <= k < kept.len() && kept[k] == groups[g].hunks[i];
    let unstage = if delegate == DelegateKind::Uncommitted {
        UncommittedDiffHunkDelegate.stages(false, groups, host)
    } else {
        Seq::empty()
    };
    let all = delegate.restores(groups, host);
    assert(all == restore_actions(groups, unstage, host));
    let a = unstage.len() as int + b;
    assert(all[a] == reverts[b]);
    assert(gives_back(all[a]->Revert_changes[k], groups[g].hunks[i]));
}

/// Restoring hunks changes nothing but the hunks that it is asked for: every change gives back one of
/// them, and none is the whole of a new file.
pub proof fn restoring_changes_nothing_else(
    delegate: DelegateKind,
    groups: Seq<ResolvedView>,
    host: HunkHost,
    a: int,
    k: int,
)
    requires
        0 <= a < delegate.restores(groups, host).len(),
        delegate.restores(groups, host)[a] is Revert,
        0 <= k < delegate.restores(groups, host)[a]->Revert_changes.len(),
    ensures
        restored_by(delegate, host),
        exists|g: int, i: int|
            #![trigger groups[g].hunks[i]]
            0 <= g < groups.len() && 0 <= i < groups[g].hunks.len() && has_base(groups[g].hunks[i])
                && gives_back(
                delegate.restores(groups, host)[a]->Revert_changes[k],
                groups[g].hunks[i],
            ) && restores_group(delegate.restores(groups, host)[a], groups[g]),
{
    let all = delegate.restores(groups, host);
    let unstage = if delegate == DelegateKind::Uncommitted {
        UncommittedDiffHunkDelegate.stages(false, groups, host)
    } else {
        Seq::empty()
    };
    let reverts = revert_actions(groups);
    assert(all == restore_actions(groups, unstage, host));
    lemma_no_reverts(groups, false);
    assert(a >= unstage.len());
    let b = a - unstage.len();
    assert(all[a] == reverts.push(HunkActionView::KeepSelections)[b]);
    lemma_reverts_are_of_groups(groups, b);
    let g = choose|g: int| 0 <= g < groups.len() && restores_group(reverts[b], #[trigger] groups[g]);
    lemma_filter_is_part(groups[g].hunks, k);
    let kept = groups[g].hunks.filter(|hunk: ResolvedDiffHunk| has_base(hunk));
    let i = choose|i: int| 0 <= i < groups[g].hunks.len() && groups[g].hunks[i] == kept[k];
    assert(has_base(groups[g].hunks[i]));
}

proof fn lemma_no_reverts(groups: Seq<ResolvedView>, stage: bool)
    ensures
        forall|a: int|
            0 <= a < stage_actions(groups, stage).len() ==> !(#[trigger] stage_actions(
                groups,
                stage,
            )[a] is Revert),
    decreases groups.len(),
{
    if groups.len() > 0 {
        lemma_no_reverts(groups.drop_last(), stage);
    }
}

/// Hunks of the diff against the last commit are unstaged before they are restored, and what is
/// selected stays selected. What cannot be changed is not restored.
pub proof fn restoring_unstages_first(groups: Seq<ResolvedView>, host: HunkHost)
    ensures
        ({
            let all = UncommittedDiffHunkDelegate.restores(groups, host);
            let unstage = UncommittedDiffHunkDelegate.stages(false, groups, host);
            &&& host.read_only || groups.len() == 0 ==> all.len() == 0
            &&& !host.read_only && groups.len() > 0 ==> all.len() > unstage.len() && all.take(
                unstage.len() as int,
            ) == unstage && all.last() is KeepSelections
        }),
{
    let all = UncommittedDiffHunkDelegate.restores(groups, host);
    let unstage = UncommittedDiffHunkDelegate.stages(false, groups, host);
    if !host.read_only && groups.len() > 0 {
        assert(all.take(unstage.len() as int) =~= unstage);
    }
}

/// Whether an action stages, or unstages, the hunks of a group, all of them and in their order, in
/// the diff that they are staged in, or says that there is none.
pub open spec fn stages_group(action: HunkActionView, group: ResolvedView, stage: bool) -> bool {
    match action {
        HunkActionView::Stage { buffer, secondary_diff, ranges } => {
            &&& stage
            &&& Some(buffer) == group.buffer
            &&& Some(secondary_diff) == group.secondary_diff
            &&& ranges.len() == group.hunks.len()
            &&& forall|i: int|
                0 <= i < ranges.len() ==> (#[trigger] ranges[i]).start
                    == group.hunks[i].buffer_range.start && ranges[i].end
                    == group.hunks[i].buffer_range.end
        },
        HunkActionView::Unstage { buffer, diff, ranges } => {
            &&& !stage
            &&& Some(buffer) == group.buffer
            &&& diff == group.diff
            &&& ranges.len() == group.hunks.len()
            &&& forall|i: int|
                0 <= i < ranges.len() ==> (#[trigger] ranges[i]).start
                    == group.hunks[i].buffer_range.start && ranges[i].end
                    == group.hunks[i].buffer_range.end
        },
        HunkActionView::ReportNoSecondaryDiff => stage && group.secondary_diff is None,
        _ => false,
    }
}

/// Staging, or unstaging, takes in every hunk whose buffer is at hand.
pub proof fn staging_reaches_every_hunk(groups: Seq<ResolvedView>, stage: bool, g: int)
    requires
        0 <= g < groups.len(),
        groups[g].hunks.len() > 0,
        groups[g].buffer is Some,
    ensures
        exists|a: int|
            0 <= a < stage_actions(groups, stage).len() && stages_group(
                #[trigger] stage_actions(groups, stage)[a],
                groups[g],
                stage,
            ),
    decreases groups.len(),
{
    let rest = groups.drop_last();
    let before = stage_actions(rest, stage);
    let now = stage_actions(groups, stage);
    if g < groups.len() - 1 {
        assert(rest[g] == groups[g]);
        staging_reaches_every_hunk(rest, stage, g);
        let a = choose|a: int|
            0 <= a < before.len() && stages_group(#[trigger] before[a], groups[g], stage);
        assert(now[a] == before[a]);
    } else {
        assert(stages_group(now[before.len() as int], groups[g], stage));
    }
}

/// Staging, or unstaging, does nothing but what the hunks take that it is asked for.
pub proof fn staging_does_nothing_else(groups: Seq<ResolvedView>, stage: bool, a: int)
    requires
        0 <= a < stage_actions(groups, stage).len(),
    ensures
        exists|g: int|
            0 <= g < groups.len() && (#[trigger] groups[g]).hunks.len() > 0 && groups[g].buffer is Some
                && stages_group(stage_actions(groups, stage)[a], groups[g], stage),
    decreases groups.len(),
{
    let rest = groups.drop_last();
    let before = stage_actions(rest, stage);
    if a < before.len() {
        staging_does_nothing_else(rest, stage, a);
        let g = choose|g: int|
            0 <= g < rest.len() && (#[trigger] rest[g]).hunks.len() > 0 && rest[g].buffer is Some
                && stages_group(before[a], rest[g], stage);
        assert(groups[g] == rest[g]);
    } else {
        assert(stages_group(stage_actions(groups, stage)[a], groups[groups.len() - 1], stage));
    }
}

/// Toggling hunks stages them all where some of one is not staged, and else unstages them all;
/// without a project nothing is staged.
pub proof fn toggling_stages_what_is_left(groups: Seq<ResolvedView>, host: HunkHost, g: int, i: int)
    ensures
        0 <= g < groups.len() && 0 <= i < groups[g].hunks.len()
            && groups[g].hunks[i].status.has_secondary_hunk ==> UncommittedDiffHunkDelegate.toggles(
            groups,
            host,
        ) == UncommittedDiffHunkDelegate.stages(true, groups, host),
        (forall|h: int, j: int|
            #![trigger groups[h].hunks[j]]
            0 <= h < groups.len() && 0 <= j < groups[h].hunks.len()
                ==> !groups[h].hunks[j].status.has_secondary_hunk)
            ==> UncommittedDiffHunkDelegate.toggles(groups, host)
            == UncommittedDiffHunkDelegate.stages(false, groups, host),
        !host.has_project ==> UncommittedDiffHunkDelegate.stages(true, groups, host).len() == 0
            && UncommittedDiffHunkDelegate.stages(false, groups, host).len() == 0,
        host.has_project ==> UncommittedDiffHunkDelegate.stages(true, groups, host) == stage_actions(
            groups,
            true,
        ) && UncommittedDiffHunkDelegate.stages(false, groups, host) == stage_actions(
            groups,
            false,
        ),
{
}

/// A hunk is found in its buffer as the one that differs from the same bytes, from the first to the
/// last. Where the buffer itself is shown, it is the hunk as it is shown.
pub proof fn resolved_hunk_has_the_same_base(hunk: MultiBufferDiffHunk, diff: BufferDiffState)
    ensures
        resolved_hunk(hunk, diff) matches Some(found) ==> {
            &&& found.diff_base_byte_range.start == hunk.diff_base_byte_range.start
            &&& found.diff_base_byte_range.end == hunk.diff_base_byte_range.end
            &&& hunk.buffer_id == diff.main_buffer_id ==> found.buffer_range == hunk.buffer_range
                && found.status == hunk.status
            &&& hunk.buffer_id != diff.main_buffer_id ==> exists|k: int|
                0 <= k < diff.hunks@.len() && (#[trigger] diff.hunks@[k]).buffer_range
                    == found.buffer_range && diff.hunks@[k].diff_base_byte_range
                    == found.diff_base_byte_range && diff.hunks@[k].has_secondary_hunk
                    == found.status.has_secondary_hunk && diff.hunks@[k].is_pending
                    == found.status.is_pending
            &&& hunk.buffer_id != diff.main_buffer_id ==> (found.status.kind
                == DiffHunkStatusKind::Deleted <==> found.buffer_range.start
                == found.buffer_range.end)
            &&& hunk.buffer_id != diff.main_buffer_id && found.status.kind
                == DiffHunkStatusKind::Added ==> found.diff_base_byte_range.start
                >= found.diff_base_byte_range.end
            &&& hunk.buffer_id != diff.main_buffer_id && found.status.kind
                == DiffHunkStatusKind::Modified ==> found.diff_base_byte_range.start
                < found.diff_base_byte_range.end
        },
        resolved_hunk(hunk, diff) is None ==> hunk.buffer_id != diff.main_buffer_id && forall|k: int|
            0 <= k < diff.hunks@.len() ==> (#[trigger] diff.hunks@[k]).diff_base_byte_range
                != hunk.diff_base_byte_range,
{
    lemma_hunk_with_base(diff.hunks@, hunk.diff_base_byte_range, 0);
}

proof fn lemma_hunk_with_base(
    hunks: Seq<crate::diff_hunks::BufferDiffHunk>,
    base: ByteRange,
    from: int,
)
    requires
        0 <= from,
    ensures
        hunk_with_base(hunks, base, from) matches Some(at) ==> from <= at < hunks.len()
            && hunks[at].diff_base_byte_range == base,
        hunk_with_base(hunks, base, from) is None ==> forall|k: int|
            from <= k < hunks.len() ==> (#[trigger] hunks[k]).diff_base_byte_range != base,
    decreases hunks.len() - from,
{
    if from < hunks.len() {
        lemma_hunk_with_base(hunks, base, from + 1);
    }
}

proof fn lemma_diff_from(diffs: Seq<BufferDiffState>, buffer_id: u64, from: int)
    requires
        0 <= from,
    ensures
        diff_from(diffs, buffer_id, from) matches Some(at) ==> from <= at < diffs.len()
            && diffs[at].shown_buffer_id == buffer_id && forall|k: int|
            from <= k < at ==> (#[trigger] diffs[k]).shown_buffer_id != buffer_id,
        diff_from(diffs, buffer_id, from) is None ==> forall|k: int|
            from <= k < diffs.len() ==> (#[trigger] diffs[k]).shown_buffer_id != buffer_id,
    decreases diffs.len() - from,
{
    if from < diffs.len() {
        lemma_diff_from(diffs, buffer_id, from + 1);
    }
}

proof fn lemma_run(hunks: Seq<MultiBufferDiffHunk>, buffer_id: u64, at: int)
    requires
        0 <= at <= hunks.len(),
    ensures
        at <= run_end(hunks, buffer_id, at) <= hunks.len(),
        forall|k: int|
            at <= k < run_end(hunks, buffer_id, at) ==> (#[trigger] hunks[k]).buffer_id == buffer_id,
    decreases hunks.len() - at,
{
    if at < hunks.len() && hunks[at].buffer_id == buffer_id {
        lemma_run(hunks, buffer_id, at + 1);
    }
}

proof fn lemma_run_holds(hunks: Seq<MultiBufferDiffHunk>, diff: BufferDiffState, i: int)
    requires
        0 <= i < hunks.len(),
        resolved_hunk(hunks[i], diff) is Some,
    ensures
        resolved_run(hunks, diff).contains(resolved_hunk(hunks[i], diff)->0),
    decreases hunks.len(),
{
    let now = resolved_run(hunks, diff);
    let before = resolved_run(hunks.drop_last(), diff);
    let found = resolved_hunk(hunks[i], diff)->0;
    if i < hunks.len() - 1 {
        lemma_run_holds(hunks.drop_last(), diff, i);
        let k = choose|k: int| 0 <= k < before.len() && before[k] == found;
        assert(now[k] == found);
    } else {
        assert(now[now.len() - 1] == found);
    }
}

/// Whether a group is of a diff and holds a hunk.
pub open spec fn is_group_with(
    group: ResolvedView,
    diff: BufferDiffState,
    hunk: ResolvedDiffHunk,
) -> bool {
    &&& group.diff == diff.diff
    &&& group.buffer_id == diff.main_buffer_id
    &&& group.buffer == diff.buffer
    &&& group.is_stageable == diff.is_stageable
    &&& group.secondary_diff == diff.secondary_diff
    &&& group.hunks.contains(hunk)
}

proof fn lemma_resolved_from(
    hunks: Seq<MultiBufferDiffHunk>,
    diffs: Seq<BufferDiffState>,
    from: int,
    i: int,
    d: int,
)
    requires
        0 <= from <= i < hunks.len(),
        0 <= d < diffs.len(),
        diffs[d].shown_buffer_id == hunks[i].buffer_id,
        forall|k: int|
            0 <= k < d ==> (#[trigger] diffs[k]).shown_buffer_id != hunks[i].buffer_id,
        resolved_hunk(hunks[i], diffs[d]) is Some,
    ensures
        exists|g: int|
            0 <= g < resolved_from(hunks, diffs, from).len() && is_group_with(
                #[trigger] resolved_from(hunks, diffs, from)[g],
                diffs[d],
                resolved_hunk(hunks[i], diffs[d])->0,
            ),
    decreases hunks.len() - from,
{
    let buffer_id = hunks[from].buffer_id;
    let end = run_end(hunks, buffer_id, from + 1);
    lemma_run(hunks, buffer_id, from + 1);
    let run = hunks.subrange(from, end);
    let first = resolved_group(run, buffer_id, diffs);
    let rest = resolved_from(hunks, diffs, end);
    let all = resolved_from(hunks, diffs, from);
    assert(all == first + rest);
    let found = resolved_hunk(hunks[i], diffs[d])->0;
    if i < end {
        assert(run[i - from] == hunks[i]);
        assert(hunks[i].buffer_id == buffer_id);
        lemma_diff_from(diffs, buffer_id, 0);
        assert(diff_from(diffs, buffer_id, 0) == Some(d)) by {
            let at = diff_from(diffs, buffer_id, 0);
            assert(diffs[d].shown_buffer_id == buffer_id);
            if at is Some && at->0 < d {
                assert(diffs[at->0].shown_buffer_id == buffer_id);
            }
        }
        lemma_run_holds(run, diffs[d], i - from);
        assert(is_group_with(all[0], diffs[d], found));
    } else {
        lemma_resolved_from(hunks, diffs, end, i, d);
        let g = choose|g: int|
            0 <= g < rest.len() && is_group_with(#[trigger] rest[g], diffs[d], found);
        assert(all[first.len() + g] == rest[g]);
        assert(is_group_with(all[first.len() + g], diffs[d], found));
    }
}

/// Every hunk that is found in its buffer is among the hunks of that buffer, in a group that names
/// the diffs of the buffer.
pub proof fn every_hunk_is_resolved(
    hunks: Seq<MultiBufferDiffHunk>,
    diffs: Seq<BufferDiffState>,
    i: int,
    d: int,
)
    requires
        0 <= i < hunks.len(),
        0 <= d < diffs.len(),
        diffs[d].shown_buffer_id == hunks[i].buffer_id,
        forall|k: int|
            0 <= k < d ==> (#[trigger] diffs[k]).shown_buffer_id != hunks[i].buffer_id,
        resolved_hunk(hunks[i], diffs[d]) is Some,
    ensures
        exists|g: int|
            0 <= g < resolved_hunks(hunks, diffs).len() && is_group_with(
                #[trigger] resolved_hunks(hunks, diffs)[g],
                diffs[d],
                resolved_hunk(hunks[i], diffs[d])->0,
            ),
{
    lemma_resolved_from(hunks, diffs, 0, i, d);
    let groups = resolved_from(hunks, diffs, 0);
    let g = choose|g: int|
        0 <= g < groups.len() && is_group_with(
            #[trigger] groups[g],
            diffs[d],
            resolved_hunk(hunks[i], diffs[d])->0,
        );
    assert(resolved_hunks(hunks, diffs)[g] == groups[g]);
}

/// Whether a hunk lies on the rows from the first to the last, or was deleted right next to them.
pub open spec fn is_on_rows(hunk: MultiBufferDiffHunk, first: u32, last: u32) -> bool {
    if hunk.start_row > last || hunk.end_row <= first {
        hunk.status.kind == DiffHunkStatusKind::Deleted && (hunk.start_row == last + 1
            || hunk.end_row == first)
    } else {
        true
    }
}

/// Whether a query finds a hunk on its rows.
pub open spec fn is_found_by(hunk: MultiBufferDiffHunk, query: HunkQuery) -> bool {
    query.hunks@.contains(hunk) && is_on_rows(hunk, query.start_row, query.end_row)
}

proof fn lemma_taking(
    taken: Seq<MultiBufferDiffHunk>,
    hunks: Seq<MultiBufferDiffHunk>,
    start_row: u32,
    end_row: u32,
)
    requires
        start_row <= end_row,
    ensures
        ({
            let now = taking(taken, hunks, start_row, end_row);
            &&& now.len() >= taken.len()
            &&& forall|k: int| 0 <= k < taken.len() ==> #[trigger] now[k] == taken[k]
            &&& forall|k: int|
                taken.len() <= k < now.len() ==> hunks.contains(#[trigger] now[k]) && is_on_rows(
                    now[k],
                    start_row,
                    end_row,
                )
            &&& forall|i: int|
                0 <= i < hunks.len() && is_on_rows(#[trigger] hunks[i], start_row, end_row)
                    ==> is_taken(now, hunks[i])
        }),
    decreases hunks.len(),
{
    if hunks.len() > 0 {
        let rest = hunks.drop_last();
        let last = hunks.last();
        lemma_taking(taken, rest, start_row, end_row);
        let before = taking(taken, rest, start_row, end_row);
        let now = taking(taken, hunks, start_row, end_row);
        assert(hunks[hunks.len() - 1] == last);
        assert(touches(last, start_row, end_row) == is_on_rows(last, start_row, end_row));
        assert forall|k: int| taken.len() <= k < now.len() implies hunks.contains(#[trigger] now[k])
            && is_on_rows(now[k], start_row, end_row) by {
            if k < before.len() {
                assert(now[k] == before[k]);
                let i = choose|i: int| 0 <= i < rest.len() && rest[i] == before[k];
                assert(hunks[i] == before[k]);
            }
        }
        assert forall|i: int|
            0 <= i < hunks.len() && is_on_rows(#[trigger] hunks[i], start_row, end_row) implies is_taken(
            now,
            hunks[i],
        ) by {
            if i < rest.len() {
                assert(rest[i] == hunks[i]);
                assert(is_taken(before, rest[i]));
                let k = choose|k: int|
                    0 <= k < before.len() && same_part(#[trigger] before[k], rest[i]);
                assert(now[k] == before[k]);
                assert(same_part(now[k], hunks[i]));
            } else if is_taken(before, last) {
                let k = choose|k: int| 0 <= k < before.len() && same_part(#[trigger] before[k], last);
                assert(now[k] == before[k]);
            } else {
                assert(now[now.len() - 1] == last);
                assert(same_part(now[now.len() - 1], last));
            }
        }
    }
}

/// Whether a hunk of the same buffer and at the same part of it is among some.
pub open spec fn is_among(hunks: Seq<MultiBufferDiffHunk>, hunk: MultiBufferDiffHunk) -> bool {
    exists|k: int|
        0 <= k < hunks.len() && (#[trigger] hunks[k]).buffer_id == hunk.buffer_id
            && hunks[k].buffer_range.start == hunk.buffer_range.start && hunks[k].buffer_range.end
            == hunk.buffer_range.end
}

/// What is taken for some ranges of rows lies on the rows of one of them, and whatever lies on the
/// rows of one is taken.
pub proof fn hunks_on_rows_are_taken(queries: Seq<HunkQuery>)
    requires
        forall|q: int|
            0 <= q < queries.len() ==> (#[trigger] queries[q]).start_row <= queries[q].end_row,
    ensures
        forall|k: int|
            0 <= k < hunks_of(queries).len() ==> exists|q: int|
                0 <= q < queries.len() && is_found_by(
                    #[trigger] hunks_of(queries)[k],
                    #[trigger] queries[q],
                ),
        forall|q: int, hunk: MultiBufferDiffHunk|
            0 <= q < queries.len() && #[trigger] is_found_by(hunk, queries[q]) ==> is_among(
                hunks_of(queries),
                hunk,
            ),
    decreases queries.len(),
{
    if queries.len() > 0 {
        let rest = queries.drop_last();
        let query = queries.last();
        assert forall|q: int| 0 <= q < rest.len() implies (#[trigger] rest[q]).start_row
            <= rest[q].end_row by {
            assert(rest[q] == queries[q]);
        }
        assert(queries[queries.len() - 1] == query);
        hunks_on_rows_are_taken(rest);
        let before = hunks_of(rest);
        let now = hunks_of(queries);
        lemma_taking(before, query.hunks@, query.start_row, query.end_row);
        assert forall|k: int| 0 <= k < now.len() implies exists|q: int|
            0 <= q < queries.len() && is_found_by(#[trigger] now[k], #[trigger] queries[q]) by {
            if k < before.len() {
                assert(now[k] == before[k]);
                let q = choose|q: int|
                    0 <= q < rest.len() && is_found_by(before[k], #[trigger] rest[q]);
                assert(queries[q] == rest[q]);
                assert(is_found_by(now[k], queries[q]));
            } else {
                assert(is_found_by(now[k], queries[queries.len() - 1]));
            }
        }
        assert forall|q: int, hunk: MultiBufferDiffHunk|
            0 <= q < queries.len() && #[trigger] is_found_by(hunk, queries[q]) implies is_among(
            now,
            hunk,
        ) by {
            if q < rest.len() {
                assert(is_found_by(hunk, rest[q]));
                let k = choose|k: int|
                    0 <= k < before.len() && (#[trigger] before[k]).buffer_id == hunk.buffer_id
                        && before[k].buffer_range.start == hunk.buffer_range.start
                        && before[k].buffer_range.end == hunk.buffer_range.end;
                assert(now[k] == before[k]);
                assert(now[k].buffer_id == hunk.buffer_id);
            } else {
                let i = choose|i: int| 0 <= i < query.hunks@.len() && query.hunks@[i] == hunk;
                assert(is_taken(now, query.hunks@[i]));
                let k = choose|k: int| 0 <= k < now.len() && same_part(#[trigger] now[k], hunk);
                assert(now[k].buffer_id == hunk.buffer_id);
            }
        }
    }
}

/// The hunks of a range are those found for it, in their order, but for those in a later excerpt.
pub proof fn hunks_of_a_range_are_in_its_excerpts(
    hunks: Seq<MultiBufferDiffHunk>,
    excerpt_end: Option<u64>,
)
    ensures
        hunks_within(hunks, excerpt_end) == hunks.filter(
            |hunk: MultiBufferDiffHunk|
                !(excerpt_end is Some && hunk.excerpt_end is Some && hunk.excerpt_end->0
                    > excerpt_end->0),
        ),
    decreases hunks.len(),
{
    reveal(Seq::filter);
    if hunks.len() > 0 {
        hunks_of_a_range_are_in_its_excerpts(hunks.drop_last(), excerpt_end);
    }
}

/// Going to the next hunk goes to the first of those listed behind the position that begins below
/// it and, where there is none and one may go round, to the first of those listed before it that
/// ends above it.
pub proof fn next_hunk_is_the_first_below(
    search: HunkSearch,
    position: Point,
    wrap_around: bool,
    k: int,
)
    requires
        0 <= k < search.after@.len(),
        search.after@[k].start_row > position.row,
        forall|j: int| 0 <= j < k ==> (#[trigger] search.after@[j]).start_row <= position.row,
    ensures
        row_to_go_to(search, position, Direction::Next, wrap_around) == Some(
            search.after@[k].start_row,
        ),
{
    lemma_row_after(search.after@, position.row, 0, k);
}

proof fn lemma_row_after(hunks: Seq<MultiBufferDiffHunk>, row: u32, from: int, k: int)
    requires
        0 <= from <= k <= hunks.len(),
        k < hunks.len() ==> hunks[k].start_row > row,
        forall|j: int| from <= j < k ==> (#[trigger] hunks[j]).start_row <= row,
    ensures
        row_after(hunks, row, from) == if k < hunks.len() {
            Some(hunks[k].start_row)
        } else {
            None
        },
    decreases k - from,
{
    if from < k {
        lemma_row_after(hunks, row, from + 1, k);
    }
}

proof fn lemma_row_ended_before(hunks: Seq<MultiBufferDiffHunk>, row: u32, from: int, k: int)
    requires
        0 <= from <= k <= hunks.len(),
        k < hunks.len() ==> hunks[k].end_row < row,
        forall|j: int| from <= j < k ==> (#[trigger] hunks[j]).end_row >= row,
    ensures
        row_ended_before(hunks, row, from) == if k < hunks.len() {
            Some(hunks[k].start_row)
        } else {
            None
        },
    decreases k - from,
{
    if from < k {
        lemma_row_ended_before(hunks, row, from + 1, k);
    }
}

/// Where no hunk begins below the position, one goes round to the first that ends above it, if one
/// may, and otherwise nowhere.
pub proof fn going_round_finds_the_first(
    search: HunkSearch,
    position: Point,
    k: int,
)
    requires
        forall|j: int|
            0 <= j < search.after@.len() ==> (#[trigger] search.after@[j]).start_row
                <= position.row,
        0 <= k <= search.before@.len(),
        k < search.before@.len() ==> search.before@[k].end_row < position.row,
        forall|j: int| 0 <= j < k ==> (#[trigger] search.before@[j]).end_row >= position.row,
    ensures
        row_to_go_to(search, position, Direction::Next, false) is None,
        row_to_go_to(search, position, Direction::Next, true) == if k < search.before@.len() {
            Some(search.before@[k].start_row)
        } else {
            None
        },
{
    lemma_row_after(search.after@, position.row, 0, search.after@.len() as int);
    lemma_row_ended_before(search.before@, position.row, 0, k);
}

/// Going back goes to the last hunk above and, where there is none and one may go round, to the last
/// of all.
pub proof fn previous_hunk_is_the_last_above(search: HunkSearch, position: Point, wrap_around: bool)
    ensures
        search.row_before is Some ==> row_to_go_to(search, position, Direction::Prev, wrap_around)
            == search.row_before,
        search.row_before is None && wrap_around ==> row_to_go_to(
            search,
            position,
            Direction::Prev,
            wrap_around,
        ) == search.last_row,
        search.row_before is None && !wrap_around ==> row_to_go_to(
            search,
            position,
            Direction::Prev,
            wrap_around,
        ) is None,
{
}

/// Without a way of its own, an editor acts on the groups that can be staged and on no others, in
/// their order; with one, on all.
pub proof fn only_stageable_groups_are_acted_on(
    editor: Editor,
    hunks: Seq<MultiBufferDiffHunk>,
    diffs: Seq<BufferDiffState>,
)
    ensures
        editor.diff_hunk_delegate is Some ==> groups_for(editor, hunks, diffs) == resolved_hunks(
            hunks,
            diffs,
        ),
        editor.diff_hunk_delegate is None ==> groups_for(editor, hunks, diffs) == resolved_hunks(
            hunks,
            diffs,
        ).filter(|group: ResolvedView| group.is_stageable),
{
    lemma_stageable(resolved_hunks(hunks, diffs));
}

proof fn lemma_stageable(groups: Seq<ResolvedView>)
    ensures
        stageable_groups(groups) == groups.filter(|group: ResolvedView| group.is_stageable),
    decreases groups.len(),
{
    reveal(Seq::filter);
    if groups.len() > 0 {
        lemma_stageable(groups.drop_last());
    }
}

/// The buffers that are saved before their hunks are staged are those with changes whose files are on
/// disk, each once.
pub proof fn changed_buffers_are_saved_once(buffers: Seq<BufferSaveState>)
    ensures
        forall|buffer: u64| #[trigger]
            buffers_to_save(buffers).contains(buffer) <==> exists|i: int|
                0 <= i < buffers.len() && (#[trigger] buffers[i]).buffer == buffer
                    && buffers[i].on_disk && buffers[i].is_dirty,
        buffers_to_save(buffers).no_duplicates(),
    decreases buffers.len(),
{
    if buffers.len() > 0 {
        let rest = buffers.drop_last();
        let last = buffers.last();
        changed_buffers_are_saved_once(rest);
        let before = buffers_to_save(rest);
        let now = buffers_to_save(buffers);
        assert forall|buffer: u64| #[trigger] now.contains(buffer) <==> exists|i: int|
            0 <= i < buffers.len() && (#[trigger] buffers[i]).buffer == buffer && buffers[i].on_disk
                && buffers[i].is_dirty by {
            if now.contains(buffer) {
                let k = choose|k: int| 0 <= k < now.len() && now[k] == buffer;
                if k < before.len() {
                    assert(before[k] == buffer);
                    assert(before.contains(buffer));
                    let i = choose|i: int|
                        0 <= i < rest.len() && (#[trigger] rest[i]).buffer == buffer
                            && rest[i].on_disk && rest[i].is_dirty;
                    assert(buffers[i].buffer == buffer);
                } else {
                    assert(buffers[buffers.len() - 1].buffer == buffer);
                }
            }
            if exists|i: int|
                0 <= i < buffers.len() && (#[trigger] buffers[i]).buffer == buffer
                    && buffers[i].on_disk && buffers[i].is_dirty {
                let i = choose|i: int|
                    0 <= i < buffers.len() && (#[trigger] buffers[i]).buffer == buffer
                        && buffers[i].on_disk && buffers[i].is_dirty;
                if i < rest.len() {
                    assert(rest[i].buffer == buffer);
                    assert(before.contains(buffer));
                }
                if before.contains(buffer) {
                    let k = choose|k: int| 0 <= k < before.len() && before[k] == buffer;
                    assert(now[k] == buffer);
                } else {
                    assert(now[now.len() - 1] == buffer);
                }
            }
        }
    }
}

/// What the first groups take comes first, whether they are staged, unstaged or restored.
pub proof fn groups_are_acted_on_in_order(groups: Seq<ResolvedView>, stage: bool, n: int)
    requires
        0 <= n <= groups.len(),
    ensures
        stage_actions(groups.take(n), stage).is_prefix_of(stage_actions(groups, stage)),
        revert_actions(groups.take(n)).is_prefix_of(revert_actions(groups)),
    decreases groups.len(),
{
    let some = stage_actions(groups.take(n), stage);
    let all = stage_actions(groups, stage);
    let some_reverts = revert_actions(groups.take(n));
    let all_reverts = revert_actions(groups);
    if n == groups.len() {
        assert(groups.take(n) =~= groups);
        assert(all.subrange(0, all.len() as int) =~= all);
        assert(all_reverts.subrange(0, all_reverts.len() as int) =~= all_reverts);
    } else {
        let rest = groups.drop_last();
        groups_are_acted_on_in_order(rest, stage, n);
        assert(rest.take(n) =~= groups.take(n));
        assert(all.subrange(0, some.len() as int) =~= stage_actions(rest, stage).subrange(
            0,
            some.len() as int,
        ));
        assert(all_reverts.subrange(0, some_reverts.len() as int) =~= revert_actions(rest).subrange(
            0,
            some_reverts.len() as int,
        ));
    }
}

} // verus!
