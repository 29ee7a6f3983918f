//! Laws on how hunks are shown, and on what is done to those that are selected.

use crate::diff_hunks::{
    resolved_hunk, resolved_hunks, BufferDiffState, MultiBufferDiffHunk, ResolvedView, TextRange,
};
use crate::editor::{DelegateKind, Editor};
use crate::editor_hunks::{applied_restore, delegate_of, first_some, groups_for, host_of, Direction};
use crate::hunk_display::{
    control_action, hunk_controls, hunk_end, merge_from, merges_of, permalink_lines, shown_hunk,
    shown_hunks, HunkControl, HunkControlAction, HunkSetting, MergeView, PlacedHunk, SelectedRows,
};
use crate::hunk_laws::{
    every_hunk_is_resolved, gives_back, has_base, is_group_with, only_stageable_groups_are_acted_on,
    restores_group, restoring_gives_back_every_hunk,
};
use crate::review_comment::AnchorRange;
use crate::review_snapshot::Point;
use vstd::prelude::*;

verus! {

proof fn lemma_filtered_group(groups: Seq<ResolvedView>, g: int)
    requires
        0 <= g < groups.len(),
        groups[g].is_stageable,
    ensures
        groups.filter(|group: ResolvedView| group.is_stageable).contains(groups[g]),
    decreases groups.len(),
{
    reveal(Seq::filter);
    let keep = |group: ResolvedView| group.is_stageable;
    let now = groups.filter(keep);
    let before = groups.drop_last().filter(keep);
    if g < groups.len() - 1 {
        lemma_filtered_group(groups.drop_last(), g);
        let k = choose|k: int| 0 <= k < before.len() && before[k] == groups[g];
        assert(now[k] == groups[g]);
    } else {
        assert(now[now.len() - 1] == groups[g]);
    }
}

/// A hunk that is to be restored is: where its buffer is shown and at hand, the lines of that hunk
/// are to read again as exactly the bytes that it is compared with, in the diff of that buffer.
pub proof fn selected_hunks_are_restored(
    editor: Editor,
    hunks: Seq<MultiBufferDiffHunk>,
    diffs: Seq<BufferDiffState>,
    i: int,
    d: int,
)
    requires
        0 <= i < hunks.len(),
        0 <= d < diffs.len(),
        diffs[d].shown_buffer_id == hunks[i].buffer_id,
        forall|k: int|
            0 <= k < d ==> (#[trigger] diffs[k]).shown_buffer_id != hunks[i].buffer_id,
        diffs[d].main_buffer_id == hunks[i].buffer_id,
        diffs[d].buffer is Some,
        !editor.read_only,
        editor.diff_hunk_delegate is None ==> diffs[d].is_stageable,
        delegate_of(editor) == DelegateKind::Uncommitted || delegate_of(editor)
            == DelegateKind::RestoreOnlyUnstaged,
        !(hunks[i].diff_base_byte_range.start == 0 && hunks[i].diff_base_byte_range.end == 0
            && hunks[i].buffer_range.start == crate::diff_hunks::TextAnchor::Min
            && hunks[i].buffer_range.end == crate::diff_hunks::TextAnchor::Max),
    ensures
        exists|a: int, k: int|
            #![trigger applied_restore(editor, hunks, diffs)[a]->Revert_changes[k]]
            {
                let actions = applied_restore(editor, hunks, diffs);
                &&& 0 <= a < actions.len()
                &&& actions[a] is Revert
                &&& Some(actions[a]->Revert_buffer) == diffs[d].buffer
                &&& actions[a]->Revert_diff == diffs[d].diff
                &&& 0 <= k < actions[a]->Revert_changes.len()
                &&& actions[a]->Revert_changes[k].buffer_range.start == hunks[i].buffer_range.start
                &&& actions[a]->Revert_changes[k].buffer_range.end == hunks[i].buffer_range.end
                &&& actions[a]->Revert_changes[k].diff_base_byte_range.start
                    == hunks[i].diff_base_byte_range.start
                &&& actions[a]->Revert_changes[k].diff_base_byte_range.end
                    == hunks[i].diff_base_byte_range.end
            },
{
    let found = resolved_hunk(hunks[i], diffs[d])->0;
    every_hunk_is_resolved(hunks, diffs, i, d);
    let all = resolved_hunks(hunks, diffs);
    let g = choose|g: int| 0 <= g < all.len() && is_group_with(#[trigger] all[g], diffs[d], found);
    only_stageable_groups_are_acted_on(editor, hunks, diffs);
    let groups = groups_for(editor, hunks, diffs);
    if editor.diff_hunk_delegate is None {
        lemma_filtered_group(all, g);
    } else {
        assert(groups[g] == all[g]);
    }
    assert(groups.contains(all[g]));
    let x = choose|x: int| 0 <= x < groups.len() && groups[x] == all[g];
    let y = choose|y: int| 0 <= y < groups[x].hunks.len() && groups[x].hunks[y] == found;
    let delegate = delegate_of(editor);
    let host = host_of(editor);
    assert(has_base(groups[x].hunks[y]));
    restoring_gives_back_every_hunk(delegate, groups, host, x, y);
    let actions = delegate.restores(groups, host);
    let (a, k) = choose|a: int, k: int|
        #![trigger actions[a]->Revert_changes[k]]
        0 <= a < actions.len() && restores_group(actions[a], groups[x]) && 0 <= k
            < actions[a]->Revert_changes.len() && gives_back(
            actions[a]->Revert_changes[k],
            groups[x].hunks[y],
        );
    assert(applied_restore(editor, hunks, diffs) == actions);
    assert(gives_back(applied_restore(editor, hunks, diffs)[a]->Revert_changes[k], found));
}

/// A hunk on the screen is the hunk: it has its bytes, its place, its status and its words, begins
/// where its beginning is shown, and takes in the row on which its end is shown, unless it has no
/// rows and ends at the beginning of one. Where its beginning is shown within a row, the row is all
/// that is shown.
pub proof fn hunks_are_shown_as_they_are(placed: PlacedHunk, all_diff_hunks_expanded: bool)
    requires
        placed.end.row < u32::MAX,
    ensures
        shown_hunk(placed, all_diff_hunks_expanded) is None <==> placed.is_folded || (
        placed.hunk.start_row >= placed.hunk.end_row && all_diff_hunks_expanded),
        shown_hunk(placed, all_diff_hunks_expanded) matches Some(shown) ==> {
            &&& shown is Folded <==> placed.start.column != 0
            &&& shown is Folded ==> shown->Folded_display_row == placed.start.row
            &&& shown is Unfolded ==> {
                &&& shown->Unfolded_diff_base_byte_range.start
                    == placed.hunk.diff_base_byte_range.start
                &&& shown->Unfolded_diff_base_byte_range.end == placed.hunk.diff_base_byte_range.end
                &&& shown->Unfolded_multi_buffer_range.start == placed.hunk.multi_buffer_range.start
                &&& shown->Unfolded_multi_buffer_range.end == placed.hunk.multi_buffer_range.end
                &&& shown->Unfolded_status == placed.hunk.status
                &&& shown->Unfolded_word_diffs == placed.word_diffs@
                &&& shown->Unfolded_is_created_file == placed.is_created_file
                &&& shown->Unfolded_start_row == placed.start.row
                &&& placed.hunk.start_row < placed.hunk.end_row ==> shown->Unfolded_end_row
                    == placed.end.row + 1
                &&& placed.hunk.start_row >= placed.hunk.end_row && placed.end.column == 0
                    ==> shown->Unfolded_end_row == placed.end.row
                &&& placed.hunk.start_row >= placed.hunk.end_row && placed.end.column > 0
                    ==> shown->Unfolded_end_row == placed.end.row + 1
            }
        },
{
}

/// A hunk ends at the end of its last row, or where it begins if it has none.
pub proof fn hunks_end_on_their_last_row(hunk: MultiBufferDiffHunk, last_line_len: u32)
    requires
        hunk.start_row <= hunk.end_row,
    ensures
        hunk.start_row < hunk.end_row ==> hunk.start_row <= hunk_end(hunk, last_line_len).row
            < hunk.end_row && hunk_end(hunk, last_line_len).row + 1 == hunk.end_row && hunk_end(
            hunk,
            last_line_len,
        ).column == last_line_len,
        hunk.start_row == hunk.end_row ==> hunk_end(hunk, last_line_len) == (Point {
            row: hunk.start_row,
            column: 0,
        }),
{
}

/// The hunks on the screen are those that are shown of the ones there are, in their order.
pub proof fn shown_hunks_come_in_order(
    hunks: Seq<PlacedHunk>,
    more: Seq<PlacedHunk>,
    placed: PlacedHunk,
    all_diff_hunks_expanded: bool,
)
    ensures
        shown_hunks(hunks + more, all_diff_hunks_expanded) == shown_hunks(
            hunks,
            all_diff_hunks_expanded,
        ) + shown_hunks(more, all_diff_hunks_expanded),
        shown_hunks(seq![placed], all_diff_hunks_expanded) == match shown_hunk(
            placed,
            all_diff_hunks_expanded,
        ) {
            Some(shown) => seq![shown],
            None => Seq::empty(),
        },
    decreases more.len(),
{
    reveal_with_fuel(shown_hunks, 2);
    assert(seq![placed].drop_last() =~= Seq::<PlacedHunk>::empty());
    assert(shown_hunks(seq![placed], all_diff_hunks_expanded) =~= match shown_hunk(
        placed,
        all_diff_hunks_expanded,
    ) {
        Some(shown) => seq![shown],
        None => Seq::empty(),
    });
    if more.len() == 0 {
        assert(hunks + more =~= hunks);
        assert(shown_hunks(hunks, all_diff_hunks_expanded) + shown_hunks(
            more,
            all_diff_hunks_expanded,
        ) =~= shown_hunks(hunks, all_diff_hunks_expanded));
    } else {
        shown_hunks_come_in_order(hunks, more.drop_last(), placed, all_diff_hunks_expanded);
        assert((hunks + more).drop_last() =~= hunks + more.drop_last());
        assert((hunks + more).last() == more.last());
        assert(shown_hunks(hunks + more, all_diff_hunks_expanded) =~= shown_hunks(
            hunks,
            all_diff_hunks_expanded,
        ) + shown_hunks(more, all_diff_hunks_expanded));
    }
}

/// A hunk can be staged where something of it is not, and else unstaged; it can be restored unless
/// its file is new; and one can go on from it unless hunks are shown all the time.
pub proof fn controls_are_for_what_can_be_done(setting: HunkSetting)
    ensures
        ({
            let controls = hunk_controls(setting);
            let changes = setting.stageable && setting.show_stage_restore_buttons;
            let faded = setting.status.is_pending;
            &&& forall|control: HunkControl| #[trigger]
                controls.contains(control) <==> match control {
                    HunkControl::Stage { faded: shown } => changes
                        && setting.status.has_secondary_hunk && shown == faded,
                    HunkControl::Unstage { faded: shown } => changes
                        && !setting.status.has_secondary_hunk && shown == faded,
                    HunkControl::Restore { disabled } => changes && disabled
                        == setting.is_created_file,
                    HunkControl::NextHunk | HunkControl::PreviousHunk =>
                        !setting.all_diff_hunks_expanded,
                }
            &&& controls.no_duplicates()
        }),
{
    let controls = hunk_controls(setting);
    assert forall|control: HunkControl| #[trigger]
        controls.contains(control) <==> match control {
            HunkControl::Stage { faded: shown } => setting.stageable
                && setting.show_stage_restore_buttons && setting.status.has_secondary_hunk && shown
                == setting.status.is_pending,
            HunkControl::Unstage { faded: shown } => setting.stageable
                && setting.show_stage_restore_buttons && !setting.status.has_secondary_hunk && shown
                == setting.status.is_pending,
            HunkControl::Restore { disabled } => setting.stageable
                && setting.show_stage_restore_buttons && disabled == setting.is_created_file,
            HunkControl::NextHunk | HunkControl::PreviousHunk => !setting.all_diff_hunks_expanded,
        } by {
        let from: int = if setting.stageable && setting.show_stage_restore_buttons {
            2
        } else {
            0
        };
        if from == 2 {
            assert(controls[0] == if setting.status.has_secondary_hunk {
                HunkControl::Stage { faded: setting.status.is_pending }
            } else {
                HunkControl::Unstage { faded: setting.status.is_pending }
            });
            assert(controls[1] == (HunkControl::Restore { disabled: setting.is_created_file }));
        }
        if !setting.all_diff_hunks_expanded {
            assert(controls[from] == HunkControl::NextHunk);
            assert(controls[from + 1] == HunkControl::PreviousHunk);
        }
    }
}

/// The buttons next to a hunk act on that hunk: it is staged, unstaged and restored where it begins;
/// one goes to the next from its end and to the one before from its beginning.
pub proof fn controls_act_on_their_hunk(control: HunkControl, hunk_range: AnchorRange)
    ensures
        ({
            let action = control_action(control, hunk_range);
            &&& action is None <==> control == (HunkControl::Restore { disabled: true })
            &&& control is Stage ==> action == Some(
                HunkControlAction::StageOrUnstage {
                    stage: true,
                    range: AnchorRange { start: hunk_range.start, end: hunk_range.start },
                },
            )
            &&& control is Unstage ==> action == Some(
                HunkControlAction::StageOrUnstage {
                    stage: false,
                    range: AnchorRange { start: hunk_range.start, end: hunk_range.start },
                },
            )
            &&& control == (HunkControl::Restore { disabled: false }) ==> action == Some(
                HunkControlAction::Restore {
                    range: AnchorRange { start: hunk_range.start, end: hunk_range.start },
                },
            )
            &&& control is NextHunk ==> action == Some(
                HunkControlAction::GoFromHunk { from: hunk_range.end, direction: Direction::Next },
            )
            &&& control is PreviousHunk ==> action == Some(
                HunkControlAction::GoFromHunk {
                    from: hunk_range.start,
                    direction: Direction::Prev,
                },
            )
        }),
{
}

/// A permanent link leads to the lines at the cursor's end of what is selected, from the first to the
/// last, as they are numbered in the text that the buffer is compared with, where it is.
pub proof fn permalinks_lead_to_the_selected_lines(
    before: Seq<SelectedRows>,
    rows: SelectedRows,
    after: Seq<SelectedRows>,
)
    ensures
        ({
            let link = permalink_lines(before.push(rows), false);
            &&& link is Some <==> rows.buffer is Some
            &&& link is Some ==> Some(link->0.buffer) == rows.buffer
            &&& link is Some && rows.base_rows is None ==> link->0.start_row == rows.start_row
                && link->0.end_row == rows.end_row
            &&& link is Some && rows.base_rows is Some ==> link->0.start_row == (rows.base_rows->0).0
                && link->0.end_row == (rows.base_rows->0).1
        }),
        permalink_lines(seq![rows] + after, true) == permalink_lines(before.push(rows), false),
        permalink_lines(Seq::empty(), true) is None,
        permalink_lines(Seq::empty(), false) is None,
{
    assert(before.push(rows).last() == rows);
    assert((seq![rows] + after)[0] == rows);
}

proof fn lemma_merge_from(merges: Seq<MergeView>, buffer: u64, from: int)
    requires
        0 <= from,
    ensures
        merge_from(merges, buffer, from) matches Some(at) ==> from <= at < merges.len()
            && merges[at].buffer == buffer,
        merge_from(merges, buffer, from) is None ==> forall|k: int|
            from <= k < merges.len() ==> (#[trigger] merges[k]).buffer != buffer,
    decreases merges.len() - from,
{
    if from < merges.len() {
        lemma_merge_from(merges, buffer, from + 1);
    }
}

/// The ranges of the hunks of one buffer, in their order.
pub open spec fn ranges_in(hunks: Seq<MultiBufferDiffHunk>, buffer: u64) -> Seq<TextRange> {
    hunks.filter(|hunk: MultiBufferDiffHunk| hunk.buffer_id == buffer).map_values(
        |hunk: MultiBufferDiffHunk| hunk.buffer_range,
    )
}

/// What is taken over of the buffers at hand is their hunks: each buffer that has some is named once,
/// with the ranges of its hunks in their order, and no other buffer is named.
pub proof fn hunks_are_taken_over_by_buffers(
    hunks: Seq<MultiBufferDiffHunk>,
    buffers: Seq<u64>,
)
    ensures
        forall|m: int|
            0 <= m < merges_of(hunks, buffers).len() ==> buffers.contains(
                (#[trigger] merges_of(hunks, buffers)[m]).buffer,
            ) && merges_of(hunks, buffers)[m].ranges == ranges_in(
                hunks,
                merges_of(hunks, buffers)[m].buffer,
            ),
        forall|i: int|
            0 <= i < hunks.len() && buffers.contains((#[trigger] hunks[i]).buffer_id)
                ==> exists|m: int|
                0 <= m < merges_of(hunks, buffers).len() && (#[trigger] merges_of(
                    hunks,
                    buffers,
                )[m]).buffer == hunks[i].buffer_id,
        forall|m: int, n: int|
            0 <= m < n < merges_of(hunks, buffers).len() ==> (#[trigger] merges_of(
                hunks,
                buffers,
            )[m]).buffer != (#[trigger] merges_of(hunks, buffers)[n]).buffer,
    decreases hunks.len(),
{
    reveal(Seq::filter);
    if hunks.len() > 0 {
        let rest = hunks.drop_last();
        let hunk = hunks.last();
        hunks_are_taken_over_by_buffers(rest, buffers);
        let before = merges_of(rest, buffers);
        let now = merges_of(hunks, buffers);
        lemma_merge_from(before, hunk.buffer_id, 0);
        assert forall|buffer: u64| #[trigger]
            ranges_in(hunks, buffer) == (if hunk.buffer_id == buffer {
                ranges_in(rest, buffer).push(hunk.buffer_range)
            } else {
                ranges_in(rest, buffer)
            }) by {
            assert(ranges_in(hunks, buffer) =~= (if hunk.buffer_id == buffer {
                ranges_in(rest, buffer).push(hunk.buffer_range)
            } else {
                ranges_in(rest, buffer)
            }));
        }
        if buffers.contains(hunk.buffer_id) {
            if merge_from(before, hunk.buffer_id, 0) is None {
                lemma_no_ranges(rest, hunk.buffer_id, buffers);
                assert(now[now.len() - 1].ranges =~= ranges_in(hunks, hunk.buffer_id));
            }
            assert forall|m: int| 0 <= m < now.len() implies buffers.contains(
                (#[trigger] now[m]).buffer,
            ) && now[m].ranges == ranges_in(hunks, now[m].buffer) by {
                if m < before.len() {
                    assert(before[m].buffer == now[m].buffer);
                }
            }
        }
        assert forall|i: int|
            0 <= i < hunks.len() && buffers.contains(
                (#[trigger] hunks[i]).buffer_id,
            ) implies exists|m: int|
            0 <= m < now.len() && (#[trigger] now[m]).buffer == hunks[i].buffer_id by {
            if i < rest.len() {
                assert(rest[i] == hunks[i]);
                let m = choose|m: int|
                    0 <= m < before.len() && (#[trigger] before[m]).buffer == rest[i].buffer_id;
                assert(now[m].buffer == before[m].buffer);
            } else {
                match merge_from(before, hunk.buffer_id, 0) {
                    Some(at) => {
                        assert(now[at].buffer == hunk.buffer_id);
                    },
                    None => {
                        assert(now[before.len() as int].buffer == hunk.buffer_id);
                    },
                }
            }
        }
        assert forall|m: int, n: int| 0 <= m < n < now.len() implies (#[trigger] now[m]).buffer != (
        #[trigger] now[n]).buffer by {
            assert(m < before.len());
            assert(before[m].buffer == now[m].buffer);
            if n < before.len() {
                assert(before[n].buffer == now[n].buffer);
            }
        }
    }
}

proof fn lemma_no_ranges(hunks: Seq<MultiBufferDiffHunk>, buffer: u64, buffers: Seq<u64>)
    requires
        buffers.contains(buffer),
        forall|i: int|
            0 <= i < hunks.len() && buffers.contains((#[trigger] hunks[i]).buffer_id)
                ==> exists|m: int|
                0 <= m < merges_of(hunks, buffers).len() && (#[trigger] merges_of(
                    hunks,
                    buffers,
                )[m]).buffer == hunks[i].buffer_id,
        forall|m: int|
            0 <= m < merges_of(hunks, buffers).len() ==> (#[trigger] merges_of(
                hunks,
                buffers,
            )[m]).buffer != buffer,
    ensures
        ranges_in(hunks, buffer).len() == 0,
{
    let keep = |hunk: MultiBufferDiffHunk| hunk.buffer_id == buffer;
    let kept = hunks.filter(keep);
    if kept.len() > 0 {
        lemma_kept(hunks, buffer, 0);
        let i = choose|i: int| 0 <= i < hunks.len() && hunks[i] == kept[0];
        assert(buffers.contains(hunks[i].buffer_id));
    }
}

proof fn lemma_kept(hunks: Seq<MultiBufferDiffHunk>, buffer: u64, k: int)
    requires
        0 <= k < hunks.filter(|hunk: MultiBufferDiffHunk| hunk.buffer_id == buffer).len(),
    ensures
        ({
            let kept = hunks.filter(|hunk: MultiBufferDiffHunk| hunk.buffer_id == buffer);
            hunks.contains(kept[k]) && kept[k].buffer_id == buffer
        }),
    decreases hunks.len(),
{
    reveal(Seq::filter);
    if hunks.len() > 0 {
        let rest = hunks.drop_last();
        let before = rest.filter(|hunk: MultiBufferDiffHunk| hunk.buffer_id == buffer);
        if k < before.len() {
            lemma_kept(rest, buffer, k);
            let i = choose|i: int| 0 <= i < rest.len() && rest[i] == before[k];
            assert(hunks[i] == before[k]);
        } else {
            assert(hunks[hunks.len() - 1] == hunks.last());
        }
    }
}

/// The first status that is given counts.
pub proof fn the_first_override_counts<S>(options: Seq<Option<S>>, k: int)
    requires
        0 <= k <= options.len(),
        k < options.len() ==> options[k] is Some,
        forall|j: int| 0 <= j < k ==> (#[trigger] options[j]) is None,
    ensures
        first_some(options, 0) == if k < options.len() {
            options[k]
        } else {
            None
        },
{
    lemma_first_some(options, 0, k);
}

proof fn lemma_first_some<S>(options: Seq<Option<S>>, from: int, k: int)
    requires
        0 <= from <= k <= options.len(),
        k < options.len() ==> options[k] is Some,
        forall|j: int| from <= j < k ==> (#[trigger] options[j]) is None,
    ensures
        first_some(options, from) == if k < options.len() {
            options[k]
        } else {
            None
        },
    decreases k - from,
{
    if from < k {
        lemma_first_some(options, from + 1, k);
    }
}

} // verus!
