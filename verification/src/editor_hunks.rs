//! Going to, showing, staging and restoring the hunks of the diff in an editor.

use crate::diff_hunks::{
    hunks_for_ranges, hunks_in, hunks_of, resolve_diff_hunks, resolved_hunks, resolved_views,
    take_hunks_in, BufferDiffState, DiffHunkStatus, HunkQuery, MultiBufferDiffHunk, RangeHunks,
    ResolvedDiffHunks, ResolvedView,
};
use crate::editor::{DelegateKind, Editor};
use crate::editor_effect::{EditorEffect, EffectView, HunkScope};
use crate::hunk_delegate::{
    action_views, ask_delegate, restore_diff_hunks, revert_actions, DelegateRequest,
    DiffHunkDelegate, HunkAction, HunkActionView, HunkHost, RestoreOnlyDiffHunkDelegate, RestoreOnlyUnstagedDiffHunkDelegate,
    UncommittedDiffHunkDelegate,
};
use crate::hunk_display::{HunkControl, HunkSetting};
use crate::review_comment::AnchorRange;
use crate::review_snapshot::Point;
use vstd::prelude::*;

verus! {

/// Which way to go.
#[derive(Clone, Copy, Debug, PartialEq, Eq, Structural)]
pub enum Direction {
    Prev,
    Next,
}

/// The hunks around a position.
#[derive(Clone, Debug)]
pub struct HunkSearch {
    /// Those from the position to the end.
    pub after: Vec<MultiBufferDiffHunk>,
    /// Those from the beginning to the position.
    pub before: Vec<MultiBufferDiffHunk>,
    /// The row of the last hunk before the position.
    pub row_before: Option<u32>,
    /// The row of the last hunk of all.
    pub last_row: Option<u32>,
}

/// The row of the first hunk at or after `from` that begins after `row`.
pub open spec fn row_after(hunks: Seq<MultiBufferDiffHunk>, row: u32, from: int) -> Option<u32>
    decreases hunks.len() - from,
{
    if from < 0 || from >= hunks.len() {
        None
    } else if hunks[from].start_row > row {
        Some(hunks[from].start_row)
    } else {
        row_after(hunks, row, from + 1)
    }
}

/// The row of the first hunk at or after `from` that ends before `row`.
pub open spec fn row_ended_before(
    hunks: Seq<MultiBufferDiffHunk>,
    row: u32,
    from: int,
) -> Option<u32>
    decreases hunks.len() - from,
{
    if from < 0 || from >= hunks.len() {
        None
    } else if hunks[from].end_row < row {
        Some(hunks[from].start_row)
    } else {
        row_ended_before(hunks, row, from + 1)
    }
}

/// The row to go to: that of the next hunk, or of the one before, and where there is none and
/// one may go round, that of the first or of the last.
pub open spec fn row_to_go_to(
    search: HunkSearch,
    position: Point,
    direction: Direction,
    wrap_around: bool,
) -> Option<u32> {
    match direction {
        Direction::Next => match row_after(search.after@, position.row, 0) {
            Some(row) => Some(row),
            None => if wrap_around {
                row_ended_before(search.before@, position.row, 0)
            } else {
                None
            },
        },
        Direction::Prev => match search.row_before {
            Some(row) => Some(row),
            None => if wrap_around {
                search.last_row
            } else {
                None
            },
        },
    }
}

/// What going to a hunk does.
pub open spec fn goes_to_hunk(
    before: Editor,
    after: Editor,
    search: HunkSearch,
    position: Point,
    direction: Direction,
    wrap_around: bool,
) -> bool {
    match row_to_go_to(search, position, direction, wrap_around) {
        Some(row) => {
            &&& after == (Editor { effects: after.effects, ..before })
            &&& after.asked() == before.asked().push(
                EffectView::GoTo { point: Point { row, column: 0 } },
            )
        },
        None => after == before,
    }
}

/// The groups that can be staged.
pub open spec fn stageable_groups(groups: Seq<ResolvedView>) -> Seq<ResolvedView>
    decreases groups.len(),
{
    if groups.len() == 0 {
        Seq::empty()
    } else {
        let before = stageable_groups(groups.drop_last());
        if groups.last().is_stageable {
            before.push(groups.last())
        } else {
            before
        }
    }
}

/// The groups that something is done to. Where the editor was given a way to do it, that way
/// decides; else only what can be staged counts.
pub open spec fn groups_for(
    editor: Editor,
    hunks: Seq<MultiBufferDiffHunk>,
    diffs: Seq<BufferDiffState>,
) -> Seq<ResolvedView> {
    if editor.diff_hunk_delegate is None {
        stageable_groups(resolved_hunks(hunks, diffs))
    } else {
        resolved_hunks(hunks, diffs)
    }
}

/// The way to stage and restore hunks that an editor has.
pub open spec fn delegate_of(editor: Editor) -> DelegateKind {
    match editor.diff_hunk_delegate {
        Some(delegate) => delegate,
        None => DelegateKind::Uncommitted,
    }
}

/// The editor as what hunks are shown in.
pub open spec fn host_of(editor: Editor) -> HunkHost {
    HunkHost { has_project: editor.has_project, read_only: editor.read_only }
}

impl DelegateKind {
    /// What toggling hunks takes.
    pub open spec fn toggles(&self, groups: Seq<ResolvedView>, host: HunkHost) -> Seq<
        HunkActionView,
    > {
        match self {
            DelegateKind::Uncommitted => UncommittedDiffHunkDelegate.toggles(groups, host),
            DelegateKind::RestoreOnly => RestoreOnlyDiffHunkDelegate.toggles(groups, host),
            DelegateKind::RestoreOnlyUnstaged => RestoreOnlyUnstagedDiffHunkDelegate.toggles(
                groups,
                host,
            ),
            DelegateKind::Custom(delegate) => seq![
                HunkActionView::AskDelegate {
                    delegate: *delegate,
                    request: DelegateRequest::Toggle,
                    groups,
                },
            ],
        }
    }

    /// What staging, or unstaging, hunks takes.
    pub open spec fn stages(&self, stage: bool, groups: Seq<ResolvedView>, host: HunkHost) -> Seq<
        HunkActionView,
    > {
        match self {
            DelegateKind::Uncommitted => UncommittedDiffHunkDelegate.stages(stage, groups, host),
            DelegateKind::RestoreOnly => RestoreOnlyDiffHunkDelegate.stages(stage, groups, host),
            DelegateKind::RestoreOnlyUnstaged => RestoreOnlyUnstagedDiffHunkDelegate.stages(
                stage,
                groups,
                host,
            ),
            DelegateKind::Custom(delegate) => seq![
                HunkActionView::AskDelegate {
                    delegate: *delegate,
                    request: DelegateRequest::StageOrUnstage { stage },
                    groups,
                },
            ],
        }
    }

    /// What restoring hunks takes.
    pub open spec fn restores(&self, groups: Seq<ResolvedView>, host: HunkHost) -> Seq<
        HunkActionView,
    > {
        match self {
            DelegateKind::Uncommitted => UncommittedDiffHunkDelegate.restores(groups, host),
            DelegateKind::RestoreOnly => RestoreOnlyDiffHunkDelegate.restores(groups, host),
            DelegateKind::RestoreOnlyUnstaged => RestoreOnlyUnstagedDiffHunkDelegate.restores(
                groups,
                host,
            ),
            DelegateKind::Custom(delegate) => seq![
                HunkActionView::AskDelegate {
                    delegate: *delegate,
                    request: DelegateRequest::Restore,
                    groups,
                },
            ],
        }
    }

    /// The buttons that are shown next to a hunk, where the library can tell.
    pub open spec fn controls(&self, setting: HunkSetting) -> Option<Seq<HunkControl>> {
        match self {
            DelegateKind::Uncommitted => Some(UncommittedDiffHunkDelegate.controls(setting)),
            DelegateKind::RestoreOnly => Some(RestoreOnlyDiffHunkDelegate.controls(setting)),
            DelegateKind::RestoreOnlyUnstaged => Some(
                RestoreOnlyUnstagedDiffHunkDelegate.controls(setting),
            ),
            DelegateKind::Custom(_) => None,
        }
    }

    /// Whether a hunk is shown as one that is staged, where the library can tell.
    pub open spec fn shows_as_staged(&self, status: DiffHunkStatus) -> Option<bool> {
        match self {
            DelegateKind::Uncommitted => Some(UncommittedDiffHunkDelegate.shows_as_staged(status)),
            DelegateKind::RestoreOnly => Some(RestoreOnlyDiffHunkDelegate.shows_as_staged(status)),
            DelegateKind::RestoreOnlyUnstaged => Some(
                RestoreOnlyUnstagedDiffHunkDelegate.shows_as_staged(status),
            ),
            DelegateKind::Custom(_) => None,
        }
    }

    /// Stages hunks, or unstages them where nothing is left to stage.
    pub fn toggle(&self, hunks: &Vec<ResolvedDiffHunks>, host: &HunkHost) -> (actions: Vec<
        HunkAction,
    >)
        ensures
            action_views(actions@) == self.toggles(resolved_views(hunks@), *host),
    {
        match self {
            DelegateKind::Uncommitted => UncommittedDiffHunkDelegate.toggle(hunks, host),
            DelegateKind::RestoreOnly => RestoreOnlyDiffHunkDelegate.toggle(hunks, host),
            DelegateKind::RestoreOnlyUnstaged => RestoreOnlyUnstagedDiffHunkDelegate.toggle(
                hunks,
                host,
            ),
            DelegateKind::Custom(delegate) => ask_delegate(
                *delegate,
                DelegateRequest::Toggle,
                hunks,
            ),
        }
    }

    /// Stages hunks, or unstages them.
    pub fn stage_or_unstage(
        &self,
        stage: bool,
        hunks: &Vec<ResolvedDiffHunks>,
        host: &HunkHost,
    ) -> (actions: Vec<HunkAction>)
        ensures
            action_views(actions@) == self.stages(stage, resolved_views(hunks@), *host),
    {
        match self {
            DelegateKind::Uncommitted => UncommittedDiffHunkDelegate.stage_or_unstage(
                stage,
                hunks,
                host,
            ),
            DelegateKind::RestoreOnly => RestoreOnlyDiffHunkDelegate.stage_or_unstage(
                stage,
                hunks,
                host,
            ),
            DelegateKind::RestoreOnlyUnstaged =>
                RestoreOnlyUnstagedDiffHunkDelegate.stage_or_unstage(stage, hunks, host),
            DelegateKind::Custom(delegate) => ask_delegate(
                *delegate,
                DelegateRequest::StageOrUnstage { stage },
                hunks,
            ),
        }
    }

    /// Unstages hunks and has them read again as what they are compared with.
    pub fn restore(&self, hunks: &Vec<ResolvedDiffHunks>, host: &HunkHost) -> (actions: Vec<
        HunkAction,
    >)
        ensures
            action_views(actions@) == self.restores(resolved_views(hunks@), *host),
    {
        match self {
            DelegateKind::Uncommitted => UncommittedDiffHunkDelegate.restore(hunks, host),
            DelegateKind::RestoreOnly => RestoreOnlyDiffHunkDelegate.restore(hunks, host),
            DelegateKind::RestoreOnlyUnstaged => RestoreOnlyUnstagedDiffHunkDelegate.restore(
                hunks,
                host,
            ),
            DelegateKind::Custom(delegate) => ask_delegate(
                *delegate,
                DelegateRequest::Restore,
                hunks,
            ),
        }
    }

    /// The buttons that are shown next to a hunk. One that is not of this library has to be asked.
    pub fn render_hunk_controls(&self, setting: &HunkSetting) -> (controls: Option<
        Vec<HunkControl>,
    >)
        ensures
            match (controls, self.controls(*setting)) {
                (Some(controls), Some(shown)) => controls@ == shown,
                (None, None) => true,
                _ => false,
            },
    {
        match self {
            DelegateKind::Uncommitted => Some(
                UncommittedDiffHunkDelegate.render_hunk_controls(setting),
            ),
            DelegateKind::RestoreOnly => Some(
                RestoreOnlyDiffHunkDelegate.render_hunk_controls(setting),
            ),
            DelegateKind::RestoreOnlyUnstaged => Some(
                RestoreOnlyUnstagedDiffHunkDelegate.render_hunk_controls(setting),
            ),
            DelegateKind::Custom(_) => None,
        }
    }

    /// Whether a hunk is shown as one that is staged. One that is not of this library has to be
    /// asked.
    pub fn render_hunk_as_staged(&self, status: &DiffHunkStatus) -> (staged: Option<bool>)
        ensures
            staged == self.shows_as_staged(*status),
    {
        match self {
            DelegateKind::Uncommitted => Some(
                UncommittedDiffHunkDelegate.render_hunk_as_staged(status),
            ),
            DelegateKind::RestoreOnly => Some(
                RestoreOnlyDiffHunkDelegate.render_hunk_as_staged(status),
            ),
            DelegateKind::RestoreOnlyUnstaged => Some(
                RestoreOnlyUnstagedDiffHunkDelegate.render_hunk_as_staged(status),
            ),
            DelegateKind::Custom(_) => None,
        }
    }
}

fn keep_stageable(groups: Vec<ResolvedDiffHunks>) -> (kept: Vec<ResolvedDiffHunks>)
    ensures
        resolved_views(kept@) == stageable_groups(resolved_views(groups@)),
{
    let ghost all = resolved_views(groups@);
    let mut kept = groups;
    let mut at: usize = 0;
    let ghost mut seen: int = 0;
    assert(stageable_groups(all.take(0)) + all.skip(0) =~= all);
    while at < kept.len()
        invariant
            0 <= seen <= all.len(),
            at == stageable_groups(all.take(seen)).len(),
            resolved_views(kept@) == stageable_groups(all.take(seen)) + all.skip(seen),
        decreases all.len() - seen,
    {
        let ghost before = kept@;
        let ghost group = all[seen];
        let ghost done = stageable_groups(all.take(seen));
        proof {
            assert(resolved_views(kept@)[at as int] == group);
            assert(kept@[at as int]@ == group);
            assert(all.take(seen + 1).drop_last() =~= all.take(seen));
            assert(all.take(seen + 1).last() == group);
            assert(all.skip(seen) =~= seq![group] + all.skip(seen + 1));
        }
        if kept[at].is_stageable {
            assert(done + all.skip(seen) =~= done.push(group) + all.skip(seen + 1));
            at += 1;
        } else {
            let _ = kept.remove(at);
            proof {
                assert(resolved_views(kept@) =~= resolved_views(before).remove(at as int));
                assert(resolved_views(kept@) =~= done + all.skip(seen + 1));
            }
        }
        proof {
            seen = seen + 1;
        }
    }
    proof {
        assert(seen == all.len());
        assert(all.take(seen) =~= all);
        assert(resolved_views(kept@) =~= stageable_groups(all));
    }
    kept
}

/// Where looking for the hunks of a range ends: at the beginning of the row below it, if there is
/// one, so that what was deleted there is found.
pub fn hunk_search_end(range_end: Point, max_row: u32) -> (end: Point)
    ensures
        end == if range_end.row < max_row {
            Point { row: (range_end.row + 1) as u32, column: 0 }
        } else {
            range_end
        },
{
    if range_end.row < max_row {
        Point { row: range_end.row + 1, column: 0 }
    } else {
        range_end
    }
}

/// A buffer that may have to be saved.
#[derive(Clone, Copy, Debug, PartialEq, Eq, Structural)]
pub struct BufferSaveState {
    pub buffer: u64,
    /// Whether its file is on disk.
    pub on_disk: bool,
    pub is_dirty: bool,
}

/// The buffers that have to be saved before their hunks are staged, each once.
pub open spec fn buffers_to_save(buffers: Seq<BufferSaveState>) -> Seq<u64>
    decreases buffers.len(),
{
    if buffers.len() == 0 {
        Seq::empty()
    } else {
        let before = buffers_to_save(buffers.drop_last());
        let state = buffers.last();
        if state.on_disk && state.is_dirty && !before.contains(state.buffer) {
            before.push(state.buffer)
        } else {
            before
        }
    }
}

/// The buffers that have a file of the project.
pub open spec fn buffers_with_files(buffers: Seq<(u64, bool)>) -> Seq<u64>
    decreases buffers.len(),
{
    if buffers.len() == 0 {
        Seq::empty()
    } else if buffers.last().1 {
        buffers_with_files(buffers.drop_last()).push(buffers.last().0)
    } else {
        buffers_with_files(buffers.drop_last())
    }
}

/// The diffs that could be loaded.
pub open spec fn loaded_diffs(diffs: Seq<Option<u64>>) -> Seq<u64>
    decreases diffs.len(),
{
    if diffs.len() == 0 {
        Seq::empty()
    } else {
        match diffs.last() {
            Some(diff) => loaded_diffs(diffs.drop_last()).push(diff),
            None => loaded_diffs(diffs.drop_last()),
        }
    }
}

impl Editor {
    /// The hunks in some ranges.
    pub fn diff_hunks_in_ranges(&self, ranges: &Vec<RangeHunks>) -> (hunks: Vec<
        MultiBufferDiffHunk,
    >)
        ensures
            hunks@ == hunks_in(ranges@),
    {
        take_hunks_in(ranges)
    }

    /// The way to stage and restore hunks that the editor has.
    pub fn diff_hunk_delegate(&self) -> (delegate: DelegateKind)
        ensures
            delegate == delegate_of(*self),
    {
        match self.diff_hunk_delegate {
            Some(delegate) => delegate,
            None => DelegateKind::Uncommitted,
        }
    }

    /// Gives the editor a way to stage and restore hunks, or takes it away. Without one the diff
    /// against the last commit is shown; with one it is not.
    pub fn set_diff_hunk_delegate(&mut self, delegate: Option<DelegateKind>)
        ensures
            *final(self) == (Editor {
                diff_hunk_delegate: delegate,
                effects: final(self).effects,
                ..*old(self)
            }),
            final(self).asked() == old(self).asked() + match (
                old(self).diff_hunk_delegate,
                delegate,
            ) {
                (None, Some(_)) => seq![EffectView::CancelDiffLoad],
                (Some(_), None) => if old(self).has_project {
                    seq![EffectView::CollapseAllDiffHunks, EffectView::LoadDiff]
                } else {
                    seq![EffectView::CollapseAllDiffHunks]
                },
                _ => Seq::empty(),
            },
    {
        let had_delegate = self.diff_hunk_delegate.is_some();
        let has_delegate = delegate.is_some();
        self.diff_hunk_delegate = delegate;
        if !had_delegate && has_delegate {
            self.ask(EditorEffect::CancelDiffLoad);
        } else if had_delegate && !has_delegate {
            self.ask(EditorEffect::CollapseAllDiffHunks);
            if self.has_project {
                self.ask(EditorEffect::LoadDiff);
            }
        }
        assert(self.asked() =~= old(self).asked() + match (old(self).diff_hunk_delegate, delegate) {
            (None, Some(_)) => seq![EffectView::CancelDiffLoad],
            (Some(_), None) => if old(self).has_project {
                seq![EffectView::CollapseAllDiffHunks, EffectView::LoadDiff]
            } else {
                seq![EffectView::CollapseAllDiffHunks]
            },
            _ => Seq::empty(),
        });
    }

    /// The buffers whose diff against the last commit is to be loaded: each is told with whether
    /// it has a file of the project, and those that have one are.
    pub fn update_uncommitted_diff_for_buffer(&self, buffers: &Vec<(u64, bool)>) -> (loaded: Vec<u64>)
        ensures
            loaded@ == buffers_with_files(buffers@),
    {
        let mut loaded: Vec<u64> = Vec::new();
        let mut k: usize = 0;
        while k < buffers.len()
            invariant
                k <= buffers@.len(),
                loaded@ == buffers_with_files(buffers@.take(k as int)),
            decreases buffers.len() - k,
        {
            proof {
                assert(buffers@.take(k + 1).drop_last() =~= buffers@.take(k as int));
                assert(buffers@.take(k + 1).last() == buffers@[k as int]);
            }
            if buffers[k].1 {
                loaded.push(buffers[k].0);
            }
            k += 1;
        }
        assert(buffers@.take(k as int) =~= buffers@);
        loaded
    }

    /// The diffs to show of those that were to be loaded: all that could be, unless the editor has
    /// been given a way to stage and restore hunks since.
    pub fn uncommitted_diffs_loaded(&self, diffs: &Vec<Option<u64>>) -> (shown: Vec<u64>)
        ensures
            shown@ == if self.diff_hunk_delegate is None {
                loaded_diffs(diffs@)
            } else {
                Seq::empty()
            },
    {
        let mut shown: Vec<u64> = Vec::new();
        if self.diff_hunk_delegate.is_some() {
            assert(shown@ =~= Seq::empty());
            return shown;
        }
        let mut k: usize = 0;
        while k < diffs.len()
            invariant
                k <= diffs@.len(),
                shown@ == loaded_diffs(diffs@.take(k as int)),
            decreases diffs.len() - k,
        {
            proof {
                assert(diffs@.take(k + 1).drop_last() =~= diffs@.take(k as int));
                assert(diffs@.take(k + 1).last() == diffs@[k as int]);
            }
            if let Some(diff) = diffs[k] {
                shown.push(diff);
            }
            k += 1;
        }
        assert(diffs@.take(k as int) =~= diffs@);
        shown
    }

    fn groups_to_change(
        &self,
        hunks: &Vec<MultiBufferDiffHunk>,
        diffs: &Vec<BufferDiffState>,
    ) -> (groups: Vec<ResolvedDiffHunks>)
        ensures
            resolved_views(groups@) == groups_for(*self, hunks@, diffs@),
    {
        let groups = resolve_diff_hunks(hunks, diffs);
        if self.diff_hunk_delegate.is_none() {
            keep_stageable(groups)
        } else {
            groups
        }
    }

    fn host(&self) -> (host: HunkHost)
        ensures
            host == host_of(*self),
    {
        HunkHost { has_project: self.has_project, read_only: self.read_only }
    }

    /// Stages hunks, or unstages them where nothing is left to stage.
    pub fn apply_toggle(
        &self,
        hunks: &Vec<MultiBufferDiffHunk>,
        diffs: &Vec<BufferDiffState>,
    ) -> (actions: Vec<HunkAction>)
        ensures
            ({
                let groups = groups_for(*self, hunks@, diffs@);
                action_views(actions@) == if groups.len() == 0 {
                    Seq::empty()
                } else {
                    delegate_of(*self).toggles(groups, host_of(*self))
                }
            }),
    {
        let groups = self.groups_to_change(hunks, diffs);
        if groups.len() == 0 {
            let none: Vec<HunkAction> = Vec::new();
            assert(action_views(none@) =~= Seq::empty());
            return none;
        }
        assert(resolved_views(groups@).len() > 0);
        self.diff_hunk_delegate().toggle(&groups, &self.host())
    }

    /// Stages hunks, or unstages them.
    pub fn apply_stage_or_unstage(
        &self,
        stage: bool,
        hunks: &Vec<MultiBufferDiffHunk>,
        diffs: &Vec<BufferDiffState>,
    ) -> (actions: Vec<HunkAction>)
        ensures
            ({
                let groups = groups_for(*self, hunks@, diffs@);
                action_views(actions@) == if groups.len() == 0 {
                    Seq::empty()
                } else {
                    delegate_of(*self).stages(stage, groups, host_of(*self))
                }
            }),
    {
        let groups = self.groups_to_change(hunks, diffs);
        if groups.len() == 0 {
            let none: Vec<HunkAction> = Vec::new();
            assert(action_views(none@) =~= Seq::empty());
            return none;
        }
        assert(resolved_views(groups@).len() > 0);
        self.diff_hunk_delegate().stage_or_unstage(stage, &groups, &self.host())
    }

    /// Has hunks read again as what they are compared with.
    pub fn apply_restore(
        &self,
        hunks: &Vec<MultiBufferDiffHunk>,
        diffs: &Vec<BufferDiffState>,
    ) -> (actions: Vec<HunkAction>)
        ensures
            action_views(actions@) == applied_restore(*self, hunks@, diffs@),
    {
        let groups = self.groups_to_change(hunks, diffs);
        if groups.len() == 0 {
            let none: Vec<HunkAction> = Vec::new();
            assert(action_views(none@) =~= Seq::empty());
            return none;
        }
        assert(resolved_views(groups@).len() > 0);
        self.diff_hunk_delegate().restore(&groups, &self.host())
    }

    /// What restoring hunks takes.
    pub fn restore_diff_hunks(&self, hunks: &Vec<ResolvedDiffHunks>) -> (actions: Vec<HunkAction>)
        ensures
            action_views(actions@) == revert_actions(resolved_views(hunks@)),
    {
        restore_diff_hunks(hunks)
    }

    /// Stages, or unstages, the hunks in some ranges.
    pub fn stage_or_unstage_diff_hunks(
        &self,
        stage: bool,
        ranges: &Vec<RangeHunks>,
        diffs: &Vec<BufferDiffState>,
    ) -> (actions: Vec<HunkAction>)
        ensures
            ({
                let groups = groups_for(*self, hunks_in(ranges@), diffs@);
                action_views(actions@) == if groups.len() == 0 {
                    Seq::empty()
                } else {
                    delegate_of(*self).stages(stage, groups, host_of(*self))
                }
            }),
    {
        let hunks = self.diff_hunks_in_ranges(ranges);
        self.apply_stage_or_unstage(stage, &hunks, diffs)
    }

    /// Restores the hunks in some ranges.
    pub fn restore_diff_hunks_in_ranges(
        &self,
        ranges: &Vec<RangeHunks>,
        diffs: &Vec<BufferDiffState>,
    ) -> (actions: Vec<HunkAction>)
        ensures
            action_views(actions@) == applied_restore(*self, hunks_in(ranges@), diffs@),
    {
        let hunks = self.diff_hunks_in_ranges(ranges);
        self.apply_restore(&hunks, diffs)
    }

    /// Restores the hunks on some rows.
    pub fn restore_hunks_in_ranges(
        &self,
        queries: &Vec<HunkQuery>,
        diffs: &Vec<BufferDiffState>,
    ) -> (actions: Vec<HunkAction>)
        requires
            forall|i: int| 0 <= i < queries@.len() ==> (#[trigger] queries@[i]).end_row < u32::MAX,
        ensures
            action_views(actions@) == applied_restore(*self, hunks_of(queries@), diffs@),
    {
        let hunks = hunks_for_ranges(queries);
        self.apply_restore(&hunks, diffs)
    }

    /// Restores the hunks on the rows that are selected, unless the text must not be changed.
    pub fn git_restore(&self, queries: &Vec<HunkQuery>, diffs: &Vec<BufferDiffState>) -> (actions:
        Vec<HunkAction>)
        requires
            forall|i: int| 0 <= i < queries@.len() ==> (#[trigger] queries@[i]).end_row < u32::MAX,
        ensures
            action_views(actions@) == if self.read_only {
                Seq::empty()
            } else {
                applied_restore(*self, hunks_of(queries@), diffs@)
            },
    {
        if self.read_only {
            let none: Vec<HunkAction> = Vec::new();
            assert(action_views(none@) =~= Seq::empty());
            return none;
        }
        self.restore_hunks_in_ranges(queries, diffs)
    }

    /// Restores the hunks of the files that are selected, unless the text must not be changed.
    pub fn restore_file(&self, queries: &Vec<HunkQuery>, diffs: &Vec<BufferDiffState>) -> (actions:
        Vec<HunkAction>)
        requires
            forall|i: int| 0 <= i < queries@.len() ==> (#[trigger] queries@[i]).end_row < u32::MAX,
        ensures
            action_views(actions@) == if self.read_only {
                Seq::empty()
            } else {
                applied_restore(*self, hunks_of(queries@), diffs@)
            },
    {
        self.git_restore(queries, diffs)
    }

    /// Restores the hunks on the rows that are selected, after which one goes on to the next. An
    /// editor whose text must not be changed does neither.
    pub fn restore_and_next(&self, queries: &Vec<HunkQuery>, diffs: &Vec<BufferDiffState>) -> (actions:
        Option<Vec<HunkAction>>)
        requires
            forall|i: int| 0 <= i < queries@.len() ==> (#[trigger] queries@[i]).end_row < u32::MAX,
        ensures
            match actions {
                Some(actions) => !self.read_only && action_views(actions@) == applied_restore(
                    *self,
                    hunks_of(queries@),
                    diffs@,
                ),
                None => self.read_only,
            },
    {
        if self.read_only {
            return None;
        }
        Some(self.restore_hunks_in_ranges(queries, diffs))
    }

    /// Goes from a hunk to the one after or before it, round the end or the beginning where there
    /// is none, and shows what is then selected of the diff.
    pub fn go_from_hunk(&mut self, search: &HunkSearch, position: Point, direction: Direction)
        ensures
            *final(self) == (Editor { effects: final(self).effects, ..*old(self) }),
            final(self).asked() == old(self).asked() + match row_to_go_to(
                *search,
                position,
                direction,
                true,
            ) {
                Some(row) => seq![EffectView::GoTo { point: Point { row, column: 0 } }],
                None => Seq::empty(),
            } + seq![EffectView::ExpandDiffHunks { scope: HunkScope::Selected }],
    {
        self.go_to_hunk_before_or_after_position(search, position, direction, true);
        self.expand_selected_diff_hunks();
        assert(self.asked() =~= old(self).asked() + match row_to_go_to(
            *search,
            position,
            direction,
            true,
        ) {
            Some(row) => seq![EffectView::GoTo { point: Point { row, column: 0 } }],
            None => Seq::empty(),
        } + seq![EffectView::ExpandDiffHunks { scope: HunkScope::Selected }]);
    }

    /// Goes to the next hunk, or round to the first.
    pub fn go_to_next_hunk(&mut self, search: &HunkSearch, position: Point)
        ensures
            goes_to_hunk(*old(self), *final(self), *search, position, Direction::Next, true),
    {
        self.go_to_hunk_before_or_after_position(search, position, Direction::Next, true);
    }

    /// Goes to the hunk before, or round to the last.
    pub fn go_to_prev_hunk(&mut self, search: &HunkSearch, position: Point)
        ensures
            goes_to_hunk(*old(self), *final(self), *search, position, Direction::Prev, true),
    {
        self.go_to_hunk_before_or_after_position(search, position, Direction::Prev, true);
    }

    /// Goes to the next hunk, or to the one before.
    pub fn go_to_hunk_before_or_after_position(
        &mut self,
        search: &HunkSearch,
        position: Point,
        direction: Direction,
        wrap_around: bool,
    )
        ensures
            goes_to_hunk(
                *old(self),
                *final(self),
                *search,
                position,
                direction,
                wrap_around,
            ),
    {
        let row: Option<u32> = match direction {
            Direction::Next => Self::hunk_after_position(search, position, wrap_around),
            Direction::Prev => match search.row_before {
                Some(row) => Some(row),
                None => if wrap_around {
                    search.last_row
                } else {
                    None
                },
            },
        };
        match row {
            Some(row) => {
                self.ask(EditorEffect::GoTo { point: Point { row, column: 0 } });
            },
            None => {},
        }
    }

    fn hunk_after_position(search: &HunkSearch, position: Point, wrap_around: bool) -> (row: Option<
        u32,
    >)
        ensures
            row == row_to_go_to(*search, position, Direction::Next, wrap_around),
    {
        let mut k: usize = 0;
        while k < search.after.len()
            invariant
                k <= search.after@.len(),
                row_after(search.after@, position.row, 0) == row_after(
                    search.after@,
                    position.row,
                    k as int,
                ),
            decreases search.after@.len() - k,
        {
            if search.after[k].start_row > position.row {
                return Some(search.after[k].start_row);
            }
            k += 1;
        }
        if !wrap_around {
            return None;
        }
        let mut i: usize = 0;
        while i < search.before.len()
            invariant
                i <= search.before@.len(),
                wrap_around,
                row_after(search.after@, position.row, 0) is None,
                row_ended_before(search.before@, position.row, 0) == row_ended_before(
                    search.before@,
                    position.row,
                    i as int,
                ),
            decreases search.before@.len() - i,
        {
            if search.before[i].end_row < position.row {
                return Some(search.before[i].start_row);
            }
            i += 1;
        }
        None
    }

    /// Goes on after hunks were restored, or staged with nothing selected. One goes round only
    /// where not all hunks are shown all the time.
    pub fn go_on_after_change(
        &mut self,
        search: &HunkSearch,
        position: Point,
        all_diff_hunks_expanded: bool,
    )
        ensures
            goes_to_hunk(
                *old(self),
                *final(self),
                *search,
                position,
                Direction::Next,
                !all_diff_hunks_expanded,
            ),
    {
        self.go_to_hunk_before_or_after_position(
            search,
            position,
            Direction::Next,
            !all_diff_hunks_expanded,
        );
    }

    /// Whether to go on after the hunks in some ranges were staged: only where nothing is
    /// selected.
    pub fn goes_on_after_staging(ranges: &Vec<AnchorRange>) -> (goes_on: bool)
        ensures
            goes_on == (forall|i: int|
                0 <= i < ranges@.len() ==> (#[trigger] ranges@[i]).start == ranges@[i].end),
    {
        let mut i: usize = 0;
        while i < ranges.len()
            invariant
                i <= ranges@.len(),
                forall|j: int| 0 <= j < i ==> (#[trigger] ranges@[j]).start == ranges@[j].end,
            decreases ranges.len() - i,
        {
            if ranges[i].start != ranges[i].end {
                assert(ranges@[i as int].start != ranges@[i as int].end);
                return false;
            }
            i += 1;
        }
        true
    }

    /// The buffers that have to be saved before their hunks are staged.
    pub fn save_buffers_for_ranges_if_needed(&self, buffers: &Vec<BufferSaveState>) -> (saved: Vec<
        u64,
    >)
        ensures
            saved@ == if self.has_project {
                buffers_to_save(buffers@)
            } else {
                Seq::empty()
            },
    {
        let mut saved: Vec<u64> = Vec::new();
        if !self.has_project {
            assert(saved@ =~= Seq::empty());
            return saved;
        }
        let mut k: usize = 0;
        while k < buffers.len()
            invariant
                k <= buffers@.len(),
                saved@ == buffers_to_save(buffers@.take(k as int)),
            decreases buffers.len() - k,
        {
            let state = buffers[k];
            proof {
                assert(buffers@.take(k + 1).drop_last() =~= buffers@.take(k as int));
                assert(buffers@.take(k + 1).last() == state);
            }
            if state.on_disk && state.is_dirty {
                let mut known = false;
                let mut i: usize = 0;
                while i < saved.len() && !known
                    invariant
                        i <= saved@.len(),
                        known == (exists|j: int| 0 <= j < i && saved@[j] == state.buffer),
                    decreases saved.len() - i,
                {
                    if saved[i] == state.buffer {
                        known = true;
                        assert(saved@[i as int] == state.buffer);
                    }
                    i += 1;
                }
                assert(known == saved@.contains(state.buffer));
                if !known {
                    saved.push(state.buffer);
                }
            }
            k += 1;
        }
        assert(buffers@.take(k as int) =~= buffers@);
        saved
    }

    /// The status of a buffer: the first that something added to the editor gives, or else that
    /// of the project.
    pub fn status_for_buffer_id<S: Copy>(
        &self,
        overrides: &Vec<Option<S>>,
        project_status: Option<S>,
    ) -> (status: Option<S>)
        ensures
            status == match first_some(overrides@, 0) {
                Some(status) => Some(status),
                None => if self.has_project {
                    project_status
                } else {
                    None
                },
            },
    {
        let mut k: usize = 0;
        while k < overrides.len()
            invariant
                k <= overrides@.len(),
                first_some(overrides@, 0) == first_some(overrides@, k as int),
            decreases overrides.len() - k,
        {
            if let Some(status) = overrides[k] {
                return Some(status);
            }
            k += 1;
        }
        if self.has_project {
            project_status
        } else {
            None
        }
    }

    /// Whether some hunk is shown.
    pub fn has_any_expanded_diff_hunks(
        &self,
        all_diff_hunks_expanded: bool,
        some_expanded: bool,
    ) -> (any: bool)
        ensures
            any == (all_diff_hunks_expanded || some_expanded),
    {
        all_diff_hunks_expanded || some_expanded
    }

    /// Shows the hunks that are selected.
    pub fn expand_selected_diff_hunks(&mut self)
        ensures
            *final(self) == (Editor { effects: final(self).effects, ..*old(self) }),
            final(self).asked() == old(self).asked().push(
                EffectView::ExpandDiffHunks { scope: HunkScope::Selected },
            ),
    {
        self.ask(EditorEffect::ExpandDiffHunks { scope: HunkScope::Selected });
    }

    /// Shows all hunks from now on.
    pub fn set_expand_all_diff_hunks(&mut self)
        ensures
            *final(self) == (Editor { effects: final(self).effects, ..*old(self) }),
            final(self).asked() == old(self).asked().push(EffectView::KeepDiffHunksExpanded),
    {
        self.ask(EditorEffect::KeepDiffHunksExpanded);
    }

    /// Shows all hunks that there are.
    pub fn expand_all_diff_hunks(&mut self)
        ensures
            *final(self) == (Editor { effects: final(self).effects, ..*old(self) }),
            final(self).asked() == old(self).asked().push(
                EffectView::ExpandDiffHunks { scope: HunkScope::All },
            ),
    {
        self.ask(EditorEffect::ExpandDiffHunks { scope: HunkScope::All });
    }

    /// Hides all hunks.
    pub fn collapse_all_diff_hunks(&mut self)
        ensures
            *final(self) == (Editor { effects: final(self).effects, ..*old(self) }),
            final(self).asked() == old(self).asked().push(
                EffectView::CollapseDiffHunks { scope: HunkScope::All },
            ),
    {
        self.ask(EditorEffect::CollapseDiffHunks { scope: HunkScope::All });
    }

    /// Hides all hunks if some are shown, and else shows them.
    pub fn toggle_all_diff_hunks(&mut self, all_diff_hunks_expanded: bool, some_expanded: bool)
        ensures
            *final(self) == (Editor { effects: final(self).effects, ..*old(self) }),
            final(self).asked() == old(self).asked().push(
                if all_diff_hunks_expanded || some_expanded {
                    EffectView::CollapseDiffHunks { scope: HunkScope::All }
                } else {
                    EffectView::ExpandDiffHunks { scope: HunkScope::All }
                },
            ),
    {
        if self.has_any_expanded_diff_hunks(all_diff_hunks_expanded, some_expanded) {
            self.collapse_all_diff_hunks();
        } else {
            self.expand_all_diff_hunks();
        }
    }

    /// Hides the hunks that are selected if some of them are shown, and else shows them.
    pub fn toggle_selected_diff_hunks(&mut self, some_expanded: bool)
        ensures
            *final(self) == (Editor { effects: final(self).effects, ..*old(self) }),
            final(self).asked() == old(self).asked().push(
                if some_expanded {
                    EffectView::CollapseDiffHunks { scope: HunkScope::Selected }
                } else {
                    EffectView::ExpandDiffHunks { scope: HunkScope::Selected }
                },
            ),
    {
        if some_expanded {
            self.ask(EditorEffect::CollapseDiffHunks { scope: HunkScope::Selected });
        } else {
            self.ask(EditorEffect::ExpandDiffHunks { scope: HunkScope::Selected });
        }
    }

    /// Hides what hunks are shown, unless all are shown all the time. Says whether there were
    /// any.
    pub fn clear_expanded_diff_hunks(&mut self, all_diff_hunks_expanded: bool, some_expanded: bool) -> (
        cleared: bool)
        ensures
            cleared == (!all_diff_hunks_expanded && some_expanded),
            !cleared ==> *final(self) == *old(self),
            cleared ==> *final(self) == (Editor { effects: final(self).effects, ..*old(self) })
                && final(self).asked() == old(self).asked().push(
                EffectView::CollapseDiffHunks { scope: HunkScope::All },
            ),
    {
        if !all_diff_hunks_expanded && some_expanded {
            self.collapse_all_diff_hunks();
            true
        } else {
            false
        }
    }
}

/// What restoring hunks takes in an editor.
pub open spec fn applied_restore(
    editor: Editor,
    hunks: Seq<MultiBufferDiffHunk>,
    diffs: Seq<BufferDiffState>,
) -> Seq<HunkActionView> {
    let groups = groups_for(editor, hunks, diffs);
    if groups.len() == 0 {
        Seq::empty()
    } else {
        delegate_of(editor).restores(groups, host_of(editor))
    }
}

/// The first at or after `from` that is there.
pub open spec fn first_some<S>(options: Seq<Option<S>>, from: int) -> Option<S>
    decreases options.len() - from,
{
    if from < 0 || from >= options.len() {
        None
    } else if options[from] is Some {
        options[from]
    } else {
        first_some(options, from + 1)
    }
}

/// Nothing is changed in an editor whose text must not be, whichever of this library's ways to
/// restore hunks it has: restoring takes nothing there.
pub proof fn read_only_text_is_not_reverted(
    editor: Editor,
    hunks: Seq<MultiBufferDiffHunk>,
    diffs: Seq<BufferDiffState>,
)
    requires
        editor.read_only,
        !(delegate_of(editor) is Custom),
    ensures
        applied_restore(editor, hunks, diffs) == Seq::<HunkActionView>::empty(),
{
}

} // verus!
