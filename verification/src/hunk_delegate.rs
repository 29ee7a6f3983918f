//! The ways to stage, unstage and restore hunks.

use crate::diff_hunks::{
    resolved_views, ByteRange, DiffHunkStatus, ResolvedDiffHunk, ResolvedDiffHunks, ResolvedView,
    TextAnchor, TextRange,
};
use crate::hunk_display::{hunk_controls, render_diff_hunk_controls, HunkControl, HunkSetting};
use vstd::prelude::*;

verus! {

/// A part of a buffer that is to read again as the text that it is compared with.
#[derive(Clone, Copy, Debug, PartialEq, Eq, Structural)]
pub struct RevertChange {
    pub buffer_range: TextRange,
    pub diff_base_byte_range: ByteRange,
}

/// What is to be done to hunks.
#[derive(Clone, Debug)]
pub enum HunkAction {
    /// Stage what is in the diff of what is not staged.
    Stage { buffer: u64, secondary_diff: u64, ranges: Vec<TextRange> },
    Unstage { buffer: u64, diff: u64, ranges: Vec<TextRange> },
    /// Say that there is no diff of what is not staged.
    ReportNoSecondaryDiff,
    Revert { buffer: u64, diff: u64, changes: Vec<RevertChange> },
    /// Keep what is selected selected, without scrolling.
    KeepSelections,
    /// Hand hunks to a delegate that is not one of this library's.
    AskDelegate { delegate: u64, request: DelegateRequest, groups: Vec<ResolvedDiffHunks> },
}

/// What a delegate is asked for.
#[derive(Clone, Copy, Debug, PartialEq, Eq, Structural)]
pub enum DelegateRequest {
    Toggle,
    StageOrUnstage { stage: bool },
    Restore,
}

/// What is to be done to hunks, as a value.
pub enum HunkActionView {
    Stage { buffer: u64, secondary_diff: u64, ranges: Seq<TextRange> },
    Unstage { buffer: u64, diff: u64, ranges: Seq<TextRange> },
    ReportNoSecondaryDiff,
    Revert { buffer: u64, diff: u64, changes: Seq<RevertChange> },
    KeepSelections,
    AskDelegate { delegate: u64, request: DelegateRequest, groups: Seq<ResolvedView> },
}

impl View for HunkAction {
    type V = HunkActionView;

    open spec fn view(&self) -> HunkActionView {
        match self {
            HunkAction::Stage { buffer, secondary_diff, ranges } => HunkActionView::Stage {
                buffer: *buffer,
                secondary_diff: *secondary_diff,
                ranges: ranges@,
            },
            HunkAction::Unstage { buffer, diff, ranges } => HunkActionView::Unstage {
                buffer: *buffer,
                diff: *diff,
                ranges: ranges@,
            },
            HunkAction::ReportNoSecondaryDiff => HunkActionView::ReportNoSecondaryDiff,
            HunkAction::Revert { buffer, diff, changes } => HunkActionView::Revert {
                buffer: *buffer,
                diff: *diff,
                changes: changes@,
            },
            HunkAction::KeepSelections => HunkActionView::KeepSelections,
            HunkAction::AskDelegate { delegate, request, groups } => HunkActionView::AskDelegate {
                delegate: *delegate,
                request: *request,
                groups: resolved_views(groups@),
            },
        }
    }
}

/// What is to be done to hunks, as values.
pub open spec fn action_views(actions: Seq<HunkAction>) -> Seq<HunkActionView> {
    actions.map_values(|action: HunkAction| action@)
}

/// The editor that hunks are shown in.
#[derive(Clone, Copy, Debug, PartialEq, Eq, Structural)]
pub struct HunkHost {
    pub has_project: bool,
    pub read_only: bool,
}

/// The ranges of hunks.
pub open spec fn ranges_of(hunks: Seq<ResolvedDiffHunk>) -> Seq<TextRange> {
    hunks.map_values(|hunk: ResolvedDiffHunk| hunk.buffer_range)
}

/// What staging, or unstaging, the hunks of one buffer takes. Nothing is done where the buffer is
/// not at hand.
pub open spec fn group_stage_actions(group: ResolvedView, stage: bool) -> Seq<HunkActionView> {
    match group.buffer {
        Some(buffer) => if group.hunks.len() == 0 {
            Seq::empty()
        } else if !stage {
            seq![
                HunkActionView::Unstage {
                    buffer,
                    diff: group.diff,
                    ranges: ranges_of(group.hunks),
                },
            ]
        } else {
            match group.secondary_diff {
                Some(secondary_diff) => seq![
                    HunkActionView::Stage {
                        buffer,
                        secondary_diff,
                        ranges: ranges_of(group.hunks),
                    },
                ],
                None => seq![HunkActionView::ReportNoSecondaryDiff],
            }
        },
        None => Seq::empty(),
    }
}

/// What staging, or unstaging, hunks takes.
pub open spec fn stage_actions(groups: Seq<ResolvedView>, stage: bool) -> Seq<HunkActionView>
    decreases groups.len(),
{
    if groups.len() == 0 {
        Seq::empty()
    } else {
        stage_actions(groups.drop_last(), stage) + group_stage_actions(groups.last(), stage)
    }
}

/// Whether some of a hunk is not staged.
pub open spec fn any_unstaged(groups: Seq<ResolvedView>) -> bool {
    exists|g: int, i: int|
        0 <= g < groups.len() && 0 <= i < groups[g].hunks.len() && (
        #[trigger] groups[g].hunks[i]).status.has_secondary_hunk
}

/// Whether a hunk is the whole of a file that there was nothing of.
pub open spec fn is_whole_new_file(hunk: ResolvedDiffHunk) -> bool {
    &&& hunk.diff_base_byte_range == (ByteRange { start: 0, end: 0 })
    &&& hunk.buffer_range.start == TextAnchor::Min
    &&& hunk.buffer_range.end == TextAnchor::Max
}

/// The changes that restore hunks. What there was nothing of stays.
pub open spec fn revert_changes(hunks: Seq<ResolvedDiffHunk>) -> Seq<RevertChange>
    decreases hunks.len(),
{
    if hunks.len() == 0 {
        Seq::empty()
    } else {
        let before = revert_changes(hunks.drop_last());
        let hunk = hunks.last();
        if is_whole_new_file(hunk) {
            before
        } else {
            before.push(
                RevertChange {
                    buffer_range: hunk.buffer_range,
                    diff_base_byte_range: hunk.diff_base_byte_range,
                },
            )
        }
    }
}

/// What restoring hunks takes.
pub open spec fn revert_actions(groups: Seq<ResolvedView>) -> Seq<HunkActionView>
    decreases groups.len(),
{
    if groups.len() == 0 {
        Seq::empty()
    } else {
        let before = revert_actions(groups.drop_last());
        let group = groups.last();
        let changes = revert_changes(group.hunks);
        match group.buffer {
            Some(buffer) => if changes.len() > 0 {
                before.push(HunkActionView::Revert { buffer, diff: group.diff, changes })
            } else {
                before
            },
            None => before,
        }
    }
}

/// What restoring hunks takes where they are unstaged first, which takes `unstage`.
pub open spec fn restore_actions(
    groups: Seq<ResolvedView>,
    unstage: Seq<HunkActionView>,
    host: HunkHost,
) -> Seq<HunkActionView> {
    if groups.len() == 0 || host.read_only {
        Seq::empty()
    } else {
        unstage + revert_actions(groups).push(HunkActionView::KeepSelections)
    }
}

fn has_any_unstaged(groups: &Vec<ResolvedDiffHunks>) -> (any: bool)
    ensures
        any == any_unstaged(resolved_views(groups@)),
{
    let ghost views = resolved_views(groups@);
    let mut g: usize = 0;
    while g < groups.len()
        invariant
            g <= groups@.len(),
            views == resolved_views(groups@),
            forall|h: int, j: int|
                0 <= h < g && 0 <= j < views[h].hunks.len() ==> !(
                #[trigger] views[h].hunks[j]).status.has_secondary_hunk,
        decreases groups.len() - g,
    {
        assert(views[g as int].hunks == groups@[g as int].hunks@);
        let mut i: usize = 0;
        while i < groups[g].hunks.len()
            invariant
                g < groups@.len(),
                i <= groups@[g as int].hunks@.len(),
                views == resolved_views(groups@),
                views[g as int].hunks == groups@[g as int].hunks@,
                forall|h: int, j: int|
                    0 <= h < views.len() && 0 <= j < views[h].hunks.len() && (h < g || (h == g && j
                        < i)) ==> !(#[trigger] views[h].hunks[j]).status.has_secondary_hunk,
            decreases groups@[g as int].hunks@.len() - i,
        {
            if groups[g].hunks[i].status.has_secondary_hunk {
                assert(views[g as int].hunks[i as int].status.has_secondary_hunk);
                return true;
            }
            i += 1;
        }
        g += 1;
    }
    false
}

fn collect_ranges(hunks: &Vec<ResolvedDiffHunk>) -> (ranges: Vec<TextRange>)
    ensures
        ranges@ == ranges_of(hunks@),
{
    let mut ranges: Vec<TextRange> = Vec::new();
    let mut i: usize = 0;
    while i < hunks.len()
        invariant
            i <= hunks@.len(),
            ranges@ == ranges_of(hunks@).take(i as int),
        decreases hunks.len() - i,
    {
        ranges.push(hunks[i].buffer_range);
        assert(ranges@ =~= ranges_of(hunks@).take(i + 1));
        i += 1;
    }
    assert(ranges@ =~= ranges_of(hunks@));
    ranges
}

fn collect_stage_actions(groups: &Vec<ResolvedDiffHunks>, stage: bool) -> (actions: Vec<HunkAction>)
    ensures
        action_views(actions@) == stage_actions(resolved_views(groups@), stage),
{
    let ghost views = resolved_views(groups@);
    let mut actions: Vec<HunkAction> = Vec::new();
    let mut g: usize = 0;
    assert(action_views(actions@) =~= stage_actions(views.take(0), stage));
    while g < groups.len()
        invariant
            g <= groups@.len(),
            views == resolved_views(groups@),
            action_views(actions@) == stage_actions(views.take(g as int), stage),
        decreases groups.len() - g,
    {
        let group = &groups[g];
        let ghost before = actions@;
        proof {
            assert(views.take(g + 1).drop_last() =~= views.take(g as int));
            assert(views.take(g + 1).last() == group@);
        }
        match group.buffer {
            Some(buffer) => {
                let ranges = collect_ranges(&group.hunks);
                if ranges.len() > 0 {
                    let action = if !stage {
                        HunkAction::Unstage { buffer, diff: group.diff, ranges }
                    } else {
                        match group.secondary_diff {
                            Some(secondary_diff) => HunkAction::Stage {
                                buffer,
                                secondary_diff,
                                ranges,
                            },
                            None => HunkAction::ReportNoSecondaryDiff,
                        }
                    };
                    actions.push(action);
                    assert(action_views(actions@) =~= action_views(before) + seq![action@]);
                }
            },
            None => {},
        }
        assert(action_views(actions@) =~= action_views(before) + group_stage_actions(
            group@,
            stage,
        ));
        g += 1;
    }
    assert(views.take(g as int) =~= views);
    actions
}

fn collect_changes(hunks: &Vec<ResolvedDiffHunk>) -> (changes: Vec<RevertChange>)
    ensures
        changes@ == revert_changes(hunks@),
{
    let mut changes: Vec<RevertChange> = Vec::new();
    let mut i: usize = 0;
    while i < hunks.len()
        invariant
            i <= hunks@.len(),
            changes@ == revert_changes(hunks@.take(i as int)),
        decreases hunks.len() - i,
    {
        let hunk = hunks[i];
        proof {
            assert(hunks@.take(i + 1).drop_last() =~= hunks@.take(i as int));
            assert(hunks@.take(i + 1).last() == hunk);
        }
        let whole = hunk.diff_base_byte_range.start == 0 && hunk.diff_base_byte_range.end == 0
            && hunk.buffer_range.start == TextAnchor::Min && hunk.buffer_range.end
            == TextAnchor::Max;
        if !whole {
            changes.push(
                RevertChange {
                    buffer_range: hunk.buffer_range,
                    diff_base_byte_range: hunk.diff_base_byte_range,
                },
            );
        }
        i += 1;
    }
    assert(hunks@.take(i as int) =~= hunks@);
    changes
}

/// What restoring hunks takes.
pub fn restore_diff_hunks(groups: &Vec<ResolvedDiffHunks>) -> (actions: Vec<HunkAction>)
    ensures
        action_views(actions@) == revert_actions(resolved_views(groups@)),
{
    let ghost views = resolved_views(groups@);
    let mut actions: Vec<HunkAction> = Vec::new();
    let mut g: usize = 0;
    assert(action_views(actions@) =~= revert_actions(views.take(0)));
    while g < groups.len()
        invariant
            g <= groups@.len(),
            views == resolved_views(groups@),
            action_views(actions@) == revert_actions(views.take(g as int)),
        decreases groups.len() - g,
    {
        let group = &groups[g];
        let ghost before = actions@;
        proof {
            assert(views.take(g + 1).drop_last() =~= views.take(g as int));
            assert(views.take(g + 1).last() == group@);
        }
        match group.buffer {
            Some(buffer) => {
                let changes = collect_changes(&group.hunks);
                if changes.len() > 0 {
                    let action = HunkAction::Revert { buffer, diff: group.diff, changes };
                    actions.push(action);
                    assert(action_views(actions@) =~= action_views(before).push(action@));
                }
            },
            None => {},
        }
        g += 1;
    }
    assert(views.take(g as int) =~= views);
    actions
}

fn collect_restore_actions(
    groups: &Vec<ResolvedDiffHunks>,
    unstage: Vec<HunkAction>,
    host: &HunkHost,
) -> (actions: Vec<HunkAction>)
    ensures
        action_views(actions@) == restore_actions(
            resolved_views(groups@),
            action_views(unstage@),
            *host,
        ),
{
    if groups.len() == 0 || host.read_only {
        let none: Vec<HunkAction> = Vec::new();
        assert(action_views(none@) =~= Seq::empty());
        none
    } else {
        let mut actions = unstage;
        let mut reverts = restore_diff_hunks(groups);
        let ghost first = actions@;
        let ghost second = reverts@;
        actions.append(&mut reverts);
        actions.push(HunkAction::KeepSelections);
        assert(action_views(actions@) =~= action_views(first) + action_views(second).push(
            HunkActionView::KeepSelections,
        ));
        actions
    }
}

/// A way to stage, unstage and restore hunks.
pub trait DiffHunkDelegate {
    /// What toggling hunks takes.
    spec fn toggles(&self, groups: Seq<ResolvedView>, host: HunkHost) -> Seq<HunkActionView>;

    /// What staging, or unstaging, hunks takes.
    spec fn stages(&self, stage: bool, groups: Seq<ResolvedView>, host: HunkHost) -> Seq<
        HunkActionView,
    >;

    /// What restoring hunks takes.
    spec fn restores(&self, groups: Seq<ResolvedView>, host: HunkHost) -> Seq<HunkActionView>;

    /// The buttons that are shown next to a hunk.
    spec fn controls(&self, setting: HunkSetting) -> Seq<HunkControl>;

    /// Whether a hunk is shown as one that is staged.
    spec fn shows_as_staged(&self, status: DiffHunkStatus) -> bool;

    /// Stages hunks, or unstages them where nothing is left to stage.
    fn toggle(&self, hunks: &Vec<ResolvedDiffHunks>, host: &HunkHost) -> (actions: Vec<HunkAction>)
        ensures
            action_views(actions@) == self.toggles(resolved_views(hunks@), *host),
    ;

    /// Stages hunks, or unstages them.
    fn stage_or_unstage(&self, stage: bool, hunks: &Vec<ResolvedDiffHunks>, host: &HunkHost) -> (actions:
        Vec<HunkAction>)
        ensures
            action_views(actions@) == self.stages(stage, resolved_views(hunks@), *host),
    ;

    /// Unstages hunks and has them read again as what they are compared with.
    fn restore(&self, hunks: &Vec<ResolvedDiffHunks>, host: &HunkHost) -> (actions: Vec<HunkAction>)
        ensures
            action_views(actions@) == self.restores(resolved_views(hunks@), *host),
    ;

    /// The buttons that are shown next to a hunk.
    fn render_hunk_controls(&self, setting: &HunkSetting) -> (controls: Vec<HunkControl>)
        ensures
            controls@ == self.controls(*setting),
    ;

    /// Whether a hunk is shown as one that is staged.
    fn render_hunk_as_staged(&self, status: &DiffHunkStatus) -> (staged: bool)
        ensures
            staged == self.shows_as_staged(*status),
    ;
}

/// Hands hunks to a delegate that is not one of this library's.
pub(crate) fn ask_delegate(
    delegate: u64,
    request: DelegateRequest,
    hunks: &Vec<ResolvedDiffHunks>,
) -> (actions: Vec<HunkAction>)
    ensures
        action_views(actions@) == seq![
            HunkActionView::AskDelegate { delegate, request, groups: resolved_views(hunks@) },
        ],
{
    let mut groups: Vec<ResolvedDiffHunks> = Vec::new();
    let mut g: usize = 0;
    assert(resolved_views(groups@) =~= resolved_views(hunks@).take(0));
    while g < hunks.len()
        invariant
            g <= hunks@.len(),
            resolved_views(groups@) == resolved_views(hunks@).take(g as int),
        decreases hunks.len() - g,
    {
        let ghost before = groups@;
        let copy = hunks[g].copied();
        groups.push(copy);
        assert(resolved_views(groups@) =~= resolved_views(before).push(copy@));
        assert(resolved_views(hunks@).take(g + 1) =~= resolved_views(hunks@).take(g as int).push(
            copy@,
        ));
        g += 1;
    }
    assert(resolved_views(hunks@).take(g as int) =~= resolved_views(hunks@));
    let action = HunkAction::AskDelegate { delegate, request, groups };
    let mut actions: Vec<HunkAction> = Vec::new();
    actions.push(action);
    assert(action_views(actions@) =~= seq![action@]);
    actions
}

fn no_actions() -> (actions: Vec<HunkAction>)
    ensures
        action_views(actions@) == Seq::<HunkActionView>::empty(),
{
    let actions: Vec<HunkAction> = Vec::new();
    assert(action_views(actions@) =~= Seq::empty());
    actions
}

/// Stages, unstages and restores hunks of the diff against the last commit.
#[derive(Clone, Copy, Debug, PartialEq, Eq, Structural)]
pub struct UncommittedDiffHunkDelegate;

impl DiffHunkDelegate for UncommittedDiffHunkDelegate {
    open spec fn toggles(&self, groups: Seq<ResolvedView>, host: HunkHost) -> Seq<HunkActionView> {
        self.stages(any_unstaged(groups), groups, host)
    }

    open spec fn stages(&self, stage: bool, groups: Seq<ResolvedView>, host: HunkHost) -> Seq<
        HunkActionView,
    > {
        if host.has_project {
            stage_actions(groups, stage)
        } else {
            Seq::empty()
        }
    }

    open spec fn restores(&self, groups: Seq<ResolvedView>, host: HunkHost) -> Seq<HunkActionView> {
        restore_actions(groups, self.stages(false, groups, host), host)
    }

    open spec fn controls(&self, setting: HunkSetting) -> Seq<HunkControl> {
        hunk_controls(setting)
    }

    open spec fn shows_as_staged(&self, status: DiffHunkStatus) -> bool {
        !status.has_secondary_hunk
    }

    fn toggle(&self, hunks: &Vec<ResolvedDiffHunks>, host: &HunkHost) -> (actions: Vec<HunkAction>) {
        self.stage_or_unstage(has_any_unstaged(hunks), hunks, host)
    }

    fn stage_or_unstage(&self, stage: bool, hunks: &Vec<ResolvedDiffHunks>, host: &HunkHost) -> (actions:
        Vec<HunkAction>) {
        if host.has_project {
            collect_stage_actions(hunks, stage)
        } else {
            no_actions()
        }
    }

    fn restore(&self, hunks: &Vec<ResolvedDiffHunks>, host: &HunkHost) -> (actions: Vec<
        HunkAction,
    >) {
        let unstage = self.stage_or_unstage(false, hunks, host);
        collect_restore_actions(hunks, unstage, host)
    }

    fn render_hunk_controls(&self, setting: &HunkSetting) -> (controls: Vec<HunkControl>) {
        render_diff_hunk_controls(setting)
    }

    fn render_hunk_as_staged(&self, status: &DiffHunkStatus) -> (staged: bool) {
        !status.has_secondary_hunk
    }
}

/// Does nothing to hunks.
#[derive(Clone, Copy, Debug, PartialEq, Eq, Structural)]
pub struct RestoreOnlyDiffHunkDelegate;

impl DiffHunkDelegate for RestoreOnlyDiffHunkDelegate {
    open spec fn toggles(&self, groups: Seq<ResolvedView>, host: HunkHost) -> Seq<HunkActionView> {
        Seq::empty()
    }

    open spec fn stages(&self, stage: bool, groups: Seq<ResolvedView>, host: HunkHost) -> Seq<
        HunkActionView,
    > {
        Seq::empty()
    }

    open spec fn restores(&self, groups: Seq<ResolvedView>, host: HunkHost) -> Seq<HunkActionView> {
        Seq::empty()
    }

    open spec fn controls(&self, setting: HunkSetting) -> Seq<HunkControl> {
        Seq::empty()
    }

    open spec fn shows_as_staged(&self, status: DiffHunkStatus) -> bool {
        !status.has_secondary_hunk
    }

    fn toggle(&self, hunks: &Vec<ResolvedDiffHunks>, host: &HunkHost) -> (actions: Vec<HunkAction>) {
        no_actions()
    }

    fn stage_or_unstage(&self, stage: bool, hunks: &Vec<ResolvedDiffHunks>, host: &HunkHost) -> (actions:
        Vec<HunkAction>) {
        no_actions()
    }

    fn restore(&self, hunks: &Vec<ResolvedDiffHunks>, host: &HunkHost) -> (actions: Vec<
        HunkAction,
    >) {
        no_actions()
    }

    fn render_hunk_controls(&self, setting: &HunkSetting) -> (controls: Vec<HunkControl>) {
        Vec::new()
    }

    fn render_hunk_as_staged(&self, status: &DiffHunkStatus) -> (staged: bool) {
        !status.has_secondary_hunk
    }
}

/// Restores hunks, but does not stage them, and shows none as staged.
#[derive(Clone, Copy, Debug, PartialEq, Eq, Structural)]
pub struct RestoreOnlyUnstagedDiffHunkDelegate;

impl DiffHunkDelegate for RestoreOnlyUnstagedDiffHunkDelegate {
    open spec fn toggles(&self, groups: Seq<ResolvedView>, host: HunkHost) -> Seq<HunkActionView> {
        Seq::empty()
    }

    open spec fn stages(&self, stage: bool, groups: Seq<ResolvedView>, host: HunkHost) -> Seq<
        HunkActionView,
    > {
        Seq::empty()
    }

    open spec fn restores(&self, groups: Seq<ResolvedView>, host: HunkHost) -> Seq<HunkActionView> {
        restore_actions(groups, Seq::empty(), host)
    }

    open spec fn controls(&self, setting: HunkSetting) -> Seq<HunkControl> {
        Seq::empty()
    }

    open spec fn shows_as_staged(&self, status: DiffHunkStatus) -> bool {
        false
    }

    fn toggle(&self, hunks: &Vec<ResolvedDiffHunks>, host: &HunkHost) -> (actions: Vec<HunkAction>) {
        no_actions()
    }

    fn stage_or_unstage(&self, stage: bool, hunks: &Vec<ResolvedDiffHunks>, host: &HunkHost) -> (actions:
        Vec<HunkAction>) {
        no_actions()
    }

    fn restore(&self, hunks: &Vec<ResolvedDiffHunks>, host: &HunkHost) -> (actions: Vec<
        HunkAction,
    >) {
        collect_restore_actions(hunks, no_actions(), host)
    }

    fn render_hunk_controls(&self, setting: &HunkSetting) -> (controls: Vec<HunkControl>) {
        Vec::new()
    }

    fn render_hunk_as_staged(&self, status: &DiffHunkStatus) -> (staged: bool) {
        false
    }
}

/// Unstaging takes in every hunk whose buffer is at hand.
pub proof fn unstaging_reaches_every_hunk(groups: Seq<ResolvedView>, g: int, i: int)
    requires
        0 <= g < groups.len(),
        0 <= i < groups[g].hunks.len(),
        groups[g].buffer is Some,
    ensures
        exists|a: int|
            0 <= a < stage_actions(groups, false).len() && (
            #[trigger] stage_actions(groups, false)[a] matches HunkActionView::Unstage {
                buffer,
                diff,
                ranges,
            } && Some(buffer) == groups[g].buffer && diff == groups[g].diff && ranges.contains(
                groups[g].hunks[i].buffer_range,
            )),
    decreases groups.len(),
{
    let rest = groups.drop_last();
    let before = stage_actions(rest, false);
    let now = stage_actions(groups, false);
    if g < groups.len() - 1 {
        assert(rest[g] == groups[g]);
        unstaging_reaches_every_hunk(rest, g, i);
        let a = choose|a: int|
            0 <= a < before.len() && (#[trigger] before[a] matches HunkActionView::Unstage {
                buffer,
                diff,
                ranges,
            } && Some(buffer) == groups[g].buffer && diff == groups[g].diff && ranges.contains(
                groups[g].hunks[i].buffer_range,
            ));
        assert(now[a] == before[a]);
    } else {
        let ranges = ranges_of(groups[g].hunks);
        assert(ranges[i] == groups[g].hunks[i].buffer_range);
        assert(now[before.len() as int] == (HunkActionView::Unstage {
            buffer: groups[g].buffer->0,
            diff: groups[g].diff,
            ranges,
        }));
    }
}

} // verus!
