//! How hunks are shown, and what the buttons next to them do.

use crate::diff_hunks::{ByteRange, DiffHunkStatus, MultiBufferDiffHunk, TextRange};
use crate::editor::Editor;
use crate::editor_hunks::Direction;
use crate::review_comment::{Anchor, AnchorRange};
use crate::review_snapshot::Point;
use vstd::prelude::*;
use vstd::string::*;

verus! {

/// A hunk on the screen.
#[derive(Clone, Debug, PartialEq, Eq)]
pub enum DisplayDiffHunk {
    /// Within a row that begins with other text.
    Folded { display_row: u32 },
    Unfolded {
        is_created_file: bool,
        diff_base_byte_range: ByteRange,
        start_row: u32,
        end_row: u32,
        multi_buffer_range: AnchorRange,
        status: DiffHunkStatus,
        /// The words that differ.
        word_diffs: Vec<ByteRange>,
    },
}

/// A hunk on the screen, as a value.
pub enum DisplayHunkView {
    Folded { display_row: u32 },
    Unfolded {
        is_created_file: bool,
        diff_base_byte_range: ByteRange,
        start_row: u32,
        end_row: u32,
        multi_buffer_range: AnchorRange,
        status: DiffHunkStatus,
        word_diffs: Seq<ByteRange>,
    },
}

impl View for DisplayDiffHunk {
    type V = DisplayHunkView;

    open spec fn view(&self) -> DisplayHunkView {
        match self {
            DisplayDiffHunk::Folded { display_row } => DisplayHunkView::Folded {
                display_row: *display_row,
            },
            DisplayDiffHunk::Unfolded {
                is_created_file,
                diff_base_byte_range,
                start_row,
                end_row,
                multi_buffer_range,
                status,
                word_diffs,
            } => DisplayHunkView::Unfolded {
                is_created_file: *is_created_file,
                diff_base_byte_range: *diff_base_byte_range,
                start_row: *start_row,
                end_row: *end_row,
                multi_buffer_range: *multi_buffer_range,
                status: *status,
                word_diffs: word_diffs@,
            },
        }
    }
}

/// A hunk on the screen that may be absent, as a value.
pub open spec fn opt_hunk_view(hunk: Option<DisplayDiffHunk>) -> Option<DisplayHunkView> {
    match hunk {
        Some(hunk) => Some(hunk@),
        None => None,
    }
}

/// Hunks on the screen, as values.
pub open spec fn hunk_views(hunks: Seq<DisplayDiffHunk>) -> Seq<DisplayHunkView> {
    hunks.map_values(|hunk: DisplayDiffHunk| hunk@)
}

fn copied_ranges(ranges: &Vec<ByteRange>) -> (copies: Vec<ByteRange>)
    ensures
        copies@ == ranges@,
{
    let mut copies: Vec<ByteRange> = Vec::new();
    let mut i: usize = 0;
    while i < ranges.len()
        invariant
            i <= ranges@.len(),
            copies@ == ranges@.take(i as int),
        decreases ranges.len() - i,
    {
        copies.push(ranges[i]);
        assert(ranges@.take(i + 1) =~= ranges@.take(i as int).push(ranges@[i as int]));
        i += 1;
    }
    assert(ranges@.take(i as int) =~= ranges@);
    copies
}

/// Where a hunk ends: at the end of its last row, which has `last_line_len` columns, or where it
/// begins if it has no rows.
pub open spec fn hunk_end(hunk: MultiBufferDiffHunk, last_line_len: u32) -> Point {
    if hunk.end_row > hunk.start_row {
        Point { row: (hunk.end_row - 1) as u32, column: last_line_len }
    } else {
        Point { row: hunk.end_row, column: 0 }
    }
}

/// Where a hunk begins and ends.
pub fn hunk_points(hunk: &MultiBufferDiffHunk, last_line_len: u32) -> (points: (Point, Point))
    ensures
        points.0 == (Point { row: hunk.start_row, column: 0 }),
        points.1 == hunk_end(*hunk, last_line_len),
{
    let start = Point { row: hunk.start_row, column: 0 };
    let end = if hunk.end_row > hunk.start_row {
        Point { row: hunk.end_row - 1, column: last_line_len }
    } else {
        Point { row: hunk.end_row, column: 0 }
    };
    (start, end)
}

/// A hunk on the screen, where its beginning and its end are shown at `start` and `end`.
pub open spec fn display_hunk(
    hunk: MultiBufferDiffHunk,
    word_diffs: Seq<ByteRange>,
    is_created_file: bool,
    start: Point,
    end: Point,
) -> DisplayHunkView {
    if start.column != 0 {
        DisplayHunkView::Folded { display_row: start.row }
    } else {
        DisplayHunkView::Unfolded {
            is_created_file,
            diff_base_byte_range: hunk.diff_base_byte_range,
            start_row: start.row,
            end_row: if hunk.end_row > hunk.start_row || end.column > 0 {
                (end.row + 1) as u32
            } else {
                end.row
            },
            multi_buffer_range: hunk.multi_buffer_range,
            status: hunk.status,
            word_diffs,
        }
    }
}

/// A hunk on the screen. Those of buffers that are folded away are not shown, nor is one without
/// rows where what was deleted is shown all the time.
pub fn display_diff_hunk(
    hunk: &MultiBufferDiffHunk,
    word_diffs: &Vec<ByteRange>,
    is_created_file: bool,
    buffer_is_folded: bool,
    all_diff_hunks_expanded: bool,
    start: Point,
    end: Point,
) -> (shown: Option<DisplayDiffHunk>)
    requires
        end.row < u32::MAX,
    ensures
        opt_hunk_view(shown) == if buffer_is_folded || (hunk.start_row >= hunk.end_row
            && all_diff_hunks_expanded) {
            None
        } else {
            Some(display_hunk(*hunk, word_diffs@, is_created_file, start, end))
        },
{
    if buffer_is_folded || (hunk.start_row >= hunk.end_row && all_diff_hunks_expanded) {
        None
    } else if start.column != 0 {
        Some(DisplayDiffHunk::Folded { display_row: start.row })
    } else {
        let end_row: u32 = if hunk.end_row > hunk.start_row || end.column > 0 {
            end.row + 1
        } else {
            end.row
        };
        Some(
            DisplayDiffHunk::Unfolded {
                is_created_file,
                diff_base_byte_range: hunk.diff_base_byte_range,
                start_row: start.row,
                end_row,
                multi_buffer_range: hunk.multi_buffer_range,
                status: hunk.status,
                word_diffs: copied_ranges(word_diffs),
            },
        )
    }
}

/// A hunk, and where it is shown.
#[derive(Clone, Debug)]
pub struct PlacedHunk {
    pub hunk: MultiBufferDiffHunk,
    /// The words that differ.
    pub word_diffs: Vec<ByteRange>,
    pub is_created_file: bool,
    /// Whether its buffer is folded away.
    pub is_folded: bool,
    /// Where its beginning is shown.
    pub start: Point,
    /// Where its end is shown.
    pub end: Point,
}

/// A hunk on the screen, if it is shown.
pub open spec fn shown_hunk(placed: PlacedHunk, all_diff_hunks_expanded: bool) -> Option<
    DisplayHunkView,
> {
    if placed.is_folded || (placed.hunk.start_row >= placed.hunk.end_row
        && all_diff_hunks_expanded) {
        None
    } else {
        Some(
            display_hunk(
                placed.hunk,
                placed.word_diffs@,
                placed.is_created_file,
                placed.start,
                placed.end,
            ),
        )
    }
}

/// The hunks that are shown.
pub open spec fn shown_hunks(hunks: Seq<PlacedHunk>, all_diff_hunks_expanded: bool) -> Seq<
    DisplayHunkView,
>
    decreases hunks.len(),
{
    if hunks.len() == 0 {
        Seq::empty()
    } else {
        let before = shown_hunks(hunks.drop_last(), all_diff_hunks_expanded);
        match shown_hunk(hunks.last(), all_diff_hunks_expanded) {
            Some(hunk) => before.push(hunk),
            None => before,
        }
    }
}

/// The hunks that are shown.
pub fn display_diff_hunks_for_rows(hunks: &Vec<PlacedHunk>, all_diff_hunks_expanded: bool) -> (shown:
    Vec<DisplayDiffHunk>)
    requires
        forall|i: int| 0 <= i < hunks@.len() ==> (#[trigger] hunks@[i]).end.row < u32::MAX,
    ensures
        hunk_views(shown@) == shown_hunks(hunks@, all_diff_hunks_expanded),
{
    let mut shown: Vec<DisplayDiffHunk> = Vec::new();
    let mut i: usize = 0;
    assert(hunk_views(shown@) =~= shown_hunks(hunks@.take(0), all_diff_hunks_expanded));
    while i < hunks.len()
        invariant
            i <= hunks@.len(),
            forall|j: int| 0 <= j < hunks@.len() ==> (#[trigger] hunks@[j]).end.row < u32::MAX,
            hunk_views(shown@) == shown_hunks(hunks@.take(i as int), all_diff_hunks_expanded),
        decreases hunks.len() - i,
    {
        let placed = &hunks[i];
        let ghost before = shown@;
        proof {
            assert(hunks@.take(i + 1).drop_last() =~= hunks@.take(i as int));
            assert(hunks@.take(i + 1).last() == *placed);
        }
        match display_diff_hunk(
            &placed.hunk,
            &placed.word_diffs,
            placed.is_created_file,
            placed.is_folded,
            all_diff_hunks_expanded,
            placed.start,
            placed.end,
        ) {
            Some(hunk) => {
                shown.push(hunk);
                assert(hunk_views(shown@) =~= hunk_views(before).push(hunk@));
            },
            None => {},
        }
        i += 1;
    }
    assert(hunks@.take(i as int) =~= hunks@);
    shown
}

/// A button next to a hunk.
#[derive(Clone, Copy, Debug, PartialEq, Eq, Structural)]
pub enum HunkControl {
    Stage { faded: bool },
    Unstage { faded: bool },
    Restore { disabled: bool },
    NextHunk,
    PreviousHunk,
}

/// What the buttons next to a hunk depend on.
#[derive(Clone, Copy, Debug, PartialEq, Eq, Structural)]
pub struct HunkSetting {
    /// Whether the diff that the hunk is of can be staged.
    pub stageable: bool,
    /// Whether buttons to stage and restore are to be shown.
    pub show_stage_restore_buttons: bool,
    pub status: DiffHunkStatus,
    pub is_created_file: bool,
    pub all_diff_hunks_expanded: bool,
}

/// The buttons next to a hunk: to stage it, or to unstage it where nothing of it is left to
/// stage; to restore it, unless its file is new; and, where hunks are not shown all the time, to
/// go to the next and to the one before.
pub open spec fn hunk_controls(setting: HunkSetting) -> Seq<HunkControl> {
    let change = if setting.stageable && setting.show_stage_restore_buttons {
        seq![
            if setting.status.has_secondary_hunk {
                HunkControl::Stage { faded: setting.status.is_pending }
            } else {
                HunkControl::Unstage { faded: setting.status.is_pending }
            },
            HunkControl::Restore { disabled: setting.is_created_file },
        ]
    } else {
        Seq::empty()
    };
    let go = if setting.all_diff_hunks_expanded {
        Seq::empty()
    } else {
        seq![HunkControl::NextHunk, HunkControl::PreviousHunk]
    };
    change + go
}

/// The buttons next to a hunk.
pub fn render_diff_hunk_controls(setting: &HunkSetting) -> (controls: Vec<HunkControl>)
    ensures
        controls@ == hunk_controls(*setting),
{
    let mut controls: Vec<HunkControl> = Vec::new();
    if setting.stageable && setting.show_stage_restore_buttons {
        if setting.status.has_secondary_hunk {
            controls.push(HunkControl::Stage { faded: setting.status.is_pending });
        } else {
            controls.push(HunkControl::Unstage { faded: setting.status.is_pending });
        }
        controls.push(HunkControl::Restore { disabled: setting.is_created_file });
    }
    if !setting.all_diff_hunks_expanded {
        controls.push(HunkControl::NextHunk);
        controls.push(HunkControl::PreviousHunk);
    }
    assert(controls@ =~= hunk_controls(*setting));
    controls
}

/// What is done where a button next to a hunk is pressed.
#[derive(Clone, Copy, Debug, PartialEq, Eq, Structural)]
pub enum HunkControlAction {
    /// Stage, or unstage, what is in a range.
    StageOrUnstage { stage: bool, range: AnchorRange },
    /// Restore what is in a range.
    Restore { range: AnchorRange },
    /// Go from an anchor to the next hunk, or to the one before, round the end or the beginning,
    /// and show what is then selected of the diff.
    GoFromHunk { from: Anchor, direction: Direction },
}

/// The range that begins and ends at an anchor.
pub open spec fn range_at(anchor: Anchor) -> AnchorRange {
    AnchorRange { start: anchor, end: anchor }
}

/// What is done where a button next to a hunk is pressed. It is staged, unstaged and restored
/// where it begins; one goes on from its end and back from its beginning. A button that is
/// disabled does nothing.
pub open spec fn control_action(control: HunkControl, hunk_range: AnchorRange) -> Option<
    HunkControlAction,
> {
    match control {
        HunkControl::Stage { .. } => Some(
            HunkControlAction::StageOrUnstage { stage: true, range: range_at(hunk_range.start) },
        ),
        HunkControl::Unstage { .. } => Some(
            HunkControlAction::StageOrUnstage { stage: false, range: range_at(hunk_range.start) },
        ),
        HunkControl::Restore { disabled } => if disabled {
            None
        } else {
            Some(HunkControlAction::Restore { range: range_at(hunk_range.start) })
        },
        HunkControl::NextHunk => Some(
            HunkControlAction::GoFromHunk { from: hunk_range.end, direction: Direction::Next },
        ),
        HunkControl::PreviousHunk => Some(
            HunkControlAction::GoFromHunk { from: hunk_range.start, direction: Direction::Prev },
        ),
    }
}

impl HunkControl {
    /// What is done where the button is pressed.
    pub fn action(&self, hunk_range: AnchorRange) -> (action: Option<HunkControlAction>)
        ensures
            action == control_action(*self, hunk_range),
    {
        let here = AnchorRange { start: hunk_range.start, end: hunk_range.start };
        match self {
            HunkControl::Stage { .. } => Some(
                HunkControlAction::StageOrUnstage { stage: true, range: here },
            ),
            HunkControl::Unstage { .. } => Some(
                HunkControlAction::StageOrUnstage { stage: false, range: here },
            ),
            HunkControl::Restore { disabled } => if *disabled {
                None
            } else {
                Some(HunkControlAction::Restore { range: here })
            },
            HunkControl::NextHunk => Some(
                HunkControlAction::GoFromHunk { from: hunk_range.end, direction: Direction::Next },
            ),
            HunkControl::PreviousHunk => Some(
                HunkControlAction::GoFromHunk {
                    from: hunk_range.start,
                    direction: Direction::Prev,
                },
            ),
        }
    }
}

/// What is selected of one buffer.
#[derive(Clone, Copy, Debug, PartialEq, Eq)]
pub struct SelectedRows {
    /// The buffer, where it is at hand.
    pub buffer: Option<u64>,
    pub start_row: u32,
    pub end_row: u32,
    /// The rows in the text that the buffer is compared with, if it is.
    pub base_rows: Option<(u32, u32)>,
}

/// The lines that a permanent link leads to.
#[derive(Clone, Copy, Debug, PartialEq, Eq, Structural)]
pub struct PermalinkLines {
    pub buffer: u64,
    pub start_row: u32,
    pub end_row: u32,
}

/// Why there is no permanent link.
#[derive(Clone, Copy, Debug, PartialEq, Eq, Structural)]
pub enum PermalinkError {
    NoSelection,
    NoProject,
}

impl PermalinkError {
    /// The error in words.
    pub fn message(&self) -> (message: String)
        ensures
            message@ == match self {
                PermalinkError::NoSelection => "failed to determine buffer and selection"@,
                PermalinkError::NoProject => "editor does not have project"@,
            },
    {
        match self {
            PermalinkError::NoSelection => "failed to determine buffer and selection".to_owned(),
            PermalinkError::NoProject => "editor does not have project".to_owned(),
        }
    }
}

/// The lines of the buffer at the cursor's end of what is selected, as they are numbered in the
/// text that the buffer is compared with.
pub open spec fn permalink_lines(selected: Seq<SelectedRows>, reversed: bool) -> Option<
    PermalinkLines,
> {
    if selected.len() == 0 {
        None
    } else {
        let rows = if reversed {
            selected[0]
        } else {
            selected.last()
        };
        match rows.buffer {
            Some(buffer) => Some(
                match rows.base_rows {
                    Some((start_row, end_row)) => PermalinkLines { buffer, start_row, end_row },
                    None => PermalinkLines {
                        buffer,
                        start_row: rows.start_row,
                        end_row: rows.end_row,
                    },
                },
            ),
            None => None,
        }
    }
}

/// Hunks of one buffer that are taken over into the text it was made from.
#[derive(Clone, Debug)]
pub struct BufferMerge {
    pub buffer: u64,
    pub ranges: Vec<TextRange>,
}

/// Hunks of one buffer that are taken over, as a value.
pub struct MergeView {
    pub buffer: u64,
    pub ranges: Seq<TextRange>,
}

impl View for BufferMerge {
    type V = MergeView;

    open spec fn view(&self) -> MergeView {
        MergeView { buffer: self.buffer, ranges: self.ranges@ }
    }
}

/// The merges as values.
pub open spec fn merge_views(merges: Seq<BufferMerge>) -> Seq<MergeView> {
    merges.map_values(|merge: BufferMerge| merge@)
}

/// The merge at or after `from` for a buffer.
pub open spec fn merge_from(merges: Seq<MergeView>, buffer: u64, from: int) -> Option<int>
    decreases merges.len() - from,
{
    if from < 0 || from >= merges.len() {
        None
    } else if merges[from].buffer == buffer {
        Some(from)
    } else {
        merge_from(merges, buffer, from + 1)
    }
}

/// The merges with one more range.
pub open spec fn with_merge(merges: Seq<MergeView>, buffer: u64, range: TextRange) -> Seq<
    MergeView,
> {
    match merge_from(merges, buffer, 0) {
        Some(at) => merges.update(
            at,
            MergeView { buffer: merges[at].buffer, ranges: merges[at].ranges.push(range) },
        ),
        None => merges.push(MergeView { buffer, ranges: seq![range] }),
    }
}

/// The hunks by buffers, as far as those are at hand.
pub open spec fn merges_of(hunks: Seq<MultiBufferDiffHunk>, buffers: Seq<u64>) -> Seq<MergeView>
    decreases hunks.len(),
{
    if hunks.len() == 0 {
        Seq::empty()
    } else {
        let before = merges_of(hunks.drop_last(), buffers);
        let hunk = hunks.last();
        if buffers.contains(hunk.buffer_id) {
            with_merge(before, hunk.buffer_id, hunk.buffer_range)
        } else {
            before
        }
    }
}

fn holds_buffer(buffers: &Vec<u64>, buffer: u64) -> (holds: bool)
    ensures
        holds == buffers@.contains(buffer),
{
    let mut i: usize = 0;
    while i < buffers.len()
        invariant
            i <= buffers@.len(),
            forall|j: int| 0 <= j < i ==> buffers@[j] != buffer,
        decreases buffers.len() - i,
    {
        if buffers[i] == buffer {
            return true;
        }
        i += 1;
    }
    false
}

fn add_merge(merges: &mut Vec<BufferMerge>, buffer: u64, range: TextRange)
    ensures
        merge_views(final(merges)@) == with_merge(merge_views(old(merges)@), buffer, range),
{
    let ghost before = merge_views(merges@);
    let mut k: usize = 0;
    while k < merges.len()
        invariant
            *merges == *old(merges),
            before == merge_views(old(merges)@),
            k <= merges@.len(),
            merge_from(before, buffer, 0) == merge_from(before, buffer, k as int),
        decreases merges.len() - k,
    {
        assert(before[k as int].buffer == merges@[k as int].buffer);
        if merges[k].buffer == buffer {
            merges[k].ranges.push(range);
            proof {
                let now = merge_views(merges@);
                let then = with_merge(before, buffer, range);
                assert forall|g: int| 0 <= g < now.len() implies #[trigger] now[g] == then[g] by {
                    if g != k {
                        assert(merges@[g] == old(merges)@[g]);
                    }
                }
                assert(now =~= then);
            }
            return ;
        }
        k += 1;
    }
    let mut ranges: Vec<TextRange> = Vec::new();
    ranges.push(range);
    assert(ranges@ =~= seq![range]);
    let merge = BufferMerge { buffer, ranges };
    merges.push(merge);
    assert(merge_views(merges@) =~= before.push(merge@));
}

/// What is said where a permanent link could not be had.
pub open spec fn permalink_failure_text(copying: bool, error: Seq<char>) -> Seq<char> {
    (if copying {
        "Failed to copy permalink: "@
    } else {
        "Failed to open permalink: "@
    }) + error
}

/// What is said where a permanent link could not be had.
pub fn permalink_failure(copying: bool, error: &str) -> (message: String)
    ensures
        message@ == permalink_failure_text(copying, error@),
{
    let mut message = if copying {
        "Failed to copy permalink: ".to_owned()
    } else {
        "Failed to open permalink: ".to_owned()
    };
    message.append(error);
    message
}

/// A buffer of which all is taken over.
pub open spec fn whole_merges(buffers: Seq<u64>) -> Seq<MergeView> {
    buffers.map_values(|buffer: u64| MergeView { buffer, ranges: Seq::empty() })
}

impl Editor {
    /// All of every buffer, which is taken over into the text it was made from, unless the text
    /// must not be changed.
    pub fn apply_all_diff_hunks(&self, buffers: &Vec<u64>) -> (merges: Vec<BufferMerge>)
        ensures
            merge_views(merges@) == if self.read_only {
                Seq::empty()
            } else {
                whole_merges(buffers@)
            },
    {
        let mut merges: Vec<BufferMerge> = Vec::new();
        if self.read_only {
            assert(merge_views(merges@) =~= Seq::empty());
            return merges;
        }
        let mut i: usize = 0;
        while i < buffers.len()
            invariant
                i <= buffers@.len(),
                merge_views(merges@) =~= whole_merges(buffers@).take(i as int),
            decreases buffers.len() - i,
        {
            let ghost before = merges@;
            let merge = BufferMerge { buffer: buffers[i], ranges: Vec::new() };
            assert(merge@.ranges =~= Seq::empty());
            merges.push(merge);
            assert(merge_views(merges@) =~= merge_views(before).push(merge@));
            i += 1;
        }
        assert(merge_views(merges@) =~= whole_merges(buffers@));
        merges
    }

    /// Whether the text is saved after something was taken over.
    pub fn saves_after_apply(&self) -> (saves: bool)
        ensures
            saves == (!self.read_only && self.has_project),
    {
        !self.read_only && self.has_project
    }

    /// The lines that a permanent link to what is selected leads to.
    pub fn permalink_request(&self, selected: &Vec<SelectedRows>, reversed: bool) -> (lines: Result<
        PermalinkLines,
        PermalinkError,
    >)
        ensures
            lines == match permalink_lines(selected@, reversed) {
                Some(lines) => if self.has_project {
                    Ok(lines)
                } else {
                    Err(PermalinkError::NoProject)
                },
                None => Err(PermalinkError::NoSelection),
            },
    {
        if selected.len() == 0 {
            return Err(PermalinkError::NoSelection);
        }
        let rows = if reversed {
            selected[0]
        } else {
            selected[selected.len() - 1]
        };
        match rows.buffer {
            Some(buffer) => {
                if !self.has_project {
                    return Err(PermalinkError::NoProject);
                }
                match rows.base_rows {
                    Some((start_row, end_row)) => Ok(PermalinkLines { buffer, start_row, end_row }),
                    None => Ok(
                        PermalinkLines {
                            buffer,
                            start_row: rows.start_row,
                            end_row: rows.end_row,
                        },
                    ),
                }
            },
            None => Err(PermalinkError::NoSelection),
        }
    }

    /// The hunks, by buffers, that are taken over into the texts the buffers were made from,
    /// unless the text must not be changed.
    pub fn apply_selected_diff_hunks(
        &self,
        hunks: &Vec<MultiBufferDiffHunk>,
        buffers: &Vec<u64>,
    ) -> (merges: Vec<BufferMerge>)
        ensures
            merge_views(merges@) == if self.read_only {
                Seq::empty()
            } else {
                merges_of(hunks@, buffers@)
            },
    {
        let mut merges: Vec<BufferMerge> = Vec::new();
        assert(merge_views(merges@) =~= Seq::empty());
        if self.read_only {
            return merges;
        }
        let mut k: usize = 0;
        assert(hunks@.take(0) =~= Seq::empty());
        while k < hunks.len()
            invariant
                k <= hunks@.len(),
                merge_views(merges@) == merges_of(hunks@.take(k as int), buffers@),
            decreases hunks.len() - k,
        {
            let hunk = hunks[k];
            proof {
                assert(hunks@.take(k + 1).drop_last() =~= hunks@.take(k as int));
                assert(hunks@.take(k + 1).last() == hunk);
            }
            if holds_buffer(buffers, hunk.buffer_id) {
                add_merge(&mut merges, hunk.buffer_id, hunk.buffer_range);
            }
            k += 1;
        }
        assert(hunks@.take(k as int) =~= hunks@);
        merges
    }
}

} // verus!
