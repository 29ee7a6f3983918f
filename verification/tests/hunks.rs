use stack_review::diff_hunks::{
    hunks_for_ranges, resolve_diff_hunks, BufferDiffHunk, BufferDiffState, ByteRange,
    DiffHunkStatus, DiffHunkStatusKind, HunkQuery, MultiBufferDiffHunk, RangeHunks, TextAnchor,
    TextRange,
};
use stack_review::editor::{DelegateKind, Editor};
use stack_review::editor_blame::BlameContext;
use stack_review::editor_hunks::{
    hunk_search_end, BufferSaveState, Direction, HunkSearch,
};
use stack_review::hunk_delegate::{
    DelegateRequest, DiffHunkDelegate, HunkAction, HunkHost, RestoreOnlyDiffHunkDelegate,
    RestoreOnlyUnstagedDiffHunkDelegate, UncommittedDiffHunkDelegate,
};
use stack_review::hunk_display::{
    display_diff_hunk, display_diff_hunks_for_rows, hunk_points, permalink_failure,
    render_diff_hunk_controls, DisplayDiffHunk, HunkControl, HunkControlAction, HunkSetting,
    PermalinkError, PermalinkLines, PlacedHunk, SelectedRows,
};
use stack_review::review_comment::{Anchor, AnchorRange};
use stack_review::review_snapshot::Point;

fn range(start: u64, end: u64) -> TextRange {
    TextRange {
        start: TextAnchor::At(start),
        end: TextAnchor::At(end),
    }
}

fn bytes(start: usize, end: usize) -> ByteRange {
    ByteRange { start, end }
}

fn status(has_secondary_hunk: bool) -> DiffHunkStatus {
    DiffHunkStatus {
        kind: DiffHunkStatusKind::Modified,
        has_secondary_hunk,
        is_pending: false,
    }
}

fn hunk(buffer_id: u64, start_row: u32, end_row: u32) -> MultiBufferDiffHunk {
    MultiBufferDiffHunk {
        buffer_id,
        start_row,
        end_row,
        multi_buffer_range: AnchorRange {
            start: Anchor { id: 2 * start_row as usize },
            end: Anchor { id: 2 * end_row as usize + 1 },
        },
        buffer_range: range(start_row as u64, end_row as u64),
        diff_base_byte_range: bytes(start_row as usize, end_row as usize),
        status: status(false),
        excerpt_end: None,
    }
}

fn diff(buffer_id: u64) -> BufferDiffState {
    BufferDiffState {
        shown_buffer_id: buffer_id,
        diff: buffer_id + 100,
        main_buffer_id: buffer_id,
        buffer: Some(buffer_id),
        is_stageable: true,
        secondary_diff: Some(buffer_id + 200),
        hunks: Vec::new(),
    }
}

fn point(row: u32, column: u32) -> Point {
    Point { row, column }
}

fn told(actions: &[HunkAction]) -> Vec<String> {
    actions.iter().map(|action| format!("{action:?}")).collect()
}

fn events(editor: &mut Editor) -> Vec<String> {
    editor
        .take_effects()
        .into_iter()
        .map(|effect| format!("{effect:?}"))
        .collect()
}

#[test]
fn hunks_are_grouped_by_buffers() {
    let mut base = diff(3);
    base.main_buffer_id = 4;
    base.buffer = Some(4);
    base.hunks = vec![
        BufferDiffHunk {
            buffer_range: range(5, 5),
            diff_base_byte_range: bytes(1, 2),
            has_secondary_hunk: true,
            is_pending: false,
        },
        BufferDiffHunk {
            buffer_range: range(6, 7),
            diff_base_byte_range: bytes(3, 3),
            has_secondary_hunk: false,
            is_pending: true,
        },
    ];
    let hunks = vec![
        hunk(1, 0, 1),
        hunk(1, 2, 3),
        hunk(2, 4, 5),
        hunk(3, 1, 2),
        hunk(3, 3, 3),
        hunk(3, 8, 9),
        hunk(1, 6, 7),
    ];
    let groups = resolve_diff_hunks(&hunks, &vec![diff(1), base]);
    let shape = groups
        .iter()
        .map(|group| (group.buffer_id, group.hunks.len()))
        .collect::<Vec<_>>();
    assert_eq!(shape, [(1, 2), (4, 2), (1, 1)]);
    assert_eq!(groups[1].hunks[0].status.kind, DiffHunkStatusKind::Deleted);
    assert_eq!(groups[1].hunks[1].status.kind, DiffHunkStatusKind::Added);
}

#[test]
fn hunks_on_rows_are_taken_once() {
    let mut deleted = hunk(1, 5, 5);
    deleted.status.kind = DiffHunkStatusKind::Deleted;
    let queries = vec![
        HunkQuery {
            start_row: 0,
            end_row: 4,
            hunks: vec![hunk(1, 0, 2), deleted, hunk(1, 5, 6)],
        },
        HunkQuery {
            start_row: 1,
            end_row: 5,
            hunks: vec![hunk(1, 0, 2), hunk(1, 5, 6)],
        },
    ];
    assert_eq!(
        hunks_for_ranges(&queries),
        [hunk(1, 0, 2), deleted, hunk(1, 5, 6)]
    );
}

#[test]
fn hunks_of_later_excerpts_are_left_out() {
    let editor = Editor::new(false, true);
    let mut inside = hunk(1, 0, 1);
    inside.excerpt_end = Some(5);
    let mut beyond = hunk(1, 2, 3);
    beyond.excerpt_end = Some(6);
    let ranges = vec![
        RangeHunks {
            excerpt_end: Some(5),
            hunks: vec![inside, beyond],
        },
        RangeHunks {
            excerpt_end: None,
            hunks: vec![beyond],
        },
    ];
    assert_eq!(editor.diff_hunks_in_ranges(&ranges), [inside, beyond]);
    assert_eq!(hunk_search_end(point(3, 4), 9), point(4, 0));
    assert_eq!(hunk_search_end(point(9, 4), 9), point(9, 4));
}

#[test]
fn hunks_are_staged_toggled_and_restored() {
    let mut editor = Editor::new(false, true);
    let mut unstaged = hunk(1, 0, 1);
    unstaged.status = status(true);
    let hunks = vec![unstaged, hunk(1, 2, 3)];
    let diffs = vec![diff(1)];
    let ranges = "[TextRange { start: At(0), end: At(1) }, TextRange { start: At(2), end: At(3) }]";
    assert_eq!(
        told(&editor.apply_toggle(&hunks, &diffs)),
        [format!("Stage {{ buffer: 1, secondary_diff: 201, ranges: {ranges} }}")]
    );
    assert_eq!(
        told(&editor.apply_stage_or_unstage(false, &hunks, &diffs)),
        [format!("Unstage {{ buffer: 1, diff: 101, ranges: {ranges} }}")]
    );
    let restored = told(&editor.apply_restore(&hunks, &diffs));
    assert_eq!(restored.len(), 3);
    assert!(restored[0].starts_with("Unstage"));
    assert!(restored[1].starts_with("Revert"));
    assert_eq!(restored[2], "KeepSelections");
    let ranged = vec![RangeHunks {
        excerpt_end: None,
        hunks: hunks.clone(),
    }];
    assert_eq!(
        told(&editor.restore_diff_hunks_in_ranges(&ranged, &diffs)),
        restored
    );
    assert_eq!(
        editor.stage_or_unstage_diff_hunks(true, &ranged, &diffs).len(),
        1
    );
    let queries = vec![HunkQuery {
        start_row: 0,
        end_row: 9,
        hunks: hunks.clone(),
    }];
    assert_eq!(told(&editor.git_restore(&queries, &diffs)), restored);
    editor.read_only = true;
    assert!(editor.git_restore(&queries, &diffs).is_empty());
    assert!(editor.apply_restore(&hunks, &diffs).is_empty());
    editor.read_only = false;
    let mut without_unstaged = diff(1);
    without_unstaged.secondary_diff = None;
    assert_eq!(
        told(&editor.apply_stage_or_unstage(true, &hunks, &vec![without_unstaged])),
        ["ReportNoSecondaryDiff"]
    );
    let mut unstageable = diff(1);
    unstageable.is_stageable = false;
    let diffs = vec![unstageable];
    assert!(editor.apply_toggle(&hunks, &diffs).is_empty());
    editor.set_diff_hunk_delegate(Some(DelegateKind::RestoreOnlyUnstaged));
    assert_eq!(editor.diff_hunk_delegate(), DelegateKind::RestoreOnlyUnstaged);
    assert!(editor.apply_toggle(&hunks, &diffs).is_empty());
    assert_eq!(editor.apply_restore(&hunks, &diffs).len(), 2);
    assert!(editor.uncommitted_diffs_loaded(&vec![Some(1), Some(2)]).is_empty());
    editor.set_diff_hunk_delegate(None);
    assert_eq!(
        events(&mut editor),
        ["CancelDiffLoad", "CollapseAllDiffHunks", "LoadDiff"]
    );
}

#[test]
fn the_whole_of_a_new_file_is_not_reverted() {
    let mut whole = hunk(1, 0, 1);
    whole.buffer_range = TextRange {
        start: TextAnchor::Min,
        end: TextAnchor::Max,
    };
    whole.diff_base_byte_range = bytes(0, 0);
    let groups = resolve_diff_hunks(&vec![whole], &vec![diff(1)]);
    assert!(Editor::new(false, true).restore_diff_hunks(&groups).is_empty());
}

#[test]
fn delegates_differ_in_what_they_do() {
    let host = HunkHost {
        has_project: true,
        read_only: false,
    };
    let groups = resolve_diff_hunks(&vec![hunk(1, 0, 1)], &vec![diff(1)]);
    assert_eq!(UncommittedDiffHunkDelegate.toggle(&groups, &host).len(), 1);
    assert!(RestoreOnlyDiffHunkDelegate.toggle(&groups, &host).is_empty());
    assert!(RestoreOnlyDiffHunkDelegate.restore(&groups, &host).is_empty());
    assert_eq!(
        RestoreOnlyUnstagedDiffHunkDelegate
            .restore(&groups, &host)
            .len(),
        2
    );
    assert!(UncommittedDiffHunkDelegate.render_hunk_as_staged(&status(false)));
    assert!(!UncommittedDiffHunkDelegate.render_hunk_as_staged(&status(true)));
    assert!(!RestoreOnlyUnstagedDiffHunkDelegate.render_hunk_as_staged(&status(false)));
    let alone = HunkHost {
        has_project: false,
        read_only: false,
    };
    assert!(UncommittedDiffHunkDelegate.toggle(&groups, &alone).is_empty());
}

#[test]
fn one_goes_round_to_the_first_and_to_the_last_hunk() {
    let mut editor = Editor::new(false, true);
    let search = HunkSearch {
        after: vec![hunk(1, 3, 5)],
        before: vec![hunk(1, 1, 2)],
        row_before: None,
        last_row: Some(9),
    };
    editor.go_to_hunk_before_or_after_position(&search, point(2, 0), Direction::Next, true);
    editor.go_to_hunk_before_or_after_position(&search, point(3, 0), Direction::Next, true);
    editor.go_to_hunk_before_or_after_position(&search, point(3, 0), Direction::Next, false);
    editor.go_to_hunk_before_or_after_position(&search, point(3, 0), Direction::Prev, true);
    editor.go_on_after_change(&search, point(3, 0), true);
    assert_eq!(
        events(&mut editor),
        [
            "GoTo { point: Point { row: 3, column: 0 } }",
            "GoTo { point: Point { row: 1, column: 0 } }",
            "GoTo { point: Point { row: 9, column: 0 } }",
        ]
    );
    let empty = AnchorRange {
        start: Anchor { id: 1 },
        end: Anchor { id: 1 },
    };
    let selected = AnchorRange {
        start: Anchor { id: 1 },
        end: Anchor { id: 2 },
    };
    assert!(Editor::goes_on_after_staging(&vec![empty]));
    assert!(!Editor::goes_on_after_staging(&vec![empty, selected]));
}

#[test]
fn hunks_are_shown_and_hidden() {
    let mut editor = Editor::new(false, true);
    editor.toggle_all_diff_hunks(false, true);
    editor.toggle_all_diff_hunks(false, false);
    editor.toggle_selected_diff_hunks(true);
    editor.expand_selected_diff_hunks();
    editor.set_expand_all_diff_hunks();
    assert!(editor.clear_expanded_diff_hunks(false, true));
    assert!(!editor.clear_expanded_diff_hunks(true, true));
    assert_eq!(
        events(&mut editor),
        [
            "CollapseDiffHunks { scope: All }",
            "ExpandDiffHunks { scope: All }",
            "CollapseDiffHunks { scope: Selected }",
            "ExpandDiffHunks { scope: Selected }",
            "KeepDiffHunksExpanded",
            "CollapseDiffHunks { scope: All }",
        ]
    );
    assert_eq!(
        editor.status_for_buffer_id(&vec![None, Some(2)], Some(3)),
        Some(2)
    );
    assert_eq!(editor.status_for_buffer_id(&vec![None], Some(3)), Some(3));
    let state = |buffer, on_disk, is_dirty| BufferSaveState {
        buffer,
        on_disk,
        is_dirty,
    };
    assert_eq!(
        editor.save_buffers_for_ranges_if_needed(&vec![
            state(1, true, true),
            state(2, false, true),
            state(3, true, false),
            state(1, true, true),
            state(4, true, true),
        ]),
        [1, 4]
    );
}

fn setting(stageable: bool, all_diff_hunks_expanded: bool) -> HunkSetting {
    HunkSetting {
        stageable,
        show_stage_restore_buttons: true,
        status: status(true),
        is_created_file: true,
        all_diff_hunks_expanded,
    }
}

#[test]
fn hunks_have_rows_and_buttons() {
    let words = vec![bytes(3, 5)];
    assert_eq!(
        hunk_points(&hunk(1, 2, 4), 7),
        (point(2, 0), point(3, 7))
    );
    assert_eq!(hunk_points(&hunk(1, 2, 2), 7), (point(2, 0), point(2, 0)));
    assert_eq!(
        display_diff_hunk(&hunk(1, 2, 4), &words, false, false, false, point(2, 3), point(3, 7)),
        Some(DisplayDiffHunk::Folded { display_row: 2 })
    );
    assert!(matches!(
        display_diff_hunk(&hunk(1, 2, 4), &words, false, false, false, point(2, 0), point(3, 7)),
        Some(DisplayDiffHunk::Unfolded {
            start_row: 2,
            end_row: 4,
            multi_buffer_range,
            word_diffs,
            ..
        }) if word_diffs == words && multi_buffer_range == hunk(1, 2, 4).multi_buffer_range
    ));
    assert_eq!(
        display_diff_hunk(&hunk(1, 2, 2), &words, false, false, true, point(2, 0), point(2, 0)),
        None
    );
    assert_eq!(
        render_diff_hunk_controls(&setting(true, false)),
        [
            HunkControl::Stage { faded: false },
            HunkControl::Restore { disabled: true },
            HunkControl::NextHunk,
            HunkControl::PreviousHunk,
        ]
    );
    assert!(render_diff_hunk_controls(&setting(false, true)).is_empty());
    let mut editor = Editor::new(false, true);
    let merges = editor.apply_selected_diff_hunks(
        &vec![hunk(1, 0, 1), hunk(2, 2, 3), hunk(1, 4, 5)],
        &vec![1],
    );
    assert_eq!(merges.len(), 1);
    assert_eq!(merges[0].ranges, [range(0, 1), range(4, 5)]);
    editor.read_only = true;
    assert!(editor
        .apply_selected_diff_hunks(&vec![hunk(1, 0, 1)], &vec![1])
        .is_empty());
}

#[test]
fn permanent_links_lead_to_the_cursor() {
    let rows = |buffer, start_row, base_rows| SelectedRows {
        buffer,
        start_row,
        end_row: start_row + 1,
        base_rows,
    };
    let mut editor = Editor::new(false, true);
    let selected = vec![rows(Some(1), 4, None), rows(Some(2), 6, Some((8, 9)))];
    assert_eq!(
        editor.permalink_request(&selected, true),
        Ok(PermalinkLines { buffer: 1, start_row: 4, end_row: 5 })
    );
    assert_eq!(
        editor.permalink_request(&selected, false),
        Ok(PermalinkLines { buffer: 2, start_row: 8, end_row: 9 })
    );
    assert_eq!(
        editor.permalink_request(&vec![], false),
        Err(PermalinkError::NoSelection)
    );
    assert_eq!(
        editor.permalink_request(&vec![rows(None, 1, None)], false),
        Err(PermalinkError::NoSelection)
    );
    editor.has_project = false;
    let error = editor
        .permalink_request(&selected, false)
        .expect_err("no project");
    assert_eq!(error.message(), "editor does not have project");
    assert_eq!(
        PermalinkError::NoSelection.message(),
        "failed to determine buffer and selection"
    );
}

#[test]
fn blame_is_shown_where_it_was_asked_for() {
    let context = BlameContext {
        fresh: 7,
        without_file: false,
        has_entries: true,
        delayed: false,
        contains_focused: true,
        is_focused: true,
        on_empty_line: false,
        inline: true,
        is_minimap: false,
    };
    let mut editor = Editor::new(false, true);
    assert_eq!(editor.blame(), None);
    editor.toggle_git_blame(&context);
    assert!(editor.show_git_blame_gutter());
    assert_eq!(editor.blame(), Some(7));
    assert!(editor.render_git_blame_gutter(&context));
    assert!(!editor.render_git_blame_inline(&context));
    assert_eq!(editor.active_git_blame_entry(Some(1), &context), None);
    editor.toggle_git_blame_inline(&context);
    assert!(editor.git_blame_inline_enabled());
    assert!(editor.render_git_blame_inline(&context));
    assert_eq!(editor.active_git_blame_entry(Some(1), &context), Some(1));
    editor.toggle_git_blame_inline(&context);
    assert!(!editor.git_blame_inline_enabled());
    let delayed = BlameContext { delayed: true, ..context };
    editor.toggle_git_blame_inline(&delayed);
    assert!(!editor.render_git_blame_inline(&delayed));
    editor.inline_blame_delay_passed();
    assert!(editor.render_git_blame_inline(&delayed));
    editor.take_effects();
    assert!(!editor.hide_blame_popover(false));
    editor.blame_hover(true, true, &context);
    editor.blame_popover_ready(true);
    assert!(editor.hide_blame_popover(false));
    editor.show_blame_popover(true);
    assert!(editor.hide_blame_popover(true));
    assert!(!editor.hide_blame_popover(true));
    editor.open_git_blame_commit(true, true, false);
    editor.open_git_blame_commit(true, true, true);
    assert_eq!(
        events(&mut editor),
        [
            "CancelBlamePopover",
            "ShowBlamePopover { at_once: true }",
            "CancelBlamePopover",
            "HideBlamePopoverLater",
            "KeepBlamePopover",
            "CancelBlamePopover",
            "CancelBlamePopover",
            "OpenBlameCommit",
        ]
    );
    let mut waiting = Editor::new(false, true);
    let empty = BlameContext { has_entries: false, ..context };
    waiting.blame_hover(true, true, &empty);
    waiting.blame_entries_ready(true, true);
    assert_eq!(
        events(&mut waiting),
        [
            "StartBlame { blame: 7, user_triggered: true, focused: true }",
            "ShowBlamePopover { at_once: true }",
        ]
    );
}

#[test]
fn diffs_are_loaded_for_files_alone() {
    let mut editor = Editor::new(false, true);
    assert_eq!(
        editor.update_uncommitted_diff_for_buffer(&vec![(1, true), (2, false), (3, true)]),
        [1, 3]
    );
    let loaded = vec![Some(11), None, Some(13)];
    assert_eq!(editor.uncommitted_diffs_loaded(&loaded), [11, 13]);
    editor.set_diff_hunk_delegate(Some(DelegateKind::RestoreOnly));
    assert!(editor.uncommitted_diffs_loaded(&loaded).is_empty());
}

#[test]
fn files_are_restored_whole_and_one_goes_on() {
    let queries = vec![HunkQuery {
        start_row: 0,
        end_row: 9,
        hunks: vec![hunk(1, 0, 2), hunk(1, 4, 5)],
    }];
    let mut editor = Editor::new(false, true);
    let whole = editor.restore_file(&queries, &vec![diff(1)]);
    assert_eq!(whole.len(), 3);
    assert!(matches!(&whole[0], HunkAction::Unstage { ranges, .. } if ranges.len() == 2));
    assert!(matches!(&whole[1], HunkAction::Revert { changes, .. } if changes.len() == 2));
    assert_eq!(
        told(&editor.git_restore(&queries, &vec![diff(1)])),
        told(&whole)
    );
    let here = editor
        .restore_and_next(&queries, &vec![diff(1)])
        .expect("what to restore");
    assert_eq!(told(&here), told(&whole));
    editor.read_only = true;
    assert!(editor.restore_file(&queries, &vec![diff(1)]).is_empty());
    assert!(editor.restore_and_next(&queries, &vec![diff(1)]).is_none());
}

#[test]
fn one_goes_from_hunk_to_hunk() {
    let mut editor = Editor::new(false, true);
    let search = HunkSearch {
        after: vec![hunk(1, 3, 5)],
        before: vec![hunk(1, 1, 2)],
        row_before: Some(1),
        last_row: Some(9),
    };
    editor.go_to_next_hunk(&search, point(2, 0));
    editor.go_to_prev_hunk(&search, point(2, 0));
    editor.expand_all_diff_hunks();
    editor.collapse_all_diff_hunks();
    assert_eq!(
        events(&mut editor),
        [
            "GoTo { point: Point { row: 3, column: 0 } }",
            "GoTo { point: Point { row: 1, column: 0 } }",
            "ExpandDiffHunks { scope: All }",
            "CollapseDiffHunks { scope: All }",
        ]
    );
    assert!(editor.has_any_expanded_diff_hunks(false, true));
    assert!(editor.has_any_expanded_diff_hunks(true, false));
    assert!(!editor.has_any_expanded_diff_hunks(false, false));
}

#[test]
fn hunks_on_the_screen_are_those_not_folded_away() {
    let placed = |hunk, is_folded| PlacedHunk {
        hunk,
        word_diffs: vec![bytes(1, 2)],
        is_created_file: false,
        is_folded,
        start: point(2, 0),
        end: point(3, 7),
    };
    let shown = display_diff_hunks_for_rows(
        &vec![placed(hunk(1, 2, 4), false), placed(hunk(2, 2, 4), true)],
        false,
    );
    assert_eq!(shown.len(), 1);
    assert!(matches!(shown[0], DisplayDiffHunk::Unfolded { start_row: 2, end_row: 4, .. }));
}

#[test]
fn whole_buffers_are_taken_over() {
    let mut editor = Editor::new(false, true);
    let merges = editor.apply_all_diff_hunks(&vec![4, 7]);
    assert_eq!(
        merges.iter().map(|merge| merge.buffer).collect::<Vec<_>>(),
        [4, 7]
    );
    assert!(merges.iter().all(|merge| merge.ranges.is_empty()));
    assert!(editor.saves_after_apply());
    editor.has_project = false;
    assert!(!editor.saves_after_apply());
    editor.read_only = true;
    assert!(editor.apply_all_diff_hunks(&vec![4]).is_empty());
    assert_eq!(
        permalink_failure(true, "no remote"),
        "Failed to copy permalink: no remote"
    );
    assert_eq!(
        permalink_failure(false, "no remote"),
        "Failed to open permalink: no remote"
    );
}

#[test]
fn blame_waits_for_its_delay() {
    let context = BlameContext {
        fresh: 7,
        without_file: false,
        has_entries: true,
        delayed: true,
        contains_focused: true,
        is_focused: true,
        on_empty_line: false,
        inline: true,
        is_minimap: false,
    };
    let mut editor = Editor::new(false, true);
    assert!(!editor.has_blame_entries(&context));
    editor.show_blame_hover_popover(true, true);
    assert!(events(&mut editor).is_empty());
    editor.start_git_blame_inline(false, &context);
    assert!(editor.has_blame_entries(&context));
    assert!(!editor.render_git_blame_inline(&context));
    editor.inline_blame_delay_passed();
    assert!(editor.render_git_blame_inline(&context));
    editor.take_effects();
    editor.start_inline_blame_timer(&context);
    assert_eq!(events(&mut editor), ["StartInlineBlameTimer"]);
    assert!(!editor.render_git_blame_inline(&context));
    editor.show_blame_popover(true);
    editor.blame_popover_ready(true);
    assert!(editor.hide_blame_popover(false));
    editor.blame_popover_timed_out();
    assert!(!editor.hide_blame_popover(false));
}

#[test]
fn buttons_act_where_their_hunk_is() {
    let range = AnchorRange {
        start: Anchor { id: 4 },
        end: Anchor { id: 9 },
    };
    let start = AnchorRange {
        start: Anchor { id: 4 },
        end: Anchor { id: 4 },
    };
    assert_eq!(
        HunkControl::Stage { faded: true }.action(range),
        Some(HunkControlAction::StageOrUnstage { stage: true, range: start })
    );
    assert_eq!(
        HunkControl::Unstage { faded: false }.action(range),
        Some(HunkControlAction::StageOrUnstage { stage: false, range: start })
    );
    assert_eq!(
        HunkControl::Restore { disabled: false }.action(range),
        Some(HunkControlAction::Restore { range: start })
    );
    assert_eq!(HunkControl::Restore { disabled: true }.action(range), None);
    assert_eq!(
        HunkControl::NextHunk.action(range),
        Some(HunkControlAction::GoFromHunk {
            from: Anchor { id: 9 },
            direction: Direction::Next,
        })
    );
    assert_eq!(
        HunkControl::PreviousHunk.action(range),
        Some(HunkControlAction::GoFromHunk {
            from: Anchor { id: 4 },
            direction: Direction::Prev,
        })
    );
    let mut editor = Editor::new(false, true);
    let search = HunkSearch {
        after: Vec::new(),
        before: vec![hunk(1, 1, 2)],
        row_before: None,
        last_row: None,
    };
    editor.go_from_hunk(&search, point(5, 0), Direction::Next);
    editor.go_from_hunk(&search, point(5, 0), Direction::Prev);
    assert_eq!(
        events(&mut editor),
        [
            "GoTo { point: Point { row: 1, column: 0 } }",
            "ExpandDiffHunks { scope: Selected }",
            "ExpandDiffHunks { scope: Selected }",
        ]
    );
}

#[test]
fn delegates_show_their_own_buttons() {
    let setting = setting(true, false);
    assert_eq!(
        UncommittedDiffHunkDelegate.render_hunk_controls(&setting),
        render_diff_hunk_controls(&setting)
    );
    assert!(RestoreOnlyDiffHunkDelegate.render_hunk_controls(&setting).is_empty());
    assert!(RestoreOnlyUnstagedDiffHunkDelegate.render_hunk_controls(&setting).is_empty());
    assert_eq!(
        DelegateKind::RestoreOnly.render_hunk_controls(&setting),
        Some(Vec::new())
    );
    assert_eq!(DelegateKind::Custom(7).render_hunk_controls(&setting), None);
    assert_eq!(DelegateKind::Custom(7).render_hunk_as_staged(&status(true)), None);
    assert_eq!(
        DelegateKind::Uncommitted.render_hunk_as_staged(&status(true)),
        Some(false)
    );
}

#[test]
fn hunks_are_handed_to_a_delegate_of_ones_own() {
    let mut editor = Editor::new(false, true);
    editor.set_diff_hunk_delegate(Some(DelegateKind::Custom(7)));
    let mut unstageable = diff(1);
    unstageable.is_stageable = false;
    let diffs = vec![unstageable];
    let hunks = vec![hunk(1, 0, 1)];
    let asked = |actions: Vec<HunkAction>| match &actions[..] {
        [HunkAction::AskDelegate { delegate: 7, request, groups }] if groups.len() == 1 => {
            Some(*request)
        }
        _ => None,
    };
    assert_eq!(
        asked(editor.apply_toggle(&hunks, &diffs)),
        Some(DelegateRequest::Toggle)
    );
    assert_eq!(
        asked(editor.apply_stage_or_unstage(true, &hunks, &diffs)),
        Some(DelegateRequest::StageOrUnstage { stage: true })
    );
    assert_eq!(
        asked(editor.apply_restore(&hunks, &diffs)),
        Some(DelegateRequest::Restore)
    );
    assert!(editor.apply_toggle(&Vec::new(), &diffs).is_empty());
}
