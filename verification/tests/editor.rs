use stack_review::comment::{
    StackReviewComment, StackReviewCommentAuthor, StackReviewCommentSource,
};
use stack_review::editor::{
    format_stack_review_comment_timestamp, CurrentUser, DiffReviewOverlay, Editor,
};
use stack_review::editor_comments::CommentStamp;
use stack_review::editor_effect::{BlockStyle, EditorEffect, EditorEvent, Placeholder};
use stack_review::editor_overlays::{
    review_overlay_group_anchor, stack_review_comment_row_is_activatable,
    stack_review_overlay_block_style, stack_review_overlay_shows_transient_state,
};
use stack_review::review_comment::{
    Anchor, AnchorRange, DiffHunkKey, ReviewCommentKey, StoredReviewComment,
};
use stack_review::review_rows::{
    format_line_ranges, key_selects_row, render_comment_row, stack_review_agent_prompt_body,
    RowAction, RowButton, RowContent, SectionRow,
};
use stack_review::review_snapshot::{
    AnchorPlace, BufferPlace, DiffRows, Point, ReviewBuffer, ReviewSnapshot,
};
use stack_review::text_map::TextMap;
use stack_review::thread_items::{stack_review_thread_items, StackReviewThreadItem};

const ROWS: u32 = 20;

fn point(row: u32, column: u32) -> Point {
    Point { row, column }
}

/// Anchor 2 * row stands at the beginning of a row, and the next at its end.
fn at(id: usize) -> Anchor {
    Anchor { id }
}

fn rows(start: u32, end: u32) -> AnchorRange {
    AnchorRange {
        start: at(2 * start as usize),
        end: at(2 * end as usize + 1),
    }
}

fn snapshot() -> ReviewSnapshot {
    let mut places = Vec::new();
    let mut anchors = Vec::new();
    for row in 0..ROWS {
        for column in [0, 10] {
            anchors.push((point(row, column), at(places.len())));
            places.push(AnchorPlace {
                point: point(row, column),
                display_row: row,
                valid: true,
                buffer: Some(BufferPlace {
                    buffer_id: 1,
                    point: point(row, column),
                }),
                file: Some("src/lib.rs".into()),
            });
        }
    }
    ReviewSnapshot {
        places,
        hunks: Vec::new(),
        buffers: vec![ReviewBuffer {
            path: Some("src/lib.rs".into()),
            anchors,
        }],
    }
}

fn hunk(start: u32, end: u32) -> DiffHunkKey {
    DiffHunkKey {
        file_path: "src/lib.rs".into(),
        hunk_start_anchor: at(2 * start as usize),
        review_range_end_anchor: Some(at(2 * end as usize + 1)),
    }
}

fn stamp(record_id: &str) -> CommentStamp {
    CommentStamp {
        record_id: record_id.into(),
        created_at: "2026-08-21T12:00:00Z".into(),
        localized: Some("today".into()),
    }
}

fn stored(id: usize, record_id: Option<&str>) -> StoredReviewComment {
    StoredReviewComment {
        id,
        record_id: record_id.map(str::to_owned),
        comment: format!("comment {id}"),
        range: rows(1, 2),
        is_editing: false,
        author: StackReviewCommentAuthor {
            name: format!("author {id}"),
            login: None,
        },
        source: StackReviewCommentSource::LocalHuman,
        reply_to: None,
        reply_to_record_id: None,
        created_at: format!("2026-08-21T12:00:{:02}Z", id % 60),
        created_at_display: Some("today".into()),
        resolved: false,
        stashed: false,
    }
}

fn review_comment(id: usize, record_id: Option<&str>, row: u32) -> StackReviewComment {
    StackReviewComment {
        id,
        record_id: record_id.map(str::to_owned),
        path: "src/lib.rs".into(),
        start_row: row,
        start_column: 0,
        end_row: row,
        end_column: 10,
        body: format!("comment {id}"),
        created_at: "2026-08-21T12:00:00Z".into(),
        resolved: false,
        author: StackReviewCommentAuthor::default(),
        source: StackReviewCommentSource::LocalHuman,
        reply_to: None,
        reply_to_record_id: None,
    }
}

fn localized() -> TextMap<String> {
    let mut localized = TextMap::new();
    localized.insert("2026-08-21T12:00:00Z".into(), "today".into());
    localized
}

fn restored(comments: &[StackReviewComment]) -> Editor {
    let mut editor = Editor::new(true, true);
    editor.restore_stack_review_comments(comments, &localized(), &snapshot());
    editor.take_effects();
    editor
}

fn events(editor: &mut Editor) -> Vec<String> {
    editor
        .take_effects()
        .into_iter()
        .map(|effect| format!("{effect:?}"))
        .collect()
}

fn told(items: &[StackReviewThreadItem]) -> Vec<(String, usize)> {
    items
        .iter()
        .map(|item| match item {
            StackReviewThreadItem::Comment { comment, depth, .. } => {
                (comment.comment.clone(), *depth)
            }
            StackReviewThreadItem::Composer { depth, .. } => ("composer".to_owned(), *depth),
        })
        .collect()
}

fn overlay(editor: &Editor, at: usize) -> &DiffReviewOverlay {
    &editor.diff_review_overlays[at]
}

#[test]
fn threads_are_shown_from_their_roots_down() {
    let mut reply = stored(3, Some("c"));
    reply.reply_to_record_id = Some("a".into());
    let mut deep = stored(4, Some("d"));
    deep.reply_to_record_id = Some("c".into());
    let mut early_reply = stored(0, Some("e"));
    early_reply.reply_to_record_id = Some("a".into());
    let items = stack_review_thread_items(
        vec![deep, reply, stored(2, Some("b")), stored(1, Some("a")), early_reply],
        None,
        None,
    );
    assert_eq!(
        told(&items),
        [
            ("comment 1".to_owned(), 0),
            ("comment 0".to_owned(), 1),
            ("comment 3".to_owned(), 1),
            ("comment 4".to_owned(), 2),
            ("comment 2".to_owned(), 0),
        ]
    );
}

#[test]
fn every_comment_of_a_ring_is_shown_once() {
    let mut a = stored(1, Some("a"));
    a.reply_to_record_id = Some("b".into());
    let mut b = stored(2, Some("b"));
    b.reply_to_record_id = Some("a".into());
    let items = stack_review_thread_items(vec![b, a, stored(5, None)], Some(5), None);
    assert_eq!(
        told(&items),
        [
            ("comment 5".to_owned(), 0),
            ("composer".to_owned(), 1),
            ("comment 1".to_owned(), 0),
            ("comment 2".to_owned(), 1),
        ]
    );
}

#[test]
fn depth_stops_growing() {
    let comments = (0..40)
        .map(|id| {
            let mut comment = stored(id, Some(&format!("record-{id}")));
            if id > 0 {
                comment.reply_to_record_id = Some(format!("record-{}", id - 1));
            }
            comment
        })
        .collect::<Vec<_>>();
    let items = stack_review_thread_items(comments, None, Some("record-39"));
    let depths = told(&items)
        .into_iter()
        .map(|(_, depth)| depth)
        .collect::<Vec<_>>();
    assert_eq!(depths[31..], [31, 32, 32, 32, 32, 32, 32, 32, 32, 33]);
}

#[test]
fn a_reply_to_what_cannot_be_told_stands_at_the_end() {
    let mut orphan = stored(2, Some("b"));
    orphan.reply_to_record_id = Some("gone".into());
    let twins = vec![stored(1, Some("a")), stored(1, Some("a")), orphan];
    let items = stack_review_thread_items(twins, Some(1), Some("a"));
    assert_eq!(told(&items).last(), Some(&("composer".to_owned(), 0)));
    match &items[2] {
        StackReviewThreadItem::Comment { reply_metadata: Some(metadata), .. } => {
            assert_eq!(metadata.label(), "Replying to unavailable parent");
        }
        _ => panic!("expected an orphan"),
    }
    match items.last() {
        Some(StackReviewThreadItem::Composer { target_metadata, .. }) => {
            assert_eq!(target_metadata.label(), "Replying to unavailable parent");
            assert!(target_metadata
                .selector()
                .starts_with("STACK_REVIEW_REPLY_COMPOSER_META-"));
        }
        _ => panic!("expected a composer"),
    }
}

#[test]
fn numbers_link_only_comments_without_records() {
    let mut reply = stored(2, None);
    reply.reply_to = Some(1);
    let mut recorded = stored(3, Some("r"));
    recorded.reply_to = Some(1);
    let items = stack_review_thread_items(vec![stored(1, None), reply, recorded], None, None);
    assert_eq!(
        told(&items),
        [
            ("comment 1".to_owned(), 0),
            ("comment 2".to_owned(), 1),
            ("comment 3".to_owned(), 0),
        ]
    );
    match &items[1] {
        StackReviewThreadItem::Comment { reply_metadata: Some(metadata), comment, .. } => {
            assert_eq!(metadata.label(), "Replying to author 1");
            assert_ne!(metadata.selector(comment, 0), metadata.selector(comment, 1));
        }
        _ => panic!("expected a reply"),
    }
}

#[test]
fn comments_are_added_counted_and_removed() {
    let snapshot = snapshot();
    let mut editor = Editor::new(false, true);
    let first = editor.add_review_comment(hunk(1, 2), "one".into(), rows(1, 2), stamp("x"), &snapshot);
    let second =
        editor.add_review_comment(hunk(1, 2), "two".into(), rows(1, 2), stamp("y"), &snapshot);
    let third =
        editor.add_review_comment(hunk(5, 5), "three".into(), rows(5, 5), stamp("z"), &snapshot);
    assert_eq!((first, second, third), (0, 1, 2));
    assert_eq!(editor.total_review_comment_count(), 3);
    assert_eq!(editor.hunk_comment_count(&hunk(1, 2), &snapshot), 2);
    assert_eq!(editor.hunk_comment_count(&hunk(1, 3), &snapshot), 0);
    let comments = editor.comments_for_hunk(&hunk(1, 2), &snapshot);
    assert_eq!(comments[0].author.name, "You");
    assert_eq!(comments[0].record_id, None);
    assert_eq!(comments[0].created_at_display.as_deref(), Some("today"));
    assert!(editor.update_review_comment(1, "changed".into()));
    assert!(!editor.update_review_comment(7, "changed".into()));
    editor.stored_review_comments[0].comments[1].reply_to = Some(0);
    assert!(editor.remove_review_comment(0));
    assert!(!editor.remove_review_comment(0));
    let comments = editor.comments_for_hunk(&hunk(1, 2), &snapshot);
    assert_eq!(comments.len(), 1);
    assert_eq!(comments[0].comment, "changed");
    assert_eq!(comments[0].reply_to, None);
    assert_eq!(
        events(&mut editor).last().map(String::as_str),
        Some("Emit(ReviewCommentsChanged { total_count: 2 })")
    );
}

#[test]
fn only_the_review_of_a_stack_keeps_records() {
    let snapshot = snapshot();
    let mut editor = Editor::new(true, true);
    editor.add_review_comment(hunk(1, 2), "one".into(), rows(1, 2), stamp("record"), &snapshot);
    let comments = editor.comments_for_hunk(&hunk(1, 2), &snapshot);
    assert_eq!(comments[0].record_id.as_deref(), Some("record"));
    assert_eq!(comments[0].routing_key().debug_identity(), "stable:record");
    assert!(ReviewCommentKey::Stable("record".into()).matches(&comments[0]));
    assert!(!ReviewCommentKey::Legacy(0).matches(&comments[0]));
}

#[test]
fn a_whole_thread_is_resolved() {
    let mut comments = vec![
        review_comment(1, None, 3),
        review_comment(2, None, 3),
        review_comment(3, Some("r"), 4),
        review_comment(4, None, 5),
    ];
    comments[1].reply_to = Some(1);
    comments[2].reply_to_record_id = Some("missing".into());
    let mut editor = restored(&comments);
    editor.stored_review_comments[0].comments[1].reply_to = Some(1);
    assert!(editor.set_review_comment_resolved(2, true));
    let resolved = editor
        .stack_review_comments(&snapshot())
        .into_iter()
        .map(|comment| comment.resolved)
        .collect::<Vec<_>>();
    assert_eq!(resolved, [true, true, false, false]);
    assert_eq!(
        events(&mut editor),
        ["Emit(ReviewCommentResolutionChanged { ids: [1, 2], resolved: true })"]
    );
    assert!(!editor.set_review_comment_resolved(3, true));
    assert!(!editor.set_review_comment_resolved(9, true));
    assert!(editor.set_stack_review_comment_resolved("r", true));
    assert_eq!(
        events(&mut editor),
        ["Emit(StackReviewCommentResolutionChanged { record_ids: [\"r\"], resolved: true })"]
    );
    assert!(!editor.set_stack_review_comment_resolved("s", true));
}

#[test]
fn a_ring_is_not_resolved() {
    let mut comments = vec![review_comment(1, None, 3), review_comment(2, None, 3)];
    comments[0].reply_to = Some(2);
    comments[1].reply_to = Some(1);
    let mut editor = restored(&comments);
    assert!(!editor.set_review_comment_resolved(1, true));
    assert!(events(&mut editor).is_empty());
}

#[test]
fn the_comment_at_the_cursor_is_toggled() {
    let mut comments = vec![
        review_comment(1, Some("a"), 3),
        review_comment(2, Some("b"), 3),
    ];
    comments[0].resolved = true;
    let mut editor = restored(&comments);
    editor.toggle_active_review_comment_resolved(point(3, 4), &snapshot());
    assert_eq!(
        events(&mut editor),
        ["Emit(StackReviewCommentResolutionChanged { record_ids: [\"b\"], resolved: true })"]
    );
    editor.toggle_active_review_comment_resolved(point(3, 4), &snapshot());
    assert_eq!(
        events(&mut editor),
        ["Emit(StackReviewCommentResolutionChanged { record_ids: [\"a\"], resolved: false })"]
    );
    editor.toggle_active_review_comment_resolved(point(9, 0), &snapshot());
    assert!(events(&mut editor).is_empty());
    let mut other = Editor::new(false, true);
    other.toggle_active_review_comment_resolved(point(3, 4), &snapshot());
    assert_eq!(events(&mut other), ["Propagate"]);
}

#[test]
fn comments_come_back_from_an_editor_as_they_were_put_in() {
    let comments = vec![
        review_comment(1, Some("a"), 3),
        review_comment(4, None, 7),
        review_comment(6, Some("b"), 3),
    ];
    let editor = restored(&comments);
    assert_eq!(editor.stored_review_comments.len(), 2);
    assert_eq!(editor.next_review_comment_id, 7);
    assert_eq!(editor.stack_review_comments(&snapshot()), comments);
    let mut elsewhere = review_comment(9, None, 3);
    elsewhere.path = "src/other.rs".into();
    let editor = restored(&[elsewhere]);
    assert!(editor.stored_review_comments.is_empty());
    assert_eq!(editor.next_review_comment_id, 10);
}

#[test]
fn a_projection_shows_what_it_replaces() {
    let comments = vec![review_comment(1, Some("a"), 3), review_comment(2, Some("b"), 7)];
    let mut editor = Editor::new(true, true);
    editor.replace_stack_review_comment_projection(
        &comments,
        &["b".to_owned()],
        &localized(),
        &snapshot(),
    );
    assert_eq!(editor.diff_review_overlays.len(), 2);
    assert!(!overlay(&editor, 0).composer_visible);
    assert_eq!(editor.visible_stack_review_comment_count(&snapshot()), 2);
    assert!(!editor.stored_review_comments[0].comments[0].stashed);
    assert!(editor.stored_review_comments[1].comments[0].stashed);
    assert_eq!(
        events(&mut editor),
        [
            "OpenOverlay { overlay: 0, style: StickyMirrored, row: 3, height: 1 }",
            "OpenOverlay { overlay: 1, style: StickyMirrored, row: 7, height: 1 }",
        ]
    );
    editor.replace_stack_review_comment_projection(
        &comments[..1],
        &[],
        &localized(),
        &snapshot(),
    );
    assert_eq!(
        events(&mut editor),
        ["CloseOverlays { overlays: [1] }"]
    );
    assert_eq!(editor.diff_review_overlays.len(), 1);
}

#[test]
fn a_first_comment_shows_its_overlay_anew() {
    let snapshot = snapshot();
    let mut editor = Editor::new(true, true);
    editor.current_user = Some(CurrentUser {
        name: None,
        username: "user".into(),
        avatar_uri: "avatar".into(),
    });
    editor.show_diff_review_overlay(rows(2, 3), at(4), &snapshot);
    assert_eq!(editor.diff_review_prompt_editor(), Some(0));
    assert_eq!(
        events(&mut editor),
        [
            "OpenOverlay { overlay: 0, style: Sticky, row: 3, height: 1 }",
            "FocusPrompt { overlay: 0 }",
        ]
    );
    editor.submit_diff_review_comment(Some(0), "  \n", stamp("r"), &snapshot);
    editor.submit_diff_review_comment(None, "text", stamp("r"), &snapshot);
    assert!(events(&mut editor).is_empty());
    editor.submit_diff_review_comment(Some(0), " text\n", stamp("r"), &snapshot);
    assert_eq!(
        events(&mut editor),
        [
            "Emit(ReviewCommentsChanged { total_count: 1 })",
            "CloseOverlays { overlays: [0] }",
            "OpenOverlay { overlay: 1, style: StickyMirrored, row: 3, height: 1 }",
            "FocusEditor",
        ]
    );
    let comment = &editor.stored_review_comments[0].comments[0];
    assert_eq!(comment.comment, "text");
    assert_eq!(comment.author.name, "user");
    assert_eq!(comment.author.login.as_deref(), Some("user"));
    assert!(!overlay(&editor, 0).composer_visible);
    assert_eq!(overlay(&editor, 0).user_avatar_uri.as_deref(), Some("avatar"));
}

#[test]
fn replies_are_written_below_what_they_reply_to() {
    let snapshot = snapshot();
    let mut editor = restored(&[review_comment(1, Some("a"), 3)]);
    editor.reveal_restored_stack_review_comments(&snapshot);
    editor.take_effects();
    editor.reply_to_stack_review_comment("a", &snapshot);
    assert_eq!(
        events(&mut editor),
        [
            "ClearPrompt { overlay: 0 }",
            "SetPlaceholder { overlay: 0, placeholder: Reply }",
            "FocusPrompt { overlay: 0 }",
        ]
    );
    editor.submit_diff_review_comment(Some(0), "reply", stamp("b"), &snapshot);
    let reply = &editor.stored_review_comments[0].comments[1];
    assert_eq!(reply.reply_to, Some(1));
    assert_eq!(reply.reply_to_record_id.as_deref(), Some("a"));
    assert_eq!(
        events(&mut editor),
        [
            "Emit(ReviewCommentsChanged { total_count: 2 })",
            "ClearPrompt { overlay: 0 }",
            "SetPlaceholder { overlay: 0, placeholder: Comment }",
            "FocusEditor",
        ]
    );
    editor.reply_to_stack_review_comment("gone", &snapshot);
    editor.reply_to_review_comment(1, &snapshot);
    assert!(events(&mut editor).is_empty());
}

#[test]
fn comments_are_edited_in_place() {
    let snapshot = snapshot();
    let mut editor = restored(&[review_comment(1, Some("a"), 3)]);
    editor.reveal_restored_stack_review_comments(&snapshot);
    editor.take_effects();
    editor.edit_stack_review_comment("a", &snapshot);
    assert!(editor.stored_review_comments[0].comments[0].is_editing);
    assert_eq!(
        events(&mut editor),
        ["OpenInlineEditor { overlay: 0, key: Stable(\"a\"), text: \"comment 1\" }"]
    );
    editor.edit_stack_review_comment("a", &snapshot);
    assert!(events(&mut editor).is_empty());
    editor.confirm_stack_review_comment_edit("a", " new ", &snapshot);
    assert_eq!(editor.stored_review_comments[0].comments[0].comment, "new");
    assert!(!editor.stored_review_comments[0].comments[0].is_editing);
    assert_eq!(
        events(&mut editor),
        [
            "Emit(ReviewCommentsChanged { total_count: 1 })",
            "CloseInlineEditor { overlay: 0, key: Stable(\"a\") }",
        ]
    );
    editor.edit_stack_review_comment("a", &snapshot);
    editor.confirm_stack_review_comment_edit("a", "  ", &snapshot);
    assert_eq!(editor.stored_review_comments[0].comments[0].comment, "new");
    editor.edit_stack_review_comment("a", &snapshot);
    editor.cancel_stack_review_comment_edit("a", &snapshot);
    assert!(overlay(&editor, 0).inline_edits.is_empty());
    assert_eq!(editor.stored_review_comments[0].comments[0].comment, "new");
}

#[test]
fn what_comes_from_github_stays() {
    let snapshot = snapshot();
    let mut comment = review_comment(1, Some("a"), 3);
    comment.source = StackReviewCommentSource::Github;
    let mut editor = restored(&[comment]);
    editor.edit_stack_review_comment("a", &snapshot);
    editor.delete_stack_review_comment("a", &snapshot);
    assert!(events(&mut editor).is_empty());
    assert_eq!(editor.total_review_comment_count(), 1);
    editor.request_stack_review_comment_checkpoint(Some("a"), 1);
    editor.request_stack_review_comment_selection("a");
    editor.request_stack_review_comment_stash("a", true);
    editor.request_stack_review_comment_stash("a", false);
    editor.request_stack_review_comment_stash("b", false);
    assert_eq!(
        events(&mut editor),
        [
            "Emit(StackReviewCommentCheckpointRequested { record_id: \"a\" })",
            "Emit(ReviewCommentSelected { record_id: \"a\" })",
            "Emit(ReviewCommentRestoreRequested { record_id: \"a\" })",
            "Emit(ReviewCommentStashRequested { record_id: \"a\" })",
        ]
    );
}

#[test]
fn deleting_the_last_comment_closes_its_overlay() {
    let snapshot = snapshot();
    let mut editor = restored(&[review_comment(1, Some("a"), 3)]);
    editor.reveal_restored_stack_review_comments(&snapshot);
    editor.take_effects();
    editor.delete_stack_review_comment("a", &snapshot);
    assert_eq!(
        events(&mut editor),
        [
            "Emit(StackReviewCommentDeleted { record_id: \"a\" })",
            "CloseOverlays { overlays: [0] }",
        ]
    );
    assert!(editor.diff_review_overlays.is_empty());
    assert_eq!(editor.total_review_comment_count(), 0);
}

#[test]
fn an_ordinary_review_gives_overlays_heights() {
    let snapshot = snapshot();
    let mut editor = Editor::new(false, true);
    editor.show_diff_review_overlay(rows(2, 2), at(4), &snapshot);
    editor.submit_diff_review_comment(Some(0), &"x".repeat(25), stamp("r"), &snapshot);
    assert_eq!(
        events(&mut editor),
        [
            "OpenOverlay { overlay: 0, style: Sticky, row: 2, height: 2 }",
            "FocusPrompt { overlay: 0 }",
            "Emit(ReviewCommentsChanged { total_count: 1 })",
            "ClearPrompt { overlay: 0 }",
            "SetPlaceholder { overlay: 0, placeholder: Comment }",
            "ResizeOverlay { overlay: 0, height: 6 }",
        ]
    );
    let key = overlay(&editor, 0).hunk_key.clone();
    assert_eq!(editor.calculate_overlay_height(&key, false, true, &snapshot), 3);
    assert_eq!(editor.calculate_overlay_height(&key, true, false, &snapshot), 4);
    editor.stored_review_comments[0].comments[0].comment = "a\n\nb".into();
    assert_eq!(editor.calculate_overlay_height(&key, true, false, &snapshot), 5);
    editor.toggle_review_comments_expanded(None, &snapshot);
    assert!(!overlay(&editor, 0).comments_expanded);
    editor.toggle_review_comments_for_hunk(&key, &snapshot);
    assert!(overlay(&editor, 0).comments_expanded);
    editor.set_diff_review_comments_expanded(false);
    assert!(!overlay(&editor, 0).comments_expanded);
    editor.delete_review_comment(0, &snapshot);
    assert!(editor.diff_review_overlays.is_empty());
}

#[test]
fn composers_are_dismissed() {
    let snapshot = snapshot();
    let mut editor = restored(&[review_comment(1, Some("a"), 3)]);
    editor.reveal_restored_stack_review_comments(&snapshot);
    editor.reply_to_stack_review_comment("a", &snapshot);
    editor.show_diff_review_overlay(rows(9, 9), at(18), &snapshot);
    editor.take_effects();
    assert!(editor.dismiss_stack_review_comment_composers(&snapshot));
    assert_eq!(
        events(&mut editor),
        ["CloseOverlays { overlays: [1] }", "FocusEditor"]
    );
    assert!(!overlay(&editor, 0).composer_visible);
    assert_eq!(overlay(&editor, 0).pending_reply_to, None);
    assert!(!editor.dismiss_stack_review_comment_composers(&snapshot));
    editor.dismiss_all_diff_review_overlays();
    assert_eq!(events(&mut editor), ["CloseOverlays { overlays: [0] }"]);
}

#[test]
fn lines_are_selected_by_dragging() {
    let snapshot = snapshot();
    let mut editor = Editor::new(true, true);
    editor.update_diff_review_drag(at(4));
    assert_eq!(editor.diff_review_drag_state, None);
    editor.start_diff_review_drag(at(10));
    editor.update_diff_review_drag(at(4));
    let rows_selected = editor
        .diff_review_drag_state
        .map(|drag| drag.row_range(&snapshot));
    assert_eq!(rows_selected, Some((2, 5)));
    editor.end_diff_review_drag(rows(2, 5), at(4), &snapshot);
    assert_eq!(editor.diff_review_drag_state, None);
    assert_eq!(editor.diff_review_overlays.len(), 1);
    editor.end_diff_review_drag(rows(7, 8), at(14), &snapshot);
    assert_eq!(editor.diff_review_overlays.len(), 1);
    editor.start_diff_review_drag(at(10));
    editor.cancel_diff_review_drag();
    assert_eq!(editor.diff_review_drag_state, None);
}

#[test]
fn overlays_stay_within_files_under_review() {
    let mut snapshot = snapshot();
    snapshot.places[8].file = None;
    let mut editor = Editor::new(true, true);
    editor.show_diff_review_overlay(rows(4, 5), at(8), &snapshot);
    assert!(editor.diff_review_overlays.is_empty());
    snapshot.hunks.push(DiffRows {
        start_row: 4,
        end_row: 4,
        file: Some("src/lib.rs".into()),
    });
    editor.show_diff_review_overlay(rows(4, 5), at(8), &snapshot);
    assert_eq!(editor.diff_review_overlays.len(), 1);
    assert_eq!(
        editor.review_file_path_at(at(8), &snapshot).as_deref(),
        Some("src/lib.rs")
    );
}

#[test]
fn orphaned_comments_are_forgotten() {
    let mut editor = restored(&[
        review_comment(1, Some("a"), 3),
        review_comment(2, Some("b"), 7),
        review_comment(3, Some("c"), 12),
    ]);
    let mut snapshot = snapshot();
    snapshot.hunks = vec![
        DiffRows {
            start_row: 2,
            end_row: 8,
            file: Some("src/lib.rs".into()),
        },
        DiffRows {
            start_row: 10,
            end_row: 15,
            file: Some("src/lib.rs".into()),
        },
    ];
    editor.cleanup_orphaned_review_comments(&snapshot);
    assert!(events(&mut editor).is_empty());
    snapshot.places[6].valid = false;
    editor.cleanup_orphaned_review_comments(&snapshot);
    assert_eq!(
        events(&mut editor),
        ["Emit(ReviewCommentsChanged { total_count: 2 })"]
    );
    snapshot.hunks[1].file = Some("src/other.rs".into());
    editor.cleanup_orphaned_review_comments(&snapshot);
    assert_eq!(
        events(&mut editor),
        ["Emit(ReviewCommentsChanged { total_count: 1 })"]
    );
    editor.cleanup_orphaned_review_comments(&snapshot);
    assert!(events(&mut editor).is_empty());
    assert_eq!(editor.stored_review_comments[0].comments[0].id, 2);
    assert_eq!(editor.take_all_review_comments().len(), 1);
    assert_eq!(editor.total_review_comment_count(), 0);
    assert_eq!(editor.next_review_comment_id, 0);
    editor.ensure_next_stack_review_comment_id(5);
    editor.ensure_next_stack_review_comment_id(3);
    assert_eq!(editor.next_review_comment_id, 5);
}

#[test]
fn comments_whose_hunks_are_gone_are_forgotten() {
    let mut editor = restored(&[review_comment(1, Some("a"), 3)]);
    editor.cleanup_orphaned_review_comments(&snapshot());
    assert!(editor.stored_review_comments.is_empty());
    assert_eq!(
        events(&mut editor),
        ["Emit(ReviewCommentsChanged { total_count: 0 })"]
    );
}

#[test]
fn comments_of_a_hunk_come_in_the_order_of_their_times() {
    let mut late = review_comment(1, Some("late"), 3);
    late.created_at = "2026-08-21T13:00:00Z".into();
    let mut early = review_comment(2, Some("early"), 3);
    early.created_at = "2026-08-21T13:59:59+02:00".into();
    let mut same = review_comment(3, Some("a"), 3);
    same.created_at = "2026-08-21T13:00:00Z".into();
    let editor = restored(&[late, early, same]);
    let key = editor.stored_review_comments[0].key.clone();
    let told = editor
        .comments_for_hunk(&key, &snapshot())
        .into_iter()
        .map(|comment| comment.id)
        .collect::<Vec<_>>();
    assert_eq!(told, [2, 1, 3]);
}

#[test]
fn buttons_act_on_records_and_on_numbers() {
    let mut comment = stored(4, Some("a"));
    comment.resolved = true;
    let told = |button: RowButton, comment: &StoredReviewComment, is_stack_review| {
        format!("{:?}", button.action(comment, is_stack_review))
    };
    assert_eq!(
        told(RowButton::CancelEdit, &comment, true),
        "Some(CancelEdit { key: Stable(\"a\") })"
    );
    assert_eq!(
        told(RowButton::ConfirmEdit, &comment, false),
        "Some(ConfirmEdit { key: Legacy(4) })"
    );
    assert_eq!(
        told(RowButton::ReopenThread, &comment, true),
        "Some(SetResolved { key: Stable(\"a\"), resolved: false })"
    );
    assert_eq!(
        told(RowButton::Copy, &comment, true),
        "Some(Copy { text: \"comment 4\" })"
    );
    assert_eq!(
        told(RowButton::Edit, &comment, false),
        "Some(Edit { key: Stable(\"a\") })"
    );
    assert_eq!(
        told(RowButton::RestoreThread, &comment, true),
        "Some(ToggleStash { record_id: \"a\", is_stashed: true })"
    );
    assert_eq!(
        told(RowButton::UseCheckpoint, &comment, true),
        "Some(UseCheckpoint { record_id: Some(\"a\"), id: 4 })"
    );
    let plain = stored(4, None);
    assert_eq!(
        told(RowButton::ResolveThread, &plain, true),
        "Some(SetResolved { key: Legacy(4), resolved: true })"
    );
    assert_eq!(told(RowButton::StashThread, &plain, true), "None");
    assert_eq!(
        told(RowButton::Reply, &plain, true),
        "Some(Reply { key: Legacy(4) })"
    );
    assert!(matches!(
        RowButton::Delete.action(&plain, true),
        Some(RowAction::Delete { key: ReviewCommentKey::Legacy(4) })
    ));
}

#[test]
fn a_comment_is_revealed() {
    let mut editor = restored(&[review_comment(1, Some("a"), 3)]);
    assert!(editor.reveal_stack_review_comment("a", &snapshot()));
    assert!(!editor.reveal_stack_review_comment("b", &snapshot()));
    assert_eq!(
        events(&mut editor),
        [
            "Select { point: Point { row: 3, column: 0 } }",
            "FocusEditor",
            "Emit(ReviewCommentSelected { record_id: \"a\" })",
        ]
    );
    let effect = EditorEffect::Emit(EditorEvent::ReviewCommentsChanged { total_count: 0 });
    assert_eq!(
        format!("{effect:?}"),
        "Emit(ReviewCommentsChanged { total_count: 0 })"
    );
    assert_ne!(BlockStyle::Sticky, BlockStyle::StickyMirrored);
    assert_ne!(Placeholder::Comment, Placeholder::Reply);
}

#[test]
fn rows_show_comments_and_their_buttons() {
    let mut comment = stored(1, Some("a"));
    let row = render_comment_row(&comment, 0, &None, true, &vec![8, 9], true, false, true);
    assert_eq!(row.author.as_deref(), Some("author 1 \u{b7} today"));
    assert_eq!(row.selects.as_deref(), Some("a"));
    assert!(row.shows_agent_loading);
    assert_eq!(row.agent_responses, [8, 9]);
    assert!(row.shows_user_avatar);
    assert_eq!(
        row.buttons,
        [
            RowButton::Copy,
            RowButton::ResolveThread,
            RowButton::Reply,
            RowButton::StashThread,
            RowButton::Edit,
            RowButton::Delete,
        ]
    );
    assert_eq!(
        row.buttons[1].name(&row.action_identity),
        format!("diff-review-resolution-{}", row.action_identity)
    );
    assert_eq!(row.buttons[1].tooltip(), "Resolve thread");
    assert!(row.row_selector.starts_with("STACK_REVIEW_COMMENT_ROW-"));
    comment.source = StackReviewCommentSource::Github;
    comment.resolved = true;
    comment.created_at_display = None;
    let row = render_comment_row(&comment, 0, &None, true, &vec![8], false, false, true);
    assert_eq!(row.author.as_deref(), Some("author 1 \u{b7} GitHub"));
    assert!(!row.shows_user_avatar);
    assert_eq!(
        row.buttons,
        [
            RowButton::Copy,
            RowButton::UseCheckpoint,
            RowButton::ReopenThread,
            RowButton::Reply,
            RowButton::StashThread,
        ]
    );
    comment.stashed = true;
    let row = render_comment_row(&comment, 0, &None, true, &vec![8], false, false, true);
    assert_eq!(row.buttons, [RowButton::Copy, RowButton::RestoreThread]);
    assert!(row.shows_stashed_label && row.is_faded);
    let row = render_comment_row(&comment, 0, &None, false, &vec![8], false, false, true);
    assert!(row.buttons.is_empty());
    assert!(row.agent_responses.is_empty());
    assert_eq!(row.action_identity, "1");
    assert_eq!(row.author, None);
    let row = render_comment_row(&comment, 0, &None, true, &vec![8], false, true, true);
    assert_eq!(row.buttons, [RowButton::CancelEdit, RowButton::ConfirmEdit]);
    assert!(matches!(row.content, RowContent::InlineEditor));
    assert_eq!(row.selects, None);
    comment.comment = " @agent  look ".into();
    let row = render_comment_row(&comment, 0, &None, true, &vec![8], false, false, true);
    assert!(matches!(row.content, RowContent::AgentPrompt { body } if body == "look"));
}

#[test]
fn an_overlay_shows_its_lines_and_comments() {
    let snapshot = snapshot();
    let mut editor = restored(&[review_comment(1, Some("a"), 3)]);
    editor.reveal_restored_stack_review_comments(&snapshot);
    let key = overlay(&editor, 0).hunk_key.clone();
    let content = editor.render_diff_review_overlay(&key, &vec![(3, 5)], false, &snapshot);
    assert_eq!(content.line_label.as_deref(), Some("Lines 4-6"));
    assert!(!content.shows_prompt);
    let section = content.comments.expect("a section");
    assert_eq!(section.heading, "1 Comment");
    assert!(!section.can_toggle && section.expanded);
    editor.reply_to_stack_review_comment("a", &snapshot);
    let content = editor.render_diff_review_overlay(&key, &vec![(3, 3)], false, &snapshot);
    assert_eq!(content.line_label, None);
    assert!(!content.shows_prompt);
    assert_eq!(content.comments.expect("a section").rows.len(), 2);
    let content = editor.render_diff_review_overlay(&key, &vec![(3, 3)], true, &snapshot);
    assert_eq!(content.comments.expect("a section").rows.len(), 1);
    let content = editor.render_diff_review_overlay(&hunk(9, 9), &vec![], false, &snapshot);
    assert!(content.shows_prompt && content.comments.is_none());
}

#[test]
fn small_texts_are_told() {
    assert_eq!(format_line_ranges(&vec![]), None);
    assert_eq!(format_line_ranges(&vec![(4, 4)]), None);
    assert_eq!(
        format_line_ranges(&vec![(4, 4), (7, 9)]).as_deref(),
        Some("Line 5 \u{22ef} Lines 8-10")
    );
    assert_eq!(stack_review_agent_prompt_body("@agent"), Some(""));
    assert_eq!(stack_review_agent_prompt_body(" @agent\tx "), Some("x"));
    assert_eq!(stack_review_agent_prompt_body("@agents"), None);
    assert_eq!(stack_review_agent_prompt_body("agent"), None);
    assert!(key_selects_row("enter", false));
    assert!(key_selects_row("space", false));
    assert!(!key_selects_row("enter", true));
    assert!(!key_selects_row("tab", false));
    assert_eq!(
        format_stack_review_comment_timestamp("2026-08-21T12:00:00Z", "noon"),
        "noon"
    );
    assert_eq!(format_stack_review_comment_timestamp("noon", "noon"), "");
}

#[test]
fn overlays_are_styled_by_what_they_hold() {
    assert_eq!(stack_review_overlay_block_style(true, true), BlockStyle::StickyMirrored);
    assert_eq!(stack_review_overlay_block_style(true, false), BlockStyle::Sticky);
    assert_eq!(stack_review_overlay_block_style(false, true), BlockStyle::Sticky);
    assert!(stack_review_overlay_shows_transient_state(false));
    assert!(!stack_review_overlay_shows_transient_state(true));
    assert!(stack_review_comment_row_is_activatable(false));
    assert!(!stack_review_comment_row_is_activatable(true));
    assert_eq!(review_overlay_group_anchor(true, at(1), at(2)), at(2));
    assert_eq!(review_overlay_group_anchor(false, at(1), at(2)), at(1));
}

#[test]
fn comments_without_records_are_edited_by_their_numbers() {
    let snapshot = snapshot();
    let mut editor = restored(&[review_comment(1, None, 3), review_comment(2, Some("b"), 3)]);
    editor.reveal_restored_stack_review_comments(&snapshot);
    editor.take_effects();
    editor.edit_review_comment(2, &snapshot);
    assert!(events(&mut editor).is_empty());
    editor.edit_review_comment(1, &snapshot);
    assert_eq!(
        events(&mut editor),
        ["OpenInlineEditor { overlay: 0, key: Legacy(1), text: \"comment 1\" }"]
    );
    editor.cancel_edit_review_comment(1, &snapshot);
    editor.edit_review_comment_by_key(ReviewCommentKey::Legacy(1), &snapshot);
    editor.confirm_edit_review_comment(1, "changed", &snapshot);
    assert_eq!(editor.stored_review_comments[0].comments[0].comment, "changed");
    assert_eq!(editor.stack_review_inline_edit_editor("b"), None);
    editor.edit_stack_review_comment("b", &snapshot);
    assert_eq!(editor.stack_review_inline_edit_editor("b"), Some(0));
    editor.confirm_review_comment_edit_by_key(
        ReviewCommentKey::Stable("b".into()),
        "other",
        &snapshot,
    );
    assert_eq!(editor.stack_review_inline_edit_editor("b"), None);
    assert_eq!(editor.stored_review_comments[0].comments[1].comment, "other");
    editor.set_comment_editing(1, true);
    editor.set_comment_editing(2, true);
    assert!(!editor.stored_review_comments[0].comments[1].is_editing);
    assert!(editor.set_comment_editing_by_key(&ReviewCommentKey::Stable("b".into()), true));
    assert!(editor.stored_review_comments[0].comments.iter().all(|comment| comment.is_editing));
}

#[test]
fn deleting_takes_back_what_was_added() {
    let snapshot = snapshot();
    let mut editor = restored(&[review_comment(1, Some("a"), 3)]);
    let before = editor.stack_review_comments(&snapshot);
    let key = editor.stored_review_comments[0].key.clone();
    let added =
        editor.add_review_comment(key, "more".into(), rows(3, 3), stamp("b"), &snapshot);
    assert_eq!(added, 2);
    assert!(editor.has_exact_stack_review_comment("b"));
    assert_eq!(editor.stack_review_comments(&snapshot).len(), 2);
    editor.delete_review_comment_by_key(ReviewCommentKey::Stable("b".into()), &snapshot);
    assert!(!editor.has_exact_stack_review_comment("b"));
    assert_eq!(editor.stack_review_comments(&snapshot), before);
}

#[test]
fn reopening_takes_back_what_was_resolved() {
    let mut comments = vec![review_comment(1, None, 3), review_comment(2, None, 3)];
    comments[1].reply_to = Some(1);
    let mut editor = restored(&comments);
    let before = editor.stack_review_comments(&snapshot());
    assert!(editor.set_review_comment_resolved(1, true));
    assert!(editor.stack_review_comments(&snapshot()).iter().all(|comment| comment.resolved));
    assert!(editor.set_review_comment_resolved(2, false));
    assert_eq!(editor.stack_review_comments(&snapshot()), before);
}

#[test]
fn overlays_are_opened_and_forgotten_once() {
    let snapshot = snapshot();
    let mut editor = Editor::new(true, true);
    assert_eq!(editor.diff_review_line_range(&snapshot), None);
    editor.show_diff_review_overlay(rows(2, 3), at(4), &snapshot);
    editor.show_diff_review_overlay(rows(2, 3), at(4), &snapshot);
    assert_eq!(editor.diff_review_overlays.len(), 1);
    assert_eq!(editor.diff_review_line_range(&snapshot), Some((2, 3)));
    editor.take_effects();
    editor.forget_overlay(7);
    assert_eq!(editor.diff_review_overlays.len(), 1);
    editor.forget_overlay(0);
    assert!(editor.diff_review_overlays.is_empty());
    editor.show_stack_review_comment_at_cursor(rows(5, 5), at(10), &snapshot);
    assert_eq!(editor.diff_review_overlays.len(), 1);
    editor.take_effects();
    editor.dismiss_overlays_without_comments(&snapshot);
    assert_eq!(events(&mut editor), ["CloseOverlays { overlays: [1] }"]);
    editor.dismiss_overlays_without_comments(&snapshot);
    assert!(events(&mut editor).is_empty());
}

#[test]
fn a_reply_stands_below_the_comment_it_is_for() {
    let snapshot = snapshot();
    let mut reply = review_comment(2, Some("b"), 3);
    reply.reply_to_record_id = Some("a".into());
    let mut editor = restored(&[review_comment(1, Some("a"), 3), reply]);
    editor.reveal_restored_stack_review_comments(&snapshot);
    editor.reply_to_stack_review_comment("a", &snapshot);
    let key = overlay(&editor, 0).hunk_key.clone();
    let content = editor.render_diff_review_overlay(&key, &vec![(3, 3)], false, &snapshot);
    let rows = content.comments.expect("a section").rows;
    assert_eq!(rows.len(), 3);
    assert!(matches!(&rows[0], SectionRow::Comment(row) if row.selects.as_deref() == Some("a")));
    assert!(matches!(&rows[1], SectionRow::Composer(_)));
    assert!(matches!(&rows[2], SectionRow::Comment(row) if row.selects.as_deref() == Some("b")));
}
