use std::collections::HashSet;

use stack_review::comment::{
    CommentRecordError, StackReviewComment, StackReviewCommentAuthor, StackReviewCommentRecord,
    StackReviewCommentSide, StackReviewCommentSource, StackReviewGitHubCommentIdentity,
    StackReviewGitHubCommentKind, COMMENT_SCHEMA_VERSION,
};
use stack_review::review_state::StackReviewState;
use stack_review::stacks::{StackError, StackReviewCurrentManifest};
use stack_review::text_map::TextMap;

fn comment(id: usize, path: &str, body: &str) -> StackReviewComment {
    StackReviewComment {
        id,
        record_id: None,
        path: path.into(),
        start_row: 1,
        start_column: 0,
        end_row: 1,
        end_column: 1,
        body: body.into(),
        created_at: String::new(),
        resolved: false,
        author: StackReviewCommentAuthor::default(),
        source: StackReviewCommentSource::LocalHuman,
        reply_to: None,
        reply_to_record_id: None,
    }
}

fn record() -> StackReviewCommentRecord {
    StackReviewCommentRecord {
        schema_version: COMMENT_SCHEMA_VERSION,
        id: "018f0f52-7f87-7b4f-a940-98f22a49f777".into(),
        base_oid: "base-a".into(),
        head_oid: "head-a".into(),
        path: Some("src/lib.rs".into()),
        side: StackReviewCommentSide::Right,
        start_row: Some(4),
        start_column: Some(2),
        end_row: Some(6),
        end_column: Some(8),
        body: "Check this edge case".into(),
        author: StackReviewCommentAuthor {
            name: "Code Agent".into(),
            login: None,
        },
        source: StackReviewCommentSource::LocalAgent,
        reply_to: None,
        created_at: "2026-08-21T12:00:00Z".into(),
        updated_at: "2026-08-21T12:00:00Z".into(),
        outdated: false,
        resolved: false,
        local_resolution: None,
        github: None,
    }
}

#[test]
fn round_trips_reviewed_files_without_crossing_snapshot_boundaries() {
    let mut state = StackReviewState::new("base-a", "head-a");
    state.set_file_reviewed("src/a.rs", "fingerprint-a", true);
    state.set_file_reviewed("src/b.rs", "fingerprint-b", false);
    let restored = state.upgraded().expect("reopen review state");

    assert!(restored.is_file_reviewed("src/a.rs", "fingerprint-a"));
    assert!(!restored.is_file_reviewed("src/a.rs", "changed-fingerprint"));
    assert!(!restored.is_file_reviewed("src/b.rs", "fingerprint-b"));
    assert!(restored.matches_snapshot("base-a", "head-a"));
    assert!(!restored.matches_snapshot("base-a", "head-b"));
    assert_eq!(restored.reviewed_file_count(), 1);
}

#[test]
fn round_trips_and_validates_per_comment_records_and_current_manifest() {
    let record = record();
    assert_eq!(record.validate("base-a", "head-a"), Ok(()));
    assert!(record.is_writable());
    assert!(record.validate("other-base", "head-a").is_err());

    let manifest = StackReviewCurrentManifest::new(
        "/repo".into(),
        "base-a".into(),
        "head-a".into(),
        "reviews/base-a-head-a.json".into(),
        "comments/base-a-head-a".into(),
        "github/base-a-head-a".into(),
        vec![12, 13],
    );
    assert_eq!(manifest.clone().supported(), Ok(manifest.clone()));
    let mut newer = manifest;
    newer.schema_version += 1;
    let version = newer.schema_version;
    let error = newer.supported().expect_err("unknown manifest schema");
    assert_eq!(error, StackError::UnsupportedManifest(version));
}

#[test]
fn round_trips_snapshot_bound_review_comments() {
    let mut state = StackReviewState::new("base-a", "head-a");
    state.set_comments(vec![StackReviewComment {
        id: 7,
        record_id: Some("record-7".into()),
        path: "src/lib.rs".into(),
        start_row: 4,
        start_column: 2,
        end_row: 6,
        end_column: 8,
        body: "Check this edge case".into(),
        created_at: "2026-08-21T12:00:00Z".into(),
        resolved: false,
        author: StackReviewCommentAuthor {
            name: "Code Agent".into(),
            login: None,
        },
        source: StackReviewCommentSource::LocalAgent,
        reply_to: Some(3),
        reply_to_record_id: Some("record-3".into()),
    }]);

    let mut restored = state.upgraded().expect("reopen state");

    assert_eq!(restored.comments().len(), 1);
    assert_eq!(restored.comments()[0].id, 7);
    assert_eq!(
        restored.comments()[0].record_id.as_deref(),
        Some("record-7")
    );
    assert_eq!(restored.comments()[0].path, "src/lib.rs");
    assert_eq!(restored.comments()[0].start_row, 4);
    assert_eq!(restored.comments()[0].end_column, 8);
    assert_eq!(restored.comments()[0].body, "Check this edge case");
    assert_eq!(restored.comments()[0].author.name, "Code Agent");
    assert_eq!(
        restored.comments()[0].source,
        StackReviewCommentSource::LocalAgent
    );
    assert_eq!(restored.comments()[0].reply_to, Some(3));
    assert_eq!(
        restored.comments()[0].reply_to_record_id.as_deref(),
        Some("record-3")
    );
    assert_eq!(restored.take_comments().len(), 1);
    assert!(restored.comments().is_empty());
}

#[test]
fn migrates_legacy_comment_defaults_and_duplicate_ids() {
    let mut state = StackReviewState::new("base", "head");
    state.schema_version = 1;
    state.set_comments(vec![comment(0, "a.rs", "one"), comment(0, "b.rs", "two")]);
    let restored = state.upgraded().expect("migrate legacy comments");

    assert_eq!(restored.comments()[0].id, 0);
    assert_eq!(restored.comments()[1].id, 1);
    assert_eq!(restored.comments()[0].author.name, "You");
    assert_eq!(
        restored.comments()[0].source,
        StackReviewCommentSource::LocalHuman
    );
    assert_eq!(restored.comments()[0].reply_to, None);
    assert_eq!(restored.comments()[0].record_id, None);
    assert_eq!(restored.comments()[0].reply_to_record_id, None);
}

#[test]
fn reconciling_visible_comments_preserves_unmapped_comments() {
    let mut state = StackReviewState::new("base", "head");
    state.set_comments(vec![
        StackReviewComment {
            id: 1,
            record_id: None,
            path: "src/lib.rs".into(),
            start_row: 1,
            start_column: 0,
            end_row: 1,
            end_column: 1,
            body: "Rendered".into(),
            created_at: String::new(),
            resolved: false,
            author: StackReviewCommentAuthor::default(),
            source: StackReviewCommentSource::LocalHuman,
            reply_to: None,
            reply_to_record_id: None,
        },
        StackReviewComment {
            id: 2,
            record_id: None,
            path: "src/lib.rs".into(),
            start_row: 200,
            start_column: 0,
            end_row: 200,
            end_column: 1,
            body: "Outdated but preserved".into(),
            created_at: String::new(),
            resolved: false,
            author: StackReviewCommentAuthor::default(),
            source: StackReviewCommentSource::LocalHuman,
            reply_to: None,
            reply_to_record_id: None,
        },
    ]);

    state.reconcile_rendered_comments_for_path("src/lib.rs", &HashSet::from([1]), Vec::new());

    assert_eq!(state.comments().len(), 1);
    assert_eq!(state.comments()[0].id, 2);
    assert_eq!(state.comments()[0].body, "Outdated but preserved");
}

#[test]
fn reconciled_comments_stand_in_the_order_of_their_ids() {
    let mut state = StackReviewState::new("base", "head");
    state.set_comments(vec![
        comment(5, "other.rs", "kept"),
        comment(1, "src/lib.rs", "replaced"),
    ]);
    state.reconcile_rendered_comments_for_path(
        "src/lib.rs",
        &HashSet::from([1, 5]),
        vec![comment(9, "src/lib.rs", "new"), comment(3, "src/lib.rs", "new")],
    );
    let ids = state
        .comments()
        .iter()
        .map(|comment| comment.id)
        .collect::<Vec<_>>();
    assert_eq!(ids, [3, 5, 9]);
}

#[test]
fn rejects_review_state_from_an_unknown_schema() {
    let mut state = StackReviewState::new("a", "b");
    state.schema_version = 99;
    let error = state.upgraded().expect_err("unknown schema must fail");

    assert!(error.message().contains("unsupported review-state schema"));
}

#[test]
fn every_problem_of_a_record_is_told() {
    let check = |change: fn(&mut StackReviewCommentRecord)| {
        let mut changed = record();
        change(&mut changed);
        changed.validate("base-a", "head-a").expect_err("a problem")
    };
    let github = StackReviewGitHubCommentIdentity {
        pull_request_number: 1,
        github_id: "10".into(),
        url: "https://github.test/comment".into(),
        kind: StackReviewGitHubCommentKind::Inline,
        commit_oid: None,
        original_commit_oid: None,
        original_line: None,
    };
    assert_eq!(
        check(|record| record.schema_version = 7),
        CommentRecordError::UnsupportedSchema(7)
    );
    assert_eq!(
        check(|record| record.schema_version = 7).message(),
        "unsupported comment schema 7"
    );
    assert_eq!(
        check(|record| record.id = "a/b".into()),
        CommentRecordError::UnusableId
    );
    assert_eq!(
        check(|record| record.id = "not-a-uuid".into()),
        CommentRecordError::LocalIdNotUuid
    );
    assert_eq!(
        check(|record| record.head_oid = "other".into()),
        CommentRecordError::OtherSnapshot
    );
    assert_eq!(
        check(|record| record.body = " \n\u{a0}".into()),
        CommentRecordError::EmptyBody
    );
    assert_eq!(
        check(|record| record.reply_to = Some(record.id.clone())),
        CommentRecordError::RepliesToItself
    );
    assert_eq!(
        check(|record| record.end_row = None),
        CommentRecordError::InlineWithoutRange
    );
    assert_eq!(
        check(|record| record.side = StackReviewCommentSide::TopLevel),
        CommentRecordError::TopLevelWithRange
    );
    assert_eq!(
        check(|record| record.source = StackReviewCommentSource::Github),
        CommentRecordError::GithubWithoutIdentity
    );
    let mut changed = record();
    changed.github = Some(github.clone());
    assert_eq!(
        changed.validate("base-a", "head-a"),
        Err(CommentRecordError::LocalWithGithubIdentity)
    );
    changed.source = StackReviewCommentSource::Github;
    changed.id = "github:10".into();
    assert_eq!(changed.validate("base-a", "head-a"), Ok(()));
    assert!(!changed.is_writable());
}

#[test]
fn a_map_keeps_its_texts_in_order() {
    let mut map: TextMap<u32> = TextMap::new();
    assert_eq!(map.insert("b".into(), 1), None);
    assert_eq!(map.insert("a".into(), 2), None);
    assert_eq!(map.insert("b".into(), 3), Some(1));
    assert_eq!(map.len(), 2);
    assert_eq!(map.entry(0), (&"a".to_owned(), &2));
    assert_eq!(map.get("b"), Some(&3));
    assert_eq!(map.remove("a"), Some(2));
    assert_eq!(map.get("a"), None);
}

#[test]
fn a_file_is_reviewed_with_the_contents_it_had() {
    let mut state = StackReviewState::new("base", "head");
    state.set_file_reviewed("src/a.rs", "one", true);
    state.set_file_reviewed("src/b.rs", "two", true);
    assert!(state.is_file_reviewed("src/a.rs", "one"));
    assert!(!state.is_file_reviewed("src/a.rs", "two"));
    state.set_file_reviewed("src/a.rs", "three", true);
    assert!(!state.is_file_reviewed("src/a.rs", "one"));
    assert_eq!(state.reviewed_file_count(), 2);
    state.set_file_reviewed("src/a.rs", "three", false);
    assert!(!state.is_file_reviewed("src/a.rs", "three"));
    assert!(state.is_file_reviewed("src/b.rs", "two"));
    assert_eq!(state.reviewed_file_count(), 1);
}

#[test]
fn reconciling_leaves_what_was_not_rendered() {
    let mut state = StackReviewState::new("base", "head");
    state.set_comments(vec![
        comment(5, "src/a.rs", "rendered"),
        comment(3, "src/a.rs", "out of sight"),
        comment(4, "src/b.rs", "elsewhere"),
    ]);
    state.reconcile_rendered_comments_for_path(
        "src/a.rs",
        &HashSet::from([4, 5]),
        vec![comment(6, "src/a.rs", "new"), comment(1, "src/a.rs", "first")],
    );
    let told = state
        .comments()
        .iter()
        .map(|comment| (comment.id, comment.body.as_str()))
        .collect::<Vec<_>>();
    assert_eq!(
        told,
        [(1, "first"), (3, "out of sight"), (4, "elsewhere"), (6, "new")]
    );
}

#[test]
fn github_comments_are_records_of_their_own() {
    let identity = StackReviewGitHubCommentIdentity {
        pull_request_number: 7,
        github_id: "11".into(),
        url: "https://github.test/comment".into(),
        kind: StackReviewGitHubCommentKind::Inline,
        commit_oid: None,
        original_commit_oid: None,
        original_line: None,
    };
    let inline = StackReviewCommentRecord::new_github_inline(
        "github-11".into(),
        "base".into(),
        "head".into(),
        "src/lib.rs".into(),
        StackReviewCommentSide::Left,
        9,
        "Why?".into(),
        StackReviewCommentAuthor::default(),
        Some("github-10".into()),
        "2026-08-24T00:00:00Z".into(),
        identity.clone(),
        true,
    );
    assert_eq!(inline.validate("base", "head"), Ok(()));
    assert_eq!((inline.start_row, inline.end_row), (Some(9), Some(9)));
    assert_eq!((inline.start_column, inline.end_column), (Some(0), Some(0)));
    assert_eq!(inline.created_at, inline.updated_at);
    assert!(inline.outdated && !inline.is_writable() && !inline.is_resolved());
    let mut top = StackReviewCommentRecord::new_github_top_level(
        "github-12".into(),
        "base".into(),
        "head".into(),
        "Thanks".into(),
        StackReviewCommentAuthor::default(),
        "2026-08-24T00:00:00Z".into(),
        identity,
    );
    assert_eq!(top.validate("base", "head"), Ok(()));
    assert_eq!(top.side, StackReviewCommentSide::TopLevel);
    top.resolved = true;
    assert!(top.is_resolved());
    top.local_resolution = Some(false);
    assert!(!top.is_resolved());
}

#[test]
fn an_inline_record_is_valid_with_an_id_of_any_form() {
    let valid = |id: &str, source, reply_to: Option<&str>, path: &str, body: &str| {
        StackReviewCommentRecord::new_inline(
            id.into(),
            "base".into(),
            "head".into(),
            path.into(),
            1,
            2,
            3,
            4,
            body.into(),
            StackReviewCommentAuthor::default(),
            source,
            reply_to.map(str::to_owned),
            "2026-08-24T00:00:00Z".into(),
        )
        .validate("base", "head")
        .is_ok()
    };
    let local = StackReviewCommentSource::LocalHuman;
    let hyphenated = "018f0f52-7f87-7b4f-a940-98f22a49f777";
    for id in [
        hyphenated,
        "018F0F527F877B4FA94098F22A49F777",
        "{018f0f52-7f87-7b4f-a940-98f22a49f777}",
        "Urn:Uuid:018f0f52-7f87-7b4f-a940-98f22a49f777",
    ] {
        assert!(valid(id, local, None, "a.rs", "text"));
    }
    for id in [
        "",
        "018f0f52-7f87-7b4f-a940-98f22a49f77",
        "018f0f52-7f87-7b4f-a94098f22a49f7777",
        "018f0f52-7f87-7b4f-a940-98f22a49f77g",
        "[018f0f52-7f87-7b4f-a940-98f22a49f777]",
        "urn:guid:018f0f52-7f87-7b4f-a940-98f22a49f777",
    ] {
        assert!(!valid(id, local, None, "a.rs", "text"));
    }
    assert!(!valid(hyphenated, StackReviewCommentSource::Github, None, "a.rs", "text"));
    assert!(!valid(hyphenated, local, Some(hyphenated), "a.rs", "text"));
    assert!(!valid(hyphenated, local, None, "", "text"));
    assert!(!valid(hyphenated, local, None, "a.rs", " \n"));
}

#[test]
fn repeated_ids_become_greater_than_all_others() {
    let mut state = StackReviewState::new("base", "head");
    state.set_comments(vec![
        comment(7, "a", "1"),
        comment(2, "a", "2"),
        comment(7, "a", "3"),
        comment(2, "a", "4"),
    ]);
    let ids = state
        .upgraded()
        .expect("a state")
        .comments()
        .iter()
        .map(|comment| comment.id)
        .collect::<Vec<_>>();
    assert_eq!(ids, [7, 2, 8, 9]);
    let mut last = StackReviewState::new("base", "head");
    last.set_comments(vec![comment(usize::MAX - 1, "a", "1"), comment(usize::MAX - 1, "a", "2")]);
    let ids = last
        .upgraded()
        .expect("a state")
        .comments()
        .iter()
        .map(|comment| comment.id)
        .collect::<Vec<_>>();
    assert_eq!(ids, [usize::MAX - 1, usize::MAX]);
}
