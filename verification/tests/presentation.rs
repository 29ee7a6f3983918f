use stack_review::comment::StackReviewCommentSide;
use stack_review::presentation::{
    PresentationError, StackReviewPresentationState, STACK_REVIEW_REVIEW_BINDING_KEY,
};
use stack_review::thread_key::{
    stack_review_storage_key, validate_comment_thread_key, validate_serialized_comment_thread_key,
    CommentThreadKey, CommentThreadPartition, StackReviewCommentClass, ThreadKeyError,
};

fn presentation_thread_key(root_record_id: &str) -> CommentThreadKey {
    CommentThreadKey::Normal {
        partition: CommentThreadPartition {
            storage_key: stack_review_storage_key("base", "head"),
            base_oid: "base".into(),
            head_oid: "head".into(),
            path: Some("src/lib.rs".into()),
            side: StackReviewCommentSide::Right,
            class: StackReviewCommentClass::Inline,
        },
        root_record_id: root_record_id.into(),
    }
}

fn state_with_roots(roots: Vec<String>) -> StackReviewPresentationState {
    StackReviewPresentationState::from_parts(1, "base".into(), "head".into(), roots, Vec::new())
}

fn rejection(state: &StackReviewPresentationState) -> String {
    state
        .validate("base", "head")
        .expect_err("presentation state must be rejected")
        .message()
}

#[test]
fn presentation_state_round_trip_is_deterministic_and_deduplicates_roots() {
    let root_a = presentation_thread_key("a")
        .to_stable_string()
        .expect("serialize root a");
    let root_z = presentation_thread_key("z")
        .to_stable_string()
        .expect("serialize root z");
    let bindings = vec![
        (format!("comment:{root_z}"), "session-z".to_owned()),
        ("review".to_owned(), "session-review".to_owned()),
        (format!("comment:{root_a}"), "session-a".to_owned()),
    ];
    let state = StackReviewPresentationState::from_parts(
        1,
        "base".into(),
        "head".into(),
        vec![root_z.clone(), root_a.clone(), root_a.clone()],
        bindings.clone(),
    );
    state.validate("base", "head").expect("load presentation state");
    let reordered = StackReviewPresentationState::from_parts(
        1,
        "base".into(),
        "head".into(),
        vec![root_a, root_z],
        bindings.into_iter().rev().collect(),
    );
    assert_eq!(reordered, state);
    assert_eq!(
        state.stashed_roots().expect("list stashed roots"),
        [presentation_thread_key("a"), presentation_thread_key("z")]
    );
}

#[test]
fn presentation_state_defaults_absent_v1_collections() {
    let state = StackReviewPresentationState::from_parts(
        1,
        "base".into(),
        "head".into(),
        Vec::new(),
        Vec::new(),
    );
    state
        .validate("base", "head")
        .expect("load legacy presentation state");

    assert_eq!(state, StackReviewPresentationState::new("base", "head"));
    assert!(state
        .stashed_roots()
        .expect("list stashed roots")
        .is_empty());
    assert_eq!(
        state
            .binding(STACK_REVIEW_REVIEW_BINDING_KEY)
            .expect("review binding"),
        None
    );
}

#[test]
fn presentation_state_rejects_unknown_schema_versions() {
    let state = StackReviewPresentationState::from_parts(
        2,
        "base".into(),
        "head".into(),
        Vec::new(),
        Vec::new(),
    );
    assert!(rejection(&state).contains("unsupported presentation-state schema 2"));
}

#[test]
fn presentation_state_rejects_a_different_snapshot() {
    let state = StackReviewPresentationState::from_parts(
        1,
        "other-base".into(),
        "head".into(),
        Vec::new(),
        Vec::new(),
    );
    assert!(rejection(&state)
        .contains("presentation state does not match the selected Git snapshot"));
}

#[test]
fn presentation_state_rejects_malformed_stashed_thread_keys() {
    let state = state_with_roots(vec!["not-json".into()]);
    assert!(rejection(&state).contains("invalid stashed comment thread root"));
}

#[test]
fn presentation_state_rejects_empty_comment_thread_key_identifiers() {
    let empty_root = presentation_thread_key("")
        .to_stable_string()
        .expect("serialize empty root key");
    let state = state_with_roots(vec![empty_root]);
    assert!(rejection(&state).contains("comment thread key identifier is empty"));
}

#[test]
fn presentation_state_rejects_comment_thread_keys_from_another_snapshot() {
    let mut foreign_root = presentation_thread_key("root");
    let CommentThreadKey::Normal { partition, .. } = &mut foreign_root else {
        panic!("expected normal thread key");
    };
    partition.base_oid = "other-base".into();
    let foreign_root = foreign_root
        .to_stable_string()
        .expect("serialize foreign root key");
    let state = state_with_roots(vec![foreign_root]);
    assert!(rejection(&state).contains("comment thread key does not match the snapshot"));
}

#[test]
fn presentation_state_rejects_comment_thread_keys_from_another_storage_key() {
    let mut foreign_root = presentation_thread_key("root");
    let CommentThreadKey::Normal { partition, .. } = &mut foreign_root else {
        panic!("expected normal thread key");
    };
    partition.storage_key = "different-storage-key".into();
    let foreign_root = foreign_root
        .to_stable_string()
        .expect("serialize foreign storage root key");
    let state = state_with_roots(vec![foreign_root]);
    assert!(rejection(&state).contains("comment thread key does not match the storage key"));
}

#[test]
fn presentation_state_rejects_empty_comment_thread_partition_keys() {
    let mut root = presentation_thread_key("root");
    let CommentThreadKey::Normal { partition, .. } = &mut root else {
        panic!("expected normal thread key");
    };
    partition.storage_key.clear();
    let root = root
        .to_stable_string()
        .expect("serialize empty-partition root key");
    let state = state_with_roots(vec![root]);
    assert!(rejection(&state).contains("comment thread partition storage key is empty"));
}

#[test]
fn presentation_state_rejects_inconsistent_comment_thread_partitions() {
    let mut root = presentation_thread_key("root");
    let CommentThreadKey::Normal { partition, .. } = &mut root else {
        panic!("expected normal thread key");
    };
    partition.class = StackReviewCommentClass::TopLevel;
    let root = root
        .to_stable_string()
        .expect("serialize inconsistent root key");
    let state = state_with_roots(vec![root]);
    assert!(rejection(&state).contains("invalid comment thread partition"));
}

#[test]
fn presentation_state_rejects_noncanonical_comment_thread_keys() {
    let root = presentation_thread_key("root")
        .to_stable_string()
        .expect("serialize root key");
    let state = state_with_roots(vec![format!(" {root}")]);
    assert!(rejection(&state).contains("comment thread key is not canonical"));
}

#[test]
fn presentation_state_rejects_malformed_comment_binding_keys() {
    let state = StackReviewPresentationState::from_parts(
        1,
        "base".into(),
        "head".into(),
        Vec::new(),
        vec![("comment:not-json".into(), "session".into())],
    );
    assert!(rejection(&state).contains("invalid AI thread binding key"));
}

#[test]
fn presentation_state_rejects_empty_ai_session_bindings() {
    let state = StackReviewPresentationState::from_parts(
        1,
        "base".into(),
        "head".into(),
        Vec::new(),
        vec![("review".into(), "".into())],
    );
    assert!(rejection(&state).contains("AI thread session ID is empty"));
}

#[test]
fn presentation_state_helpers_manage_stashes_and_thread_bindings() {
    let root = presentation_thread_key("root");
    let comment_binding_key = format!(
        "comment:{}",
        root.to_stable_string().expect("serialize comment root")
    );
    let mut state = StackReviewPresentationState::new("base", "head");

    assert!(!state.is_stashed(&root).expect("check unstashed root"));
    assert!(state.stash_root(&root).expect("stash root"));
    assert!(!state.stash_root(&root).expect("deduplicate stashed root"));
    assert!(state.is_stashed(&root).expect("check stashed root"));
    assert_eq!(
        state.stashed_roots().expect("list stashed roots"),
        std::slice::from_ref(&root)
    );
    assert!(state.restore_root(&root).expect("restore root"));
    assert!(!state.restore_root(&root).expect("root already restored"));

    assert_eq!(state.binding("review").expect("review binding"), None);
    assert_eq!(
        state
            .bind_thread("review", "review-session")
            .expect("bind review thread"),
        None
    );
    assert_eq!(
        state.binding("review").expect("bound review thread"),
        Some("review-session")
    );
    assert_eq!(
        state
            .bind_thread(&comment_binding_key, "comment-session")
            .expect("bind comment thread"),
        None
    );
    assert_eq!(
        state
            .unbind_thread(&comment_binding_key)
            .expect("unbind comment thread"),
        Some("comment-session".to_owned())
    );
}

#[test]
fn presentation_state_stash_helpers_reject_foreign_snapshot_roots() {
    let mut foreign_root = presentation_thread_key("root");
    let CommentThreadKey::Normal { partition, .. } = &mut foreign_root else {
        panic!("expected normal thread key");
    };
    partition.head_oid = "other-head".into();
    let mut state = StackReviewPresentationState::new("base", "head");

    let error = state
        .stash_root(&foreign_root)
        .expect_err("foreign root must not be stashed");

    assert!(
        error
            .message()
            .contains("comment thread key does not match the snapshot")
    );
    assert!(
        state
            .stashed_roots()
            .expect("list stashed roots")
            .is_empty()
    );
}

#[test]
fn a_binding_under_an_unknown_key_is_refused() {
    let mut state = StackReviewPresentationState::new("base", "head");
    assert_eq!(
        state.bind_thread("elsewhere", "session"),
        Err(PresentationError::UnknownBindingKey)
    );
    assert_eq!(
        state.bind_thread("review", ""),
        Err(PresentationError::EmptySessionId)
    );
    assert_eq!(
        state.binding("comment:not-json"),
        Err(PresentationError::InvalidBindingKey(
            ThreadKeyError::Malformed
        ))
    );
    assert_eq!(state, StackReviewPresentationState::new("base", "head"));
}

#[test]
fn what_was_stashed_is_listed() {
    let mut state = StackReviewPresentationState::new("base", "head");
    let b = presentation_thread_key("b");
    let a = presentation_thread_key("a");
    assert_eq!(state.stash_root(&b), Ok(true));
    assert_eq!(state.stash_root(&a), Ok(true));
    assert_eq!(state.stashed_roots(), Ok(vec![a.clone(), b.clone()]));
    assert_eq!(state.restore_root(&a), Ok(true));
    assert_eq!(state.stashed_roots(), Ok(vec![b]));
    assert_eq!(state.validate("base", "head"), Ok(()));
}

#[test]
fn a_serialized_key_is_checked_against_its_snapshot() {
    let key = presentation_thread_key("root");
    let text = key.to_stable_string().expect("stable text");
    assert_eq!(validate_comment_thread_key(&key, "base", "head"), Ok(()));
    assert_eq!(
        validate_serialized_comment_thread_key(&text, "base", "head"),
        Ok(key.clone())
    );
    assert_eq!(
        validate_serialized_comment_thread_key(&text, "base", "other"),
        Err(ThreadKeyError::OtherSnapshot)
    );
    assert_eq!(
        validate_comment_thread_key(&key, "other", "head"),
        Err(ThreadKeyError::OtherSnapshot)
    );
}

#[test]
fn stashing_is_for_one_thread_and_can_be_undone() {
    let (a, b) = (presentation_thread_key("a"), presentation_thread_key("b"));
    let mut state = StackReviewPresentationState::new("base", "head");
    assert_eq!(state.stash_root(&b), Ok(true));
    let before = state.stashed_roots();
    assert_eq!(state.stash_root(&a), Ok(true));
    assert_eq!(state.is_stashed(&a), Ok(true));
    assert_eq!(state.is_stashed(&b), Ok(true));
    assert_eq!(state.restore_root(&a), Ok(true));
    assert_eq!(state.is_stashed(&a), Ok(false));
    assert_eq!(state.stashed_roots(), before);
}

#[test]
fn the_last_call_for_a_thread_says_whether_it_is_stashed() {
    let (a, b, c) = (
        presentation_thread_key("a"),
        presentation_thread_key("b"),
        presentation_thread_key("c"),
    );
    let foreign = presentation_thread_key(" ");
    let mut state = StackReviewPresentationState::new("base", "head");
    assert_eq!(state.stash_root(&c), Ok(true));
    assert_eq!(state.stash_root(&a), Ok(true));
    assert_eq!(state.bind_thread("review", "session"), Ok(None));
    assert_eq!(state.stash_root(&b), Ok(true));
    assert_eq!(state.restore_root(&a), Ok(true));
    assert!(state.stash_root(&foreign).is_err());
    assert_eq!(state.stash_root(&c), Ok(false));
    assert_eq!(state.restore_root(&b), Ok(true));
    assert_eq!(state.stash_root(&b), Ok(true));
    assert_eq!(state.unbind_thread("review"), Ok(Some("session".into())));
    assert_eq!(state.stashed_roots(), Ok(vec![b, c]));
}
