use stack_review::comment::{
    StackReviewCommentAuthor, StackReviewCommentRecord, StackReviewCommentSide,
    StackReviewCommentSource,
};
use stack_review::thread_index::{CommentThreadIndex, DuplicateRecordError};
use stack_review::thread_key::{
    stack_review_storage_key, CommentThreadKey, CommentThreadPartition, StackReviewCommentClass,
    ThreadKeyError,
};

fn thread_record(id: &str, reply_to: Option<&str>, created_at: &str) -> StackReviewCommentRecord {
    StackReviewCommentRecord::new_inline(
        id.to_owned(),
        "base".into(),
        "head".into(),
        "src/lib.rs".into(),
        1,
        0,
        1,
        1,
        id.to_owned(),
        StackReviewCommentAuthor::default(),
        StackReviewCommentSource::Github,
        reply_to.map(str::to_owned),
        created_at.to_owned(),
    )
}

#[test]
fn comment_thread_index_maps_a_deep_chain_to_its_stable_root() {
    let records = [
        thread_record("grandchild", Some("child"), "2026-08-21T12:02:00Z"),
        thread_record("root", None, "2026-08-21T12:00:00Z"),
        thread_record("child", Some("root"), "2026-08-21T12:01:00Z"),
    ];

    let index = CommentThreadIndex::new("base-head", &records)
        .expect("build comment thread index");
    let expected_key = CommentThreadKey::Normal {
        partition: CommentThreadPartition {
            storage_key: "base-head".into(),
            base_oid: "base".into(),
            head_oid: "head".into(),
            path: Some("src/lib.rs".into()),
            side: StackReviewCommentSide::Right,
            class: StackReviewCommentClass::Inline,
        },
        root_record_id: "root".into(),
    };

    assert_eq!(index.thread_key_for("grandchild"), Some(&expected_key));
    assert_eq!(
        index
            .thread(&expected_key)
            .expect("normal thread")
            .member_record_ids,
        ["root", "child", "grandchild"]
    );
}
#[test]
fn comment_thread_index_preserves_a_deep_normal_chain() {
    let record_ids = (0..64)
        .map(|depth| format!("node-{depth:02}"))
        .collect::<Vec<_>>();
    let records = record_ids
        .iter()
        .enumerate()
        .map(|(depth, record_id)| {
            thread_record(
                record_id,
                depth
                    .checked_sub(1)
                    .and_then(|parent_depth| record_ids.get(parent_depth))
                    .map(String::as_str),
                "2026-08-21T12:00:00Z",
            )
        })
        .collect::<Vec<_>>();

    let index = CommentThreadIndex::new("base-head", &records)
        .expect("build deep normal comment thread index");
    let deepest_record_id = record_ids.last().expect("deepest record id");
    let key = index
        .thread_key_for(deepest_record_id)
        .expect("deep normal thread key");

    assert!(matches!(
        key,
        CommentThreadKey::Normal { root_record_id, .. } if root_record_id == "node-00"
    ));
    assert_eq!(
        &index
            .thread(key)
            .expect("deep normal thread")
            .member_record_ids,
        &record_ids
    );
}

#[test]
fn comment_thread_index_marks_missing_parent_groups_as_degraded() {
    let records = [
        thread_record("descendant", Some("orphan"), "2026-08-21T12:02:00Z"),
        thread_record("orphan", Some("missing"), "2026-08-21T12:01:00Z"),
    ];

    let index = CommentThreadIndex::new("base-head", &records)
        .expect("build degraded comment thread index");
    let key = index
        .thread_key_for("descendant")
        .expect("missing-parent key");
    assert!(matches!(
        key,
        CommentThreadKey::MissingParent {
            missing_parent_id,
            ..
        } if missing_parent_id == "missing"
    ));
    let thread = index.thread(key).expect("missing-parent thread");
    assert_eq!(thread.placement_record_id, "orphan");
    assert_eq!(thread.member_record_ids, ["orphan", "descendant"]);
}

#[test]
fn comment_thread_index_marks_cross_side_parents_as_boundary_violations() {
    let mut left_parent = thread_record("left-parent", None, "2026-08-21T12:00:00.000000001Z");
    left_parent.side = StackReviewCommentSide::Left;
    let right_child = thread_record(
        "right-child",
        Some("left-parent"),
        "2026-08-21T12:00:00.000000002Z",
    );
    let records = [left_parent, right_child];

    let index = CommentThreadIndex::new("base-head", &records)
        .expect("build boundary-qualified comment thread index");
    let child_key = index
        .thread_key_for("right-child")
        .expect("boundary-violation key");
    assert!(matches!(
        child_key,
        CommentThreadKey::BoundaryViolation {
            partition,
            foreign_parent_id,
        } if partition.side == StackReviewCommentSide::Right
            && foreign_parent_id == "left-parent"
    ));
    assert_ne!(
        child_key,
        index
            .thread_key_for("left-parent")
            .expect("normal LEFT root key")
    );
}

#[test]
fn comment_thread_index_keeps_cross_boundary_descendants_in_exact_partitions() {
    let root = thread_record("root", None, "2026-08-21T12:00:00.000000001Z");
    let normal_child = thread_record(
        "normal-child",
        Some("root"),
        "2026-08-21T12:00:00.000000002Z",
    );

    let mut path_child =
        thread_record("path-child", Some("root"), "2026-08-21T12:00:00.000000003Z");
    path_child.path = Some("src/other.rs".into());
    let mut path_descendant = thread_record(
        "path-descendant",
        Some("path-child"),
        "2026-08-21T12:00:00.000000004Z",
    );
    path_descendant.path = path_child.path.clone();

    let mut snapshot_child = thread_record(
        "snapshot-child",
        Some("root"),
        "2026-08-21T12:00:00.000000005Z",
    );
    snapshot_child.base_oid = "other-base".into();
    snapshot_child.head_oid = "other-head".into();
    let mut snapshot_descendant = thread_record(
        "snapshot-descendant",
        Some("snapshot-child"),
        "2026-08-21T12:00:00.000000006Z",
    );
    snapshot_descendant.base_oid = snapshot_child.base_oid.clone();
    snapshot_descendant.head_oid = snapshot_child.head_oid.clone();

    let mut side_child =
        thread_record("side-child", Some("root"), "2026-08-21T12:00:00.000000007Z");
    side_child.side = StackReviewCommentSide::Left;
    let mut side_descendant = thread_record(
        "side-descendant",
        Some("side-child"),
        "2026-08-21T12:00:00.000000008Z",
    );
    side_descendant.side = StackReviewCommentSide::Left;

    let mut top_level_child = thread_record(
        "top-level-child",
        Some("root"),
        "2026-08-21T12:00:00.000000009Z",
    );
    top_level_child.path = None;
    top_level_child.start_row = None;
    top_level_child.start_column = None;
    top_level_child.end_row = None;
    top_level_child.end_column = None;
    top_level_child.side = StackReviewCommentSide::TopLevel;
    let mut top_level_descendant = thread_record(
        "top-level-descendant",
        Some("top-level-child"),
        "2026-08-21T12:00:00.000000010Z",
    );
    top_level_descendant.path = None;
    top_level_descendant.start_row = None;
    top_level_descendant.start_column = None;
    top_level_descendant.end_row = None;
    top_level_descendant.end_column = None;
    top_level_descendant.side = StackReviewCommentSide::TopLevel;

    let records = [
        root,
        normal_child,
        path_child,
        path_descendant,
        snapshot_child,
        snapshot_descendant,
        side_child,
        side_descendant,
        top_level_child,
        top_level_descendant,
    ];
    let index = CommentThreadIndex::new("base-head", &records)
        .expect("build boundary-qualified comment thread index");

    let normal_key = index.thread_key_for("root").expect("normal key");
    assert_eq!(
        index
            .thread(normal_key)
            .expect("normal thread")
            .member_record_ids,
        ["root", "normal-child"]
    );
    for (child_id, descendant_id) in [
        ("path-child", "path-descendant"),
        ("snapshot-child", "snapshot-descendant"),
        ("side-child", "side-descendant"),
        ("top-level-child", "top-level-descendant"),
    ] {
        let key = index.thread_key_for(child_id).expect("boundary key");
        assert!(matches!(key, CommentThreadKey::BoundaryViolation { .. }));
        assert_ne!(key, normal_key);
        assert_eq!(
            index
                .thread(key)
                .expect("boundary thread")
                .member_record_ids,
            [child_id, descendant_id]
        );
        assert_eq!(index.thread_key_for(descendant_id), Some(key));
    }
    let boundary_keys = [
        "path-child",
        "snapshot-child",
        "side-child",
        "top-level-child",
    ]
    .map(|record_id| index.thread_key_for(record_id).expect("partition key"));
    for (index, left) in boundary_keys.iter().enumerate() {
        for right in &boundary_keys[index.saturating_add(1)..] {
            assert_ne!(left, right);
        }
    }
}

#[test]
fn comment_thread_index_is_input_order_independent_for_acyclic_graphs() {
    let records = vec![
        thread_record("root-b", None, "2026-08-21T12:00:00.000000004Z"),
        thread_record("child-b", Some("root-b"), "2026-08-21T12:00:00.000000006Z"),
        thread_record("root-a", None, "2026-08-21T12:00:00.000000001Z"),
        thread_record(
            "child-a-2",
            Some("root-a"),
            "2026-08-21T12:00:00.000000003Z",
        ),
        thread_record(
            "child-a-1",
            Some("root-a"),
            "2026-08-21T12:00:00.000000002Z",
        ),
        thread_record("orphan", Some("missing"), "2026-08-21T12:00:00.000000005Z"),
    ];
    let reversed = records.iter().rev().cloned().collect::<Vec<_>>();

    let index = CommentThreadIndex::new("base-head", &records)
        .expect("build acyclic comment thread index");
    let reversed_index = CommentThreadIndex::new("base-head", &reversed)
        .expect("build reversed acyclic comment thread index");

    assert_eq!(index.threads(), reversed_index.threads());
    for record in &records {
        assert_eq!(
            index.thread_key_for(&record.id),
            reversed_index.thread_key_for(&record.id)
        );
    }
}

#[test]
fn comment_thread_index_canonicalizes_cycles_independent_of_input_order() {
    let records = [
        thread_record("b", Some("c"), "2026-08-21T12:00:00.000000002Z"),
        thread_record("descendant", Some("b"), "2026-08-21T12:00:00.000000004Z"),
        thread_record("a", Some("b"), "2026-08-21T12:00:00.000000001Z"),
        thread_record("c", Some("a"), "2026-08-21T12:00:00.000000003Z"),
    ];
    let reversed = records.iter().rev().cloned().collect::<Vec<_>>();

    let index = CommentThreadIndex::new("base-head", &records)
        .expect("build cycle-degraded comment thread index");
    let reversed_index = CommentThreadIndex::new("base-head", &reversed)
        .expect("build reversed cycle-degraded comment thread index");
    let key = index.thread_key_for("descendant").expect("cycle key");
    assert!(matches!(
        key,
        CommentThreadKey::Cycle {
            canonical_member_id,
            ..
        } if canonical_member_id == "a"
    ));
    assert_eq!(reversed_index.thread_key_for("b"), Some(key));
    assert_eq!(
        index.thread(key).expect("cycle thread").member_record_ids,
        reversed_index
            .thread(key)
            .expect("reversed cycle thread")
            .member_record_ids
    );
    assert_eq!(
        index.thread(key).expect("cycle thread").member_record_ids,
        ["a", "c", "b", "descendant"]
    );
}

#[test]
fn comment_thread_index_orders_normal_threads_by_their_roots() {
    let records = [
        thread_record("root-a", None, "2026-08-21T12:00:00.000000002Z"),
        thread_record("root-z", None, "2026-08-21T12:00:00.000000003Z"),
        thread_record(
            "early-child",
            Some("root-z"),
            "2026-08-21T12:00:00.000000001Z",
        ),
    ];

    let index = CommentThreadIndex::new("base-head", &records)
        .expect("build ordered comment thread index");
    let ordered_roots = index
        .threads()
        .iter()
        .map(|thread| thread.placement_record_id.as_str())
        .collect::<Vec<_>>();

    assert_eq!(ordered_roots, ["root-a", "root-z"]);
}

#[test]
fn comment_thread_index_orders_siblings_by_nanoseconds_then_stable_id() {
    let records = [
        thread_record("root", None, "2026-08-21T12:00:00Z"),
        thread_record("z", Some("root"), "2026-08-21T12:00:00.000000003Z"),
        thread_record("b", Some("root"), "2026-08-21T12:00:00.000000002Z"),
        thread_record("a", Some("root"), "2026-08-21T12:00:00.000000002Z"),
    ];

    let index = CommentThreadIndex::new("base-head", &records)
        .expect("build ordered comment thread index");
    let key = index.thread_key_for("root").expect("root key");

    assert_eq!(
        index.thread(key).expect("ordered thread").member_record_ids,
        ["root", "a", "b", "z"]
    );
}

#[test]
fn comment_thread_key_has_a_stable_round_trip_representation() {
    let key = CommentThreadKey::MissingParent {
        partition: CommentThreadPartition {
            storage_key: "base-head".into(),
            base_oid: "base".into(),
            head_oid: "head".into(),
            path: Some("src/a b.rs".into()),
            side: StackReviewCommentSide::Left,
            class: StackReviewCommentClass::Inline,
        },
        missing_parent_id: "github:42".into(),
    };

    let serialized = key
        .to_stable_string()
        .expect("serialize stable comment thread key");

    assert_eq!(
        serialized,
        r#"{"kind":"missingParent","partition":{"storageKey":"base-head","baseOid":"base","headOid":"head","path":"src/a b.rs","side":"left","class":"inline"},"missing_parent_id":"github:42"}"#
    );
    assert_eq!(
        CommentThreadKey::from_stable_string(&serialized)
            .expect("deserialize stable comment thread key"),
        key
    );
}

#[test]
fn an_index_of_two_records_with_one_id_is_refused() {
    let records = [
        thread_record("a", None, "2026-08-21T12:00:00Z"),
        thread_record("b", None, "2026-08-21T12:00:00Z"),
        thread_record("a", Some("b"), "2026-08-21T12:00:00Z"),
    ];
    let error = CommentThreadIndex::new("base-head", &records).expect_err("duplicate record");
    assert_eq!(error, DuplicateRecordError { record_id: "a".into() });
    assert_eq!(error.message(), "duplicate Stack Review comment record id \"a\"");
}

#[test]
fn a_default_index_is_empty() {
    let index = CommentThreadIndex::default();
    assert!(index.threads().is_empty());
    assert_eq!(index.thread_key_for("a"), None);
}

#[test]
fn unreadable_times_come_before_all_others() {
    let records = [
        thread_record("a", None, "1970-01-01T00:00:00Z"),
        thread_record("b", None, "yesterday"),
        thread_record("c", None, "1900-01-01T00:00:00+01:00"),
    ];
    let index = CommentThreadIndex::new("base-head", &records).expect("index");
    let order = index
        .threads()
        .iter()
        .map(|thread| thread.placement_record_id.as_str())
        .collect::<Vec<_>>();
    assert_eq!(order, ["b", "c", "a"]);
}

#[test]
fn a_reply_is_in_the_thread_of_what_it_replies_to() {
    let records = [
        thread_record("root", None, "2026-08-21T12:00:00Z"),
        thread_record("reply", Some("root"), "2026-08-21T12:00:00Z"),
        thread_record("again", Some("reply"), "2026-08-21T12:00:00Z"),
    ];
    let index = CommentThreadIndex::new("base-head", &records).expect("index");
    let key = index.thread_key_for("root");
    assert_eq!(index.thread_key_for("reply"), key);
    assert_eq!(index.thread_key_for("again"), key);
    assert_eq!(index.threads().len(), 1);
}

#[test]
fn storage_keys_hold_no_separators() {
    assert_eq!(stack_review_storage_key("base", "head"), "base_head");
    assert_eq!(stack_review_storage_key("a/b", "c:d\\e"), "a_b_c_d_e");
}

#[test]
fn stable_texts_tell_keys_apart() {
    let partition = CommentThreadPartition {
        storage_key: "base-head".into(),
        base_oid: "base".into(),
        head_oid: "head".into(),
        path: None,
        side: StackReviewCommentSide::TopLevel,
        class: StackReviewCommentClass::TopLevel,
    };
    let keys = [
        CommentThreadKey::Normal { partition: partition.clone(), root_record_id: "a\n\"b\"".into() },
        CommentThreadKey::MissingParent {
            partition: partition.clone(),
            missing_parent_id: "a\n\"b\"".into(),
        },
        CommentThreadKey::BoundaryViolation {
            partition: partition.clone(),
            foreign_parent_id: "a\n\"b\"".into(),
        },
        CommentThreadKey::Cycle { partition, canonical_member_id: "a\n\"b\"".into() },
    ];
    for (i, key) in keys.iter().enumerate() {
        let text = key.to_stable_string().expect("stable text");
        assert_eq!(CommentThreadKey::from_stable_string(&text).as_ref(), Ok(key));
        for other in &keys[i + 1..] {
            assert_ne!(text, other.to_stable_string().expect("stable text"));
        }
    }
    assert_eq!(
        keys[3].to_stable_string().expect("stable text"),
        r#"{"kind":"cycle","partition":{"storageKey":"base-head","baseOid":"base","headOid":"head","path":null,"side":"topLevel","class":"topLevel"},"canonical_member_id":"a\n\"b\""}"#
    );
    assert_eq!(
        CommentThreadKey::from_stable_string("not-json"),
        Err(ThreadKeyError::Malformed)
    );
}

#[test]
fn keys_are_read_from_json_in_any_form() {
    let spaced = r#"
        { "root_record_id" : "a\u002fb", "extra": [1, {"x": null}],
          "partition": { "class": "inline", "side": "left", "headOid": "head",
                         "baseOid": "base", "storageKey": "base_head", "path": "src/a.rs" },
          "kind": "normal" }
    "#;
    let key = CommentThreadKey::from_stable_string(spaced).expect("a key");
    assert!(
        matches!(&key, CommentThreadKey::Normal { root_record_id, .. } if root_record_id == "a/b")
    );
    assert_eq!(
        key.to_stable_string(),
        Ok(concat_key("normal", r#""path":"src/a.rs","side":"left","class":"inline""#, "root_record_id", "a/b"))
    );
    let without_path = r#"{"kind":"cycle","partition":{"storageKey":"base_head","baseOid":"base","headOid":"head","side":"topLevel","class":"topLevel"},"canonical_member_id":"c"}"#;
    let key = CommentThreadKey::from_stable_string(without_path).expect("a key");
    assert_eq!(
        key.to_stable_string(),
        Ok(concat_key("cycle", r#""path":null,"side":"topLevel","class":"topLevel""#, "canonical_member_id", "c"))
    );
    for malformed in [
        "",
        "{}",
        r#"{"kind":"other"}"#,
        &without_path.replace("canonical_member_id", "root_record_id"),
        &without_path.replace("\"c\"", "3"),
        &without_path.replace("\"side\":\"topLevel\"", "\"side\":\"middle\""),
        &without_path.replace("\"side\"", "\"path\":7,\"side\""),
    ] {
        assert_eq!(
            CommentThreadKey::from_stable_string(malformed),
            Err(ThreadKeyError::Malformed)
        );
    }
    assert_eq!(ThreadKeyError::Malformed.message(), "malformed comment thread key");
}

#[test]
fn keys_are_read_from_arrays_and_names_alone() {
    let listed = r#" ["boundaryViolation",
        ["base_head", "base", "head", "a \"{:}\" b", {"right": null}, { "inline" : {} }],
        "x" ] "#;
    let key = CommentThreadKey::from_stable_string(listed).expect("a key");
    assert_eq!(
        key.to_stable_string(),
        Ok(concat_key(
            "boundaryViolation",
            r#""path":"a \"{:}\" b","side":"right","class":"inline""#,
            "foreign_parent_id",
            "x"
        ))
    );
    let empty_path = listed.replace(r#""a \"{:}\" b""#, "null");
    assert!(CommentThreadKey::from_stable_string(&empty_path).is_ok());
    for malformed in [
        listed.replace(": null}", "}"),
        listed.replace(r#"{"right": null}"#, r#"{"right": 1}"#),
        listed.replace(r#"{"right": null}"#, r#"{"right": null, "left": null}"#),
        listed.replace(r#""x" ]"#, r#""x", "y" ]"#),
        listed.replace(r#"["base_head", "#, "["),
        format!("{listed} x"),
    ] {
        assert_ne!(malformed, listed);
        assert_eq!(
            CommentThreadKey::from_stable_string(&malformed),
            Err(ThreadKeyError::Malformed)
        );
    }
}

#[test]
fn a_field_that_is_repeated_is_refused() {
    let key = concat_key(
        "normal",
        r#""path":null,"side":"topLevel","class":"topLevel""#,
        "root_record_id",
        "a",
    );
    let spaced = format!(" {key}");
    assert!(CommentThreadKey::from_stable_string(&spaced).is_ok());
    for (once, twice) in [
        (r#""kind":"normal""#, r#""kind":"normal","kind":"normal""#),
        (r#""path":null"#, r#""path":null,"path":null"#),
        (r#""root_record_id":"a""#, r#""root_record_id":"a","root_record_id":"a""#),
        (r#""baseOid":"base""#, r#""baseOid":"base","base\u004fid":"base""#),
    ] {
        assert!(key.contains(once));
        assert_eq!(
            CommentThreadKey::from_stable_string(&key.replace(once, twice)),
            Err(ThreadKeyError::Malformed)
        );
    }
    let unknown = key.replace(r#""kind""#, r#""x":{"y":1,"y":2},"x":[],"kind""#);
    assert!(CommentThreadKey::from_stable_string(&unknown).is_ok());
    let out_of_range = key.replace(r#""kind""#, r#""x":1e999,"kind""#);
    assert_eq!(
        CommentThreadKey::from_stable_string(&out_of_range),
        Err(ThreadKeyError::Malformed)
    );
}

fn concat_key(kind: &str, rest: &str, field: &str, id: &str) -> String {
    format!(
        r#"{{"kind":"{kind}","partition":{{"storageKey":"base_head","baseOid":"base","headOid":"head",{rest}}},"{field}":"{id}"}}"#
    )
}
