use stack_review::line_diff::{hunk_line_counts, line_diff_fits, stack_review_line_counts, LineHunk};
use stack_review::path_order::path_not_after;
use stack_review::stack_diff::{
    assemble_stack_diff, content_requests, direct_commit_boundary, equivalent_commit_boundary,
    file_provenance, paths_since, plan_stack_diff, time_checkpoint_base, CommitBoundaryError,
    CommitBoundaryStep, FirstParentCommit, RevisionContent, StackReviewContentKind,
    StackReviewContents, StackReviewFileProvenance, StackReviewFileStatus,
    StackReviewProvenanceCounts, TreeDiffEntry, TreeDiffStatus,
};
use stack_review::stacks::{
    stack_ancestry, BranchRef, PullRequestRef, ResolvedStackBranch, ResolvedStackLayer, Stack,
    StackError, StackFile, StackSnapshot,
};
use stack_review::text_map::TextMap;

fn branch(name: &str, pull_request: Option<u32>) -> BranchRef {
    BranchRef {
        branch: name.into(),
        head: None,
        base: None,
        pull_request: pull_request.map(|number| PullRequestRef {
            number,
            id: None,
            url: None,
            merged: false,
        }),
    }
}

fn stack_file() -> StackFile {
    StackFile {
        schema_version: 1,
        repository: Some("github.com:example/repository".into()),
        stacks: vec![Stack {
            id: None,
            number: Some(42),
            trunk: branch("staging", None),
            branches: vec![
                branch("feature/foundation", Some(101)),
                branch("feature/ui", Some(102)),
            ],
        }],
    }
}

fn heads(pairs: &[(&str, &str)]) -> TextMap<String> {
    let mut heads = TextMap::new();
    for (name, oid) in pairs {
        heads.insert((*name).to_owned(), (*oid).to_owned());
    }
    heads
}

#[test]
fn parses_local_gh_stack_metadata() {
    let file = stack_file().supported().expect("valid stack metadata");

    assert_eq!(file.schema_version, 1);
    assert_eq!(file.stacks.len(), 1);
    assert_eq!(file.stacks[0].trunk.branch, "staging");
    assert_eq!(
        file.stacks[0]
            .branches
            .iter()
            .map(|branch| branch.branch.as_str())
            .collect::<Vec<_>>(),
        ["feature/foundation", "feature/ui"]
    );
}

#[test]
fn selects_the_single_stack_containing_a_branch() {
    let file = stack_file();

    let stack = file
        .stack_for_branch("feature/ui")
        .expect("branch belongs to one stack");

    assert_eq!(stack.number, Some(42));
    assert_eq!(stack.base_branch_for("feature/foundation"), Some("staging"));
    assert_eq!(
        stack.base_branch_for("feature/ui"),
        Some("feature/foundation")
    );
    assert_eq!(stack.base_branch_for("staging"), None);
    assert!(stack.contains("staging"));
    assert!(!stack.contains("main"));
}

#[test]
fn rejects_unsupported_schema_versions() {
    let error = StackFile {
        schema_version: 2,
        repository: None,
        stacks: Vec::new(),
    }
    .supported()
    .expect_err("unknown schema must fail");

    assert!(error
        .message()
        .contains("unsupported gh-stack schema version 2"));
}

#[test]
fn resolves_a_stack_to_immutable_branch_oids() {
    let file = stack_file();
    let stack = file
        .stack_for_branch("feature/ui")
        .expect("branch belongs to one stack");
    let branch_heads = heads(&[
        ("staging", "aaaaaaaa"),
        ("feature/foundation", "bbbbbbbb"),
        ("feature/ui", "cccccccc"),
    ]);

    let snapshot = stack
        .resolve(&branch_heads)
        .expect("all stack refs resolve");

    assert_eq!(snapshot.trunk.branch, "staging");
    assert_eq!(snapshot.trunk.oid, "aaaaaaaa");
    assert_eq!(snapshot.layers.len(), 2);
    assert_eq!(snapshot.layers[0].base.oid, "aaaaaaaa");
    assert_eq!(snapshot.layers[0].head.oid, "bbbbbbbb");
    assert_eq!(snapshot.layers[1].base.oid, "bbbbbbbb");
    assert_eq!(snapshot.layers[1].head.oid, "cccccccc");
    assert_eq!(
        snapshot
            .boundary(0)
            .map(|boundary| boundary.branch.as_str()),
        Some("staging")
    );
    assert_eq!(
        snapshot
            .boundary(2)
            .map(|boundary| boundary.branch.as_str()),
        Some("feature/ui")
    );
    assert_eq!(snapshot.boundary(3), None);
    assert_eq!(snapshot.refs_between(0, 2), Some(("aaaaaaaa", "cccccccc")));
    assert_eq!(snapshot.refs_between(2, 1), None);
    assert_eq!(snapshot.layers[1].head.pull_request_number, Some(102));
}

#[test]
fn rejects_a_stack_snapshot_with_a_missing_branch() {
    let file = stack_file();
    let stack = file
        .stack_for_branch("feature/ui")
        .expect("branch belongs to one stack");
    let branch_heads = heads(&[("staging", "aaaaaaaa"), ("feature/ui", "cccccccc")]);

    let error = stack
        .resolve(&branch_heads)
        .expect_err("missing branch must fail");

    assert!(error
        .message()
        .contains("missing local branch \"feature/foundation\""));
}

#[test]
fn reports_ambiguous_stack_membership() {
    let stack = |trunk: &str| Stack {
        id: None,
        number: None,
        trunk: branch(trunk, None),
        branches: vec![branch("feature/shared", None)],
    };
    let file = StackFile {
        schema_version: 1,
        repository: None,
        stacks: vec![stack("staging"), stack("main")],
    };

    let error = file
        .stack_for_branch("feature/shared")
        .expect_err("ambiguous branch must fail");

    assert!(error.message().contains("belongs to 2 local stacks"));
    assert_eq!(
        file.stack_for_branch("elsewhere"),
        Err(StackError::NotInStack("elsewhere".into()))
    );
    assert_eq!(
        StackError::NotInStack("else\"where".into()).message(),
        "branch \"else\\\"where\" is not part of a local stack"
    );
}

#[test]
fn reports_a_declared_layer_without_parent_ancestry() {
    let resolved = |name: &str, oid: &str| ResolvedStackBranch {
        branch: name.into(),
        oid: oid.into(),
        pull_request_number: None,
    };
    let snapshot = StackSnapshot {
        number: None,
        trunk: resolved("staging", "base"),
        layers: vec![ResolvedStackLayer {
            base: resolved("staging", "base"),
            head: resolved("unrelated", "head"),
        }],
    };

    let ancestry = stack_ancestry(&snapshot, &vec![false]);

    assert_eq!(ancestry.len(), 1);
    assert_eq!(ancestry[0].base_branch, "staging");
    assert_eq!(ancestry[0].head_branch, "unrelated");
    assert!(!ancestry[0].is_ancestor);
}

#[test]
fn time_checkpoint_uses_parent_of_first_qualifying_graph_commit() {
    let commits = vec![
        FirstParentCommit {
            oid: "one".into(),
            author_timestamp: 100,
            is_merge: false,
            paths: vec![],
        },
        FirstParentCommit {
            oid: "two".into(),
            author_timestamp: 300,
            is_merge: false,
            paths: vec![],
        },
        FirstParentCommit {
            oid: "three".into(),
            author_timestamp: 200,
            is_merge: false,
            paths: vec![],
        },
    ];
    assert_eq!(time_checkpoint_base("base", "head", &commits, 250), "one");
    assert_eq!(time_checkpoint_base("base", "head", &commits, 50), "base");
    assert_eq!(time_checkpoint_base("base", "head", &commits, 400), "head");
}

#[test]
fn stack_review_line_counts_match_native_line_diff_semantics() {
    assert!(line_diff_fits("one\ntwo\n", "one\nchanged\nthree\n"));
    assert_eq!(
        stack_review_line_counts("one\ntwo\n", "one\nchanged\nthree\n"),
        (2, 1)
    );
    assert_eq!(stack_review_line_counts("same\n", "same\n"), (0, 0));
    assert_eq!(stack_review_line_counts("", "one\ntwo\n"), (2, 0));
}

#[test]
fn lines_are_counted_hunk_by_hunk() {
    assert_eq!(
        hunk_line_counts(&vec![
            LineHunk { before_start: 0, before_end: 2, after_start: 0, after_end: 1 },
            LineHunk { before_start: 5, before_end: 5, after_start: 4, after_end: 9 },
        ]),
        (6, 2)
    );
}

fn commit(oid: &str, author_timestamp: i64, is_merge: bool, paths: &[&str]) -> FirstParentCommit {
    FirstParentCommit {
        oid: oid.into(),
        author_timestamp,
        is_merge,
        paths: paths.iter().map(|path| (*path).to_owned()).collect(),
    }
}

fn added(path: &str) -> TreeDiffEntry {
    TreeDiffEntry {
        path: path.into(),
        status: TreeDiffStatus::Added,
    }
}

fn deleted(path: &str) -> TreeDiffEntry {
    TreeDiffEntry {
        path: path.into(),
        status: TreeDiffStatus::Deleted { old: "old".into() },
    }
}

fn modified(path: &str) -> TreeDiffEntry {
    TreeDiffEntry {
        path: path.into(),
        status: TreeDiffStatus::Modified { old: "old".into() },
    }
}

fn sides(old: Option<&str>, new: Option<&str>) -> StackReviewContents {
    let text = |text: &str| RevisionContent::Text(text.into());
    StackReviewContents {
        old: old.map(text),
        new: new.map(text),
    }
}

#[test]
fn excludes_merge_only_files_from_the_review_diff() {
    let commits = vec![
        commit(
            "direct changes",
            100,
            false,
            &["both.txt", "direct.txt", "rename-new.txt", "rename-old.txt"],
        ),
        commit("merge integration", 200, true, &["both.txt", "merged.txt"]),
    ];
    let entries = vec![
        added("merged.txt"),
        deleted("rename-old.txt"),
        added("direct.txt"),
        modified("both.txt"),
        added("rename-new.txt"),
    ];
    let planned = plan_stack_diff(&entries, &commits, None);
    let paths = planned
        .iter()
        .map(|entry| entry.path.as_str())
        .collect::<Vec<_>>();
    assert_eq!(
        paths,
        ["both.txt", "direct.txt", "rename-new.txt", "rename-old.txt"]
    );
    let contents = vec![
        sides(Some("base\n"), Some("merged\n")),
        sides(None, Some("direct\n")),
        sides(None, Some("renamed\n")),
        sides(Some("renamed\n"), None),
    ];
    let diff = assemble_stack_diff("staging", "feature", &planned, contents, &commits)
        .expect("load stack diff");
    assert_eq!(
        diff.file("direct.txt").expect("direct file").provenance,
        StackReviewFileProvenance::Direct
    );
    assert_eq!(
        diff.file("rename-old.txt")
            .expect("deleted rename source")
            .provenance,
        StackReviewFileProvenance::Direct
    );
    assert_eq!(
        diff.file("rename-new.txt")
            .expect("added rename target")
            .provenance,
        StackReviewFileProvenance::Direct
    );
    assert!(diff.file("merged.txt").is_none());
    assert_eq!(
        diff.file("both.txt").expect("mixed file").provenance,
        StackReviewFileProvenance::Mixed
    );
    assert_eq!(
        diff.provenance_counts(),
        StackReviewProvenanceCounts {
            direct: 3,
            merge: 0,
            mixed: 1,
            unknown: 0,
        }
    );
}

#[test]
fn provenance_is_told_from_the_commits_of_a_path() {
    let commits = vec![
        commit("one", 100, false, &["direct.txt", "both.txt"]),
        commit("two", 200, true, &["merged.txt", "both.txt"]),
    ];
    assert_eq!(
        file_provenance(&commits, "direct.txt"),
        StackReviewFileProvenance::Direct
    );
    assert_eq!(
        file_provenance(&commits, "merged.txt"),
        StackReviewFileProvenance::Merge
    );
    assert_eq!(
        file_provenance(&commits, "both.txt"),
        StackReviewFileProvenance::Mixed
    );
    assert_eq!(
        file_provenance(&commits, "other.txt"),
        StackReviewFileProvenance::Unknown
    );
    let planned = plan_stack_diff(&vec![added("merged.txt"), added("other.txt")], &commits, None);
    assert_eq!(planned, [added("other.txt")]);
}

#[test]
fn filters_a_stack_diff_by_author_time() {
    let commits = vec![
        commit("old", 1_000_000_100, false, &["old.txt"]),
        commit("recent", 1_000_000_200, false, &["recent.txt"]),
        commit(
            "old authored after restack",
            1_000_000_120,
            false,
            &["old_after_restack.txt"],
        ),
    ];
    let since = paths_since(&commits, 1_000_000_150);
    let entries = vec![
        added("old.txt"),
        added("old_after_restack.txt"),
        added("recent.txt"),
    ];
    let planned = plan_stack_diff(&entries, &commits, Some(&since));
    assert_eq!(planned, [added("recent.txt")]);
    let contents = vec![sides(None, Some("recent\n"))];
    let diff = assemble_stack_diff("staging", "feature", &planned, contents, &commits)
        .expect("load filtered stack diff");
    assert!(diff.file("old.txt").is_none());
    assert!(diff.file("old_after_restack.txt").is_none());
    assert_eq!(diff.base_ref, "staging");
    assert_eq!(diff.head_ref, "feature");
    assert_eq!(
        diff.file("recent.txt")
            .expect("recent file")
            .new_content
            .as_ref(),
        Some(&RevisionContent::Text("recent\n".into()))
    );
}

#[test]
fn loads_a_direct_parent_diff_without_checkout() {
    assert_eq!(
        direct_commit_boundary("feature-oid", true, true),
        CommitBoundaryStep::Boundary("feature-oid".into())
    );
    assert_eq!(
        direct_commit_boundary("feature-oid", true, false),
        CommitBoundaryStep::FindEquivalents
    );
    assert_eq!(
        equivalent_commit_boundary("feature-oid", &vec!["rewritten-oid".into()]),
        Ok("rewritten-oid".into())
    );
    assert_eq!(
        direct_commit_boundary("feature-oid", false, false),
        CommitBoundaryStep::FindEquivalents
    );
    assert!(
        equivalent_commit_boundary("feature-oid", &vec![]).is_err(),
        "a boundary outside the selected ancestry must be rejected"
    );

    let commits = vec![commit(
        "feature",
        100,
        false,
        &["added.txt", "deleted.txt", "image.webp", "modified.txt"],
    )];
    let entries = plan_stack_diff(
        &vec![
            modified("modified.txt"),
            deleted("deleted.txt"),
            added("image.webp"),
            added("added.txt"),
        ],
        &commits,
        None,
    );
    let requests = content_requests(&entries);
    assert_eq!(requests.len(), 4);
    assert!(requests[0].load_new);
    assert!(!requests[1].load_new);
    let contents = vec![
        sides(None, Some("added\n")),
        sides(Some("deleted\n"), None),
        StackReviewContents {
            old: None,
            new: Some(RevisionContent::Binary),
        },
        sides(Some("before\n"), Some("after\n")),
    ];
    let diff = assemble_stack_diff("staging", "feature", &entries, contents, &commits)
        .expect("load stack diff");
    assert_eq!(diff.base_ref, "staging");
    assert_eq!(diff.head_ref, "feature");
    assert_eq!(diff.files.len(), 4);
    assert_eq!(
        diff.file("added.txt").expect("added file").status,
        StackReviewFileStatus::Added
    );
    assert_eq!(
        diff.file("added.txt")
            .expect("added file")
            .new_content
            .as_ref(),
        Some(&RevisionContent::Text("added\n".into()))
    );
    assert_eq!(
        diff.file("modified.txt")
            .expect("modified file")
            .old_content
            .as_ref(),
        Some(&RevisionContent::Text("before\n".into()))
    );
    assert_eq!(
        diff.file("modified.txt")
            .expect("modified file")
            .new_content
            .as_ref(),
        Some(&RevisionContent::Text("after\n".into()))
    );
    assert_eq!(
        diff.file("deleted.txt").expect("deleted file").new_content,
        None
    );
    assert_eq!(
        diff.file("image.webp").expect("binary file").content_kind,
        StackReviewContentKind::Binary
    );
    assert!(diff.file("elsewhere.txt").is_none());
    assert_eq!(
        assemble_stack_diff("staging", "feature", &entries, Vec::new(), &commits)
            .expect_err("no contents")
            .message(),
        "stack content count mismatch"
    );
}

#[test]
fn a_commit_boundary_is_found_directly_or_by_its_patch() {
    assert_eq!(
        direct_commit_boundary("candidate", true, true),
        CommitBoundaryStep::Boundary("candidate".into())
    );
    assert!(direct_commit_boundary("candidate", true, false)
        != CommitBoundaryStep::Boundary("candidate".into()));
    assert_eq!(
        equivalent_commit_boundary("candidate", &vec!["rewritten".into()]),
        Ok("rewritten".into())
    );
    assert_eq!(
        equivalent_commit_boundary("candidate", &vec![]),
        Err(CommitBoundaryError::NoEquivalent("candidate".into()))
    );
    assert_eq!(
        equivalent_commit_boundary("candidate", &vec!["a".into(), "b".into()]),
        Err(CommitBoundaryError::SeveralEquivalents("candidate".into()))
    );
}

#[test]
fn paths_are_ordered_part_by_part() {
    assert!(path_not_after("a/b", "a-b"));
    assert!(!path_not_after("a-b", "a/b"));
    assert!(path_not_after("a", "a/b"));
}
