use stack_review::mention::{LineRange, MentionUri, RuleId, StackReviewMentionSide};
use stack_review::mention_uri::plan_fits;
use stack_review::mention_error::MentionError;
use stack_review::mention_label::{line_range_suffix, selection_name, MentionIcon};
use stack_review::mention_parse::{hyperlink_position_text, position_text, PathWithPosition};
use stack_review::mention_path::{
    decode_path_escapes, file_name, is_absolute, path_suffix, to_native_windows_path, PathStyle,
};

/// A path with the row and the column behind it, if there are any.
fn position_of(text: &str) -> PathWithPosition {
    let mut path = text;
    let mut numbers = Vec::new();
    while numbers.len() < 2 {
        match path.rsplit_once(':') {
            Some((before, number)) if number.parse::<u32>().is_ok() => {
                numbers.push(number.parse::<u32>().unwrap());
                path = before;
            }
            _ => break,
        }
    }
    numbers.reverse();
    PathWithPosition {
        path: path.to_owned(),
        row: numbers.first().copied(),
        column: numbers.get(1).copied(),
    }
}

fn parse(input: &str, style: PathStyle) -> Result<MentionUri, MentionError> {
    let position = match position_text(input, style) {
        Some(text) => position_of(&text),
        None => PathWithPosition::from_path(input),
    };
    MentionUri::parse(input, style, &position)
}

fn parse_hyperlink(input: &str, style: PathStyle) -> Result<MentionUri, MentionError> {
    let position = match hyperlink_position_text(input, style, true) {
        Some(text) => position_of(&text),
        None => PathWithPosition::from_path(input),
    };
    MentionUri::parse_hyperlink(input, style, &position)
}

fn parse_hyperlink_literal(input: &str, style: PathStyle) -> Option<MentionUri> {
    let position = match hyperlink_position_text(input, style, false) {
        Some(text) => position_of(&text),
        None => PathWithPosition::from_path(input),
    };
    MentionUri::parse_hyperlink_literal(input, style, &position)
}

#[test]
fn test_parse_file_uri() {
    let file_uri = "file:///path/to/file.rs";
    let parsed = parse(file_uri, PathStyle::Unix).unwrap();
    match &parsed {
        MentionUri::File { abs_path } => {
            assert_eq!(abs_path, "/path/to/file.rs");
        }
        _ => panic!("Expected File variant"),
    }
    assert_eq!(parsed.to_uri(), file_uri);
}

#[test]
fn test_parse_directory_uri() {
    let file_uri = "file:///path/to/dir/";
    let parsed = parse(file_uri, PathStyle::Unix).unwrap();
    match &parsed {
        MentionUri::Directory { abs_path } => {
            assert_eq!(abs_path, "/path/to/dir/");
        }
        _ => panic!("Expected Directory variant"),
    }
    assert_eq!(parsed.to_uri(), file_uri);
}

#[test]
fn test_parse_file_uris_use_native_separators_on_windows() {
    let parsed = parse("file:///C:/path/to/file.rs", PathStyle::Windows).unwrap();
    match parsed {
        MentionUri::File { abs_path } => {
            assert_eq!(abs_path, String::from("C:\\path\\to\\file.rs"));
        }
        other => panic!("Expected File variant, got {other:?}"),
    }

    let parsed = parse("file:///C:/path/to/dir/", PathStyle::Windows).unwrap();
    match parsed {
        MentionUri::Directory { abs_path } => {
            assert_eq!(abs_path, String::from("C:\\path\\to\\dir\\"));
        }
        other => panic!("Expected Directory variant, got {other:?}"),
    }

    let parsed = parse(
        "file:///C:/path/to/file.rs?symbol=MySymbol#L10:20",
        PathStyle::Windows,
    )
    .unwrap();
    match parsed {
        MentionUri::Symbol { abs_path, .. } => {
            assert_eq!(abs_path, String::from("C:\\path\\to\\file.rs"));
        }
        other => panic!("Expected Symbol variant, got {other:?}"),
    }

    let parsed =
        parse("file:///C:/path/to/file.rs#L5:15", PathStyle::Windows).unwrap();
    match parsed {
        MentionUri::Selection {
            abs_path: Some(abs_path),
            ..
        } => {
            assert_eq!(abs_path, String::from("C:\\path\\to\\file.rs"));
        }
        other => panic!("Expected Selection variant, got {other:?}"),
    }
}

#[test]
fn test_parse_file_uri_with_spaces() {
    let parsed =
        parse("file:///C:/path%20with%20space/file.rs", PathStyle::Windows)
            .unwrap();
    match parsed {
        MentionUri::File { abs_path } => {
            assert_eq!(abs_path, String::from("C:\\path with space\\file.rs"));
        }
        other => panic!("Expected File variant, got {other:?}"),
    }
    assert_eq!(
        MentionUri::File {
            abs_path: String::from("C:\\path with space\\file.rs")
        }
        .to_uri(),
        "file:///C:/path%20with%20space/file.rs"
    );
}

#[test]
fn test_parse_windows_drive_path_with_leading_slash_and_line() {
    let parsed = parse_hyperlink(
        "/C:/Projects/Example Workspace/Cargo.toml:2",
        PathStyle::Windows,
    )
    .unwrap();
    match parsed {
        MentionUri::Selection {
            abs_path: Some(abs_path),
            line_range,
            ..
        } => {
            assert_eq!(
                abs_path,
                String::from("C:\\Projects\\Example Workspace\\Cargo.toml")
            );
            assert_eq!(line_range, LineRange { start: 1, end: 1 });
        }
        other => panic!("Expected Selection variant, got {other:?}"),
    }
}

#[test]
fn test_parse_windows_path_with_percent_escaped_spaces_and_line() {
    let parsed = parse_hyperlink(
        "C:\\Projects\\Example%20Workspace\\path\\to\\filename.ext:42",
        PathStyle::Windows,
    )
    .unwrap();
    match parsed {
        MentionUri::Selection {
            abs_path: Some(abs_path),
            line_range,
            ..
        } => {
            assert_eq!(
                abs_path,
                String::from("C:\\Projects\\Example Workspace\\path\\to\\filename.ext")
            );
            assert_eq!(line_range, LineRange { start: 41, end: 41 });
        }
        other => panic!("Expected Selection variant, got {other:?}"),
    }
}

#[test]
fn test_parse_windows_compat_path_with_spaces() {
    let parsed = parse_hyperlink(
        "/c/Projects/Example Workspace/AGENTS.md",
        PathStyle::Windows,
    )
    .unwrap();
    match parsed {
        MentionUri::File { abs_path } => {
            assert_eq!(
                abs_path,
                String::from("C:\\Projects\\Example Workspace\\AGENTS.md")
            );
        }
        other => panic!("Expected File variant, got {other:?}"),
    }
}

#[test]
fn test_parse_windows_drive_path_with_leading_slash_and_fragment_line() {
    let parsed =
        parse_hyperlink("/C:/Projects/Cargo.toml#L4", PathStyle::Windows).unwrap();
    match parsed {
        MentionUri::Selection {
            abs_path: Some(abs_path),
            line_range,
            ..
        } => {
            assert_eq!(abs_path, String::from("C:\\Projects\\Cargo.toml"));
            assert_eq!(line_range, LineRange { start: 3, end: 3 });
        }
        other => panic!("Expected Selection variant, got {other:?}"),
    }
}

#[test]
fn test_windows_drive_path_with_leading_slash_round_trips() {
    let parsed = parse_hyperlink("/C:/dir/file.rs", PathStyle::Windows).unwrap();
    assert_eq!(
        parsed,
        MentionUri::File {
            abs_path: String::from("C:\\dir\\file.rs")
        }
    );
    let uri = parsed.to_uri();
    assert_eq!(uri, "file:///C:/dir/file.rs");
    assert_eq!(parse(&uri, PathStyle::Windows).unwrap(), parsed);
}

#[test]
fn test_parse_windows_unc_path() {
    let parsed =
        parse_hyperlink("//server/share/dir/file.rs", PathStyle::Windows).unwrap();
    match parsed {
        MentionUri::File { abs_path } => {
            assert_eq!(abs_path, String::from("\\\\server\\share\\dir\\file.rs"));
        }
        other => panic!("Expected File variant, got {other:?}"),
    }
}

#[test]
fn test_parse_windows_drive_letters_are_uppercased() {
    for input in [
        "file:///c:/foo/bar.rs",
        "/c:/foo/bar.rs",
        "/c/foo/bar.rs",
        "c:\\foo\\bar.rs",
        "c:/foo/bar.rs",
    ] {
        let parsed = parse_hyperlink(input, PathStyle::Windows).unwrap();
        assert_eq!(
            parsed,
            MentionUri::File {
                abs_path: String::from("C:\\foo\\bar.rs")
            },
            "input: {input}"
        );
    }
}

#[test]
fn test_msys_style_paths_require_lowercase_drive() {
    // Uppercase `/C/foo` is more likely a real directory than a drive.
    let parsed = parse_hyperlink("/C/Users/readme.md", PathStyle::Windows).unwrap();
    match parsed {
        MentionUri::File { abs_path } => {
            assert_eq!(abs_path, String::from("\\C\\Users\\readme.md"));
        }
        other => panic!("Expected File variant, got {other:?}"),
    }
}

#[test]
fn test_posix_paths_are_not_rewritten_as_windows_drives() {
    let parsed = parse_hyperlink("/c/Projects/AGENTS.md", PathStyle::Unix).unwrap();
    match parsed {
        MentionUri::File { abs_path } => {
            assert_eq!(abs_path, String::from("/c/Projects/AGENTS.md"));
        }
        other => panic!("Expected File variant, got {other:?}"),
    }
}

#[test]
fn test_hyperlink_percent_escapes_are_decoded() {
    let parsed = parse_hyperlink("/tmp/a%20b.rs", PathStyle::Unix).unwrap();
    assert_eq!(
        parsed,
        MentionUri::File {
            abs_path: String::from("/tmp/a b.rs")
        }
    );

    // Invalid escape sequences pass through unchanged.
    let parsed =
        parse_hyperlink("C:\\dir\\100%_done.txt", PathStyle::Windows).unwrap();
    assert_eq!(
        parsed,
        MentionUri::File {
            abs_path: String::from("C:\\dir\\100%_done.txt")
        }
    );

    // Separator escapes stay encoded (no introduced path traversal).
    let parsed = parse_hyperlink("/tmp/a%2Fb.rs", PathStyle::Unix).unwrap();
    assert_eq!(
        parsed,
        MentionUri::File {
            abs_path: String::from("/tmp/a%2Fb.rs")
        }
    );
    let parsed = parse_hyperlink("/tmp/..%2F..%2Fsecret", PathStyle::Unix).unwrap();
    assert_eq!(
        parsed,
        MentionUri::File {
            abs_path: String::from("/tmp/..%2F..%2Fsecret")
        }
    );
}

#[test]
fn test_parse_keeps_bare_path_targets_verbatim() {
    let parsed = parse("/tmp/a%20b.rs", PathStyle::Unix).unwrap();
    assert_eq!(
        parsed,
        MentionUri::File {
            abs_path: String::from("/tmp/a%20b.rs")
        }
    );

    let parsed = parse("/c/Projects/AGENTS.md", PathStyle::Windows).unwrap();
    assert_eq!(
        parsed,
        MentionUri::File {
            abs_path: String::from("/c/Projects/AGENTS.md")
        }
    );
}

#[test]
fn test_parse_hyperlink_literal_keeps_percent_escapes() {
    let literal =
        parse_hyperlink_literal("/tmp/a%20b.rs", PathStyle::Unix).unwrap();
    assert_eq!(
        literal,
        MentionUri::File {
            abs_path: String::from("/tmp/a%20b.rs")
        }
    );

    // Line suffixes still parse.
    let literal =
        parse_hyperlink_literal("/tmp/a%20b.rs:42", PathStyle::Unix).unwrap();
    assert_eq!(
        literal,
        MentionUri::Selection {
            abs_path: Some(String::from("/tmp/a%20b.rs")),
            line_range: LineRange { start: 41, end: 41 },
            column: None,
        }
    );

    // Windows normalization still applies.
    let literal =
        parse_hyperlink_literal("/C:/dir/a%20b.rs", PathStyle::Windows).unwrap();
    assert_eq!(
        literal,
        MentionUri::File {
            abs_path: String::from("C:\\dir\\a%20b.rs")
        }
    );
}

#[test]
fn test_parse_hyperlink_literal_returns_none_when_unambiguous() {
    // No percent escapes: identical to `parse_hyperlink`.
    assert_eq!(
        parse_hyperlink_literal("/tmp/a b.rs", PathStyle::Unix),
        None
    );
    // Invalid escape sequences are also left alone by `parse_hyperlink`.
    assert_eq!(
        parse_hyperlink_literal("/tmp/100%_done.txt", PathStyle::Unix),
        None
    );
    // Separator escapes are never decoded, so they're not ambiguous.
    assert_eq!(
        parse_hyperlink_literal("/tmp/a%2Fb.rs", PathStyle::Unix),
        None
    );
    // URLs are spec-encoded, not ambiguous.
    assert_eq!(
        parse_hyperlink_literal("file:///tmp/a%20b.rs", PathStyle::Unix),
        None
    );
    // Relative paths are not bare-path mentions.
    assert_eq!(
        parse_hyperlink_literal("tmp/a%20b.rs", PathStyle::Unix),
        None
    );
}

#[test]
fn test_to_directory_uri_without_slash() {
    let uri = MentionUri::Directory {
        abs_path: String::from("/path/to/dir/"),
    };
    let expected = "file:///path/to/dir/";
    assert_eq!(uri.to_uri(), expected);
}

#[test]
fn test_directory_uri_round_trip_without_trailing_slash() {
    let uri = MentionUri::Directory {
        abs_path: String::from("/path/to/dir"),
    };
    let serialized = uri.to_uri();
    assert!(serialized.ends_with('/'), "directory URI must end with /");
    let parsed = parse(&serialized, PathStyle::Unix).unwrap();
    assert!(
        matches!(parsed, MentionUri::Directory { .. }),
        "expected Directory variant, got {:?}",
        parsed
    );
}

#[test]
fn test_parse_symbol_uri() {
    let symbol_uri = "file:///path/to/file.rs?symbol=MySymbol#L10:20";
    let parsed = parse(symbol_uri, PathStyle::Unix).unwrap();
    match &parsed {
        MentionUri::Symbol {
            abs_path: path,
            name,
            line_range,
            ..
        } => {
            assert_eq!(path, "/path/to/file.rs");
            assert_eq!(name, "MySymbol");
            assert_eq!(line_range.start, 9);
            assert_eq!(line_range.end, 19);
        }
        _ => panic!("Expected Symbol variant"),
    }
    assert_eq!(parsed.to_uri(), symbol_uri);
}

#[test]
fn test_parse_selection_uri() {
    let selection_uri = "file:///path/to/file.rs#L5:15";
    let parsed = parse(selection_uri, PathStyle::Unix).unwrap();
    match &parsed {
        MentionUri::Selection {
            abs_path: path,
            line_range,
            ..
        } => {
            assert_eq!(path.as_deref().unwrap(), "/path/to/file.rs");
            assert_eq!(line_range.start, 4);
            assert_eq!(line_range.end, 14);
        }
        _ => panic!("Expected Selection variant"),
    }
    assert_eq!(parsed.to_uri(), selection_uri);
}

#[test]
fn test_parse_file_uri_with_non_ascii() {
    let file_uri = "file:///path/to/%E6%97%A5%E6%9C%AC%E8%AA%9E.txt";
    let parsed = parse(file_uri, PathStyle::Unix).unwrap();
    match &parsed {
        MentionUri::File { abs_path } => {
            assert_eq!(abs_path, "/path/to/日本語.txt");
        }
        _ => panic!("Expected File variant"),
    }
    assert_eq!(parsed.to_uri(), file_uri);
}

#[test]
fn test_parse_untitled_selection_uri() {
    let selection_uri = "zed:///agent/untitled-buffer#L1:10";
    let parsed = parse(selection_uri, PathStyle::Unix).unwrap();
    match &parsed {
        MentionUri::Selection {
            abs_path: None,
            line_range,
            ..
        } => {
            assert_eq!(line_range.start, 0);
            assert_eq!(line_range.end, 9);
        }
        _ => panic!("Expected Selection variant without path"),
    }
    assert_eq!(parsed.to_uri(), selection_uri);
}

#[test]
fn test_parse_thread_uri() {
    let thread_uri = "zed:///agent/thread/session123?name=Thread+name";
    let parsed = parse(thread_uri, PathStyle::Unix).unwrap();
    match &parsed {
        MentionUri::Thread {
            id: thread_id,
            name,
        } => {
            assert_eq!(thread_id.to_string(), "session123");
            assert_eq!(name, "Thread name");
        }
        _ => panic!("Expected Thread variant"),
    }
    assert_eq!(parsed.to_uri(), thread_uri);
}

#[test]
fn test_parse_legacy_rule_uri() {
    let rule_uri = "zed:///agent/rule/d8694ff2-90d5-4b6f-be33-33c1763acd52?name=Some+rule";
    let parsed = parse(rule_uri, PathStyle::Unix).unwrap();
    match &parsed {
        MentionUri::Rule { name, .. } => assert_eq!(name, "Some rule"),
        _ => panic!("Expected Rule variant"),
    }
    // The id round-trips through the URI.
    assert_eq!(parsed.to_uri(), rule_uri);
}

#[test]
fn test_stack_review_mention_uri_rejects_noncanonical_authority_and_unpaired_ids() {
    for uri in [
        "zed:/agent/stack-review?storage_key=base-head&project=project-a&base=base&head=head&side=TOP_LEVEL",
        "zed://attacker/agent/stack-review?storage_key=base-head&project=project-a&base=base&head=head&side=TOP_LEVEL",
        "zed:///agent/stack-review/?storage_key=base-head&project=project-a&base=base&head=head&side=TOP_LEVEL",
        "zed:///agent/stack-review?storage_key=base-head&project=project-a&base=base&head=head&side=TOP_LEVEL&selected=selected",
        "zed:///agent/stack-review?storage_key=base-head&project=project-a&base=base&head=head&side=TOP_LEVEL&root=root",
    ] {
        assert!(
            parse(uri, PathStyle::Unix).is_err(),
            "accepted noncanonical Stack Review citation {uri:?}"
        );
    }
}

#[test]
fn test_stack_review_mention_uri_round_trips_right_range() {
    let mention = MentionUri::StackReview {
        storage_key: "base-head".to_string(),
        project_identity: "project-a".to_string(),
        base_oid: "base".to_string(),
        head_oid: "head".to_string(),
        path: Some("src/review.rs".to_string()),
        side: StackReviewMentionSide::Right,
        line_range: Some(LineRange { start: 12, end: 18 }),
        selected_record_id: Some("selected-record".to_string()),
        root_record_id: Some("root-record".to_string()),
    };

    let serialized = mention.to_uri();
    assert_eq!(
        serialized,
        "zed:///agent/stack-review?storage_key=base-head&project=project-a&base=base&head=head&side=RIGHT&path=src%2Freview.rs&line_start=12&line_end=18&selected=selected-record&root=root-record"
    );
    assert_eq!(
        parse(&serialized, PathStyle::Unix).unwrap(),
        mention
    );
}

#[test]
fn test_stack_review_mention_uri_round_trips_left_escaped_non_ascii_path() {
    let mention = MentionUri::StackReview {
        storage_key: "base-head".to_string(),
        project_identity: "project-a".to_string(),
        base_oid: "base".to_string(),
        head_oid: "head".to_string(),
        path: Some("src/a b/μ.rs".to_string()),
        side: StackReviewMentionSide::Left,
        line_range: Some(LineRange { start: 3, end: 5 }),
        selected_record_id: None,
        root_record_id: None,
    };

    let serialized = mention.to_uri();
    assert_eq!(
        serialized,
        "zed:///agent/stack-review?storage_key=base-head&project=project-a&base=base&head=head&side=LEFT&path=src%2Fa+b%2F%CE%BC.rs&line_start=3&line_end=5"
    );
    assert_eq!(
        parse(&serialized, PathStyle::Unix).unwrap(),
        mention
    );
    assert_eq!(mention.name(), "μ.rs (LEFT 3-5)");
    assert_eq!(mention.abs_path(), None);
}

#[test]
fn test_stack_review_mention_uri_round_trips_top_level_resource() {
    let mention = MentionUri::StackReview {
        storage_key: "base-head".to_string(),
        project_identity: "project-a".to_string(),
        base_oid: "base".to_string(),
        head_oid: "head".to_string(),
        path: None,
        side: StackReviewMentionSide::TopLevel,
        line_range: None,
        selected_record_id: Some("conversation-comment".to_string()),
        root_record_id: Some("conversation-root".to_string()),
    };

    let serialized = mention.to_uri();
    assert_eq!(
        serialized,
        "zed:///agent/stack-review?storage_key=base-head&project=project-a&base=base&head=head&side=TOP_LEVEL&selected=conversation-comment&root=conversation-root"
    );
    assert_eq!(
        parse(&serialized, PathStyle::Unix).unwrap(),
        mention
    );
    assert_eq!(mention.name(), "Stack Review (TOP_LEVEL)");
    assert_eq!(
        mention.tooltip_text().as_deref(),
        Some("Immutable Stack Review base…head · TOP_LEVEL")
    );
}

#[test]
fn test_stack_review_mention_uri_rejects_duplicate_query_parameters() {
    let uri = "zed:///agent/stack-review?storage_key=base-head&storage_key=foreign&base=base&head=head&side=RIGHT";

    let error = parse(uri, PathStyle::Unix).unwrap_err();
    assert!(
        error
            .message()
            .contains("duplicate Stack Review storage_key")
    );
}

#[test]
fn test_stack_review_mention_uri_rejects_empty_required_value() {
    let uri = "zed:///agent/stack-review?storage_key=base-head&project=project-a&base=&head=head&side=RIGHT";

    let error = parse(uri, PathStyle::Unix).unwrap_err();
    assert!(error.message().contains("missing Stack Review base"));
}

#[test]
fn test_stack_review_mention_uri_rejects_invalid_one_based_line_ranges() {
    for suffix in ["line_start=0&line_end=1", "line_start=8&line_end=7"] {
        let uri = format!(
            "zed:///agent/stack-review?storage_key=base-head&project=project-a&base=base&head=head&side=RIGHT&path=src%2Freview.rs&{suffix}"
        );

        assert!(parse(&uri, PathStyle::Unix).is_err());
    }
}

#[test]
fn test_stack_review_mention_uri_rejects_absolute_path() {
    let uri = "zed:///agent/stack-review?storage_key=base-head&project=project-a&base=base&head=head&side=RIGHT&path=%2Ftmp%2Flive.rs";

    let error = parse(uri, PathStyle::Unix).unwrap_err();
    assert!(
        error
            .message()
            .contains("Stack Review path must be relative")
    );
}

#[test]
fn test_stack_review_mention_side_displays_canonical_value() {
    assert_eq!(StackReviewMentionSide::Left.to_string(), "LEFT");
    assert_eq!(StackReviewMentionSide::Right.to_string(), "RIGHT");
    assert_eq!(StackReviewMentionSide::TopLevel.to_string(), "TOP_LEVEL");
}

#[test]
fn test_stack_review_top_level_mention_rejects_file_anchor() {
    let uri = "zed:///agent/stack-review?storage_key=base-head&project=project-a&base=base&head=head&side=TOP_LEVEL&path=src%2Freview.rs&line_start=1&line_end=2";

    let error = parse(uri, PathStyle::Unix).unwrap_err();
    assert!(
        error
            .message()
            .contains("top-level Stack Review mention cannot have a file anchor")
    );
}

#[test]
fn test_stack_review_mention_rejects_range_without_path() {
    let uri = "zed:///agent/stack-review?storage_key=base-head&project=project-a&base=base&head=head&side=RIGHT&line_start=1&line_end=2";

    let error = parse(uri, PathStyle::Unix).unwrap_err();
    assert!(
        error
            .message()
            .contains("Stack Review line range requires a path")
    );
}

#[test]
fn test_stack_review_mention_rejects_non_canonical_relative_paths() {
    for path in [
        "",
        "src%2F.%2Freview.rs",
        "src%2F..%2Freview.rs",
        "src%5Creview.rs",
    ] {
        let uri = format!(
            "zed:///agent/stack-review?storage_key=base-head&project=project-a&base=base&head=head&side=RIGHT&path={path}"
        );

        assert!(
            parse(&uri, PathStyle::Unix).is_err(),
            "accepted non-canonical path {path:?}"
        );
    }
}

#[test]
fn test_stack_review_mention_rejects_empty_comment_record_ids() {
    for parameter in ["selected", "root"] {
        let uri = format!(
            "zed:///agent/stack-review?storage_key=base-head&project=project-a&base=base&head=head&side=TOP_LEVEL&{parameter}="
        );

        assert!(parse(&uri, PathStyle::Unix).is_err());
    }
}

#[test]
fn test_stack_review_mention_uri_rejects_unknown_query_parameter() {
    let uri = "zed:///agent/stack-review?storage_key=base-head&project=project-a&base=base&head=head&side=RIGHT&live_path=src%2Freview.rs";

    let error = parse(uri, PathStyle::Unix).unwrap_err();
    assert!(
        error
            .message()
            .contains("unknown Stack Review query parameter")
    );
}

#[test]
fn test_stack_review_mention_uri_rejects_missing_required_parameters() {
    for uri in [
        "zed:///agent/stack-review?base=base&head=head&side=RIGHT",
        "zed:///agent/stack-review?storage_key=base-head&head=head&side=RIGHT",
        "zed:///agent/stack-review?storage_key=base-head&project=project-a&base=base&side=RIGHT",
        "zed:///agent/stack-review?storage_key=base-head&project=project-a&base=base&head=head",
        "zed:///agent/stack-review?storage_key=base-head&project=project-a&base=base&head=head&side=RIGHT&path=src%2Freview.rs&line_start=2",
    ] {
        assert!(
            parse(uri, PathStyle::Unix).is_err(),
            "accepted incomplete Stack Review URI {uri:?}"
        );
    }
}

#[test]
fn test_parse_skill_uri_round_trip() {
    let skill_uri = MentionUri::Skill {
        name: "rust-best-practices".to_string(),
        source: "my-personal-project".to_string(),
        skill_file_path: String::from("/path/to/skills/rust-best-practices/SKILL.md"),
    };

    let serialized = skill_uri.to_uri();
    let parsed = parse(&serialized, PathStyle::Unix).unwrap();

    assert_eq!(parsed, skill_uri);
}

#[test]
fn test_parse_fetch_http_uri() {
    let http_uri = "http://example.com/path?query=value#fragment";
    let parsed = parse(http_uri, PathStyle::Unix).unwrap();
    match &parsed {
        MentionUri::Fetch { url } => {
            assert_eq!(url.to_string(), http_uri);
        }
        _ => panic!("Expected Fetch variant"),
    }
    assert_eq!(parsed.to_uri(), http_uri);
}

#[test]
fn test_parse_fetch_https_uri() {
    let https_uri = "https://example.com/api/endpoint";
    let parsed = parse(https_uri, PathStyle::Unix).unwrap();
    match &parsed {
        MentionUri::Fetch { url } => {
            assert_eq!(url.to_string(), https_uri);
        }
        _ => panic!("Expected Fetch variant"),
    }
    assert_eq!(parsed.to_uri(), https_uri);
}

#[test]
fn test_parse_diagnostics_uri() {
    let uri = "zed:///agent/diagnostics?include_warnings=true";
    let parsed = parse(uri, PathStyle::Unix).unwrap();
    match &parsed {
        MentionUri::Diagnostics {
            include_errors,
            include_warnings,
        } => {
            assert!(include_errors);
            assert!(include_warnings);
        }
        _ => panic!("Expected Diagnostics variant"),
    }
    assert_eq!(parsed.to_uri(), uri);
}

#[test]
fn test_parse_diagnostics_uri_warnings_only() {
    let uri = "zed:///agent/diagnostics?include_warnings=true&include_errors=false";
    let parsed = parse(uri, PathStyle::Unix).unwrap();
    match &parsed {
        MentionUri::Diagnostics {
            include_errors,
            include_warnings,
        } => {
            assert!(!include_errors);
            assert!(include_warnings);
        }
        _ => panic!("Expected Diagnostics variant"),
    }
    assert_eq!(parsed.to_uri(), uri);
}

#[test]
fn test_invalid_scheme() {
    assert!(parse("ftp://example.com", PathStyle::Unix).is_err());
    assert!(parse("ssh://example.com", PathStyle::Unix).is_err());
    assert!(parse("unknown://example.com", PathStyle::Unix).is_err());
}

#[test]
fn test_invalid_zed_path() {
    assert!(parse("zed:///invalid/path", PathStyle::Unix).is_err());
    assert!(parse("zed:///agent/unknown/test", PathStyle::Unix).is_err());
}

#[test]
fn test_parse_absolute_file_path() {
    let file_path = "/path/to/file.rs";
    let parsed = parse(file_path, PathStyle::Unix).unwrap();
    match &parsed {
        MentionUri::File { abs_path } => {
            assert_eq!(abs_path, file_path);
        }
        _ => panic!("Expected File variant"),
    }
}

#[test]
fn test_parse_absolute_file_path_with_row() {
    let file_path = "/path/to/file.rs:42";
    let parsed = parse(file_path, PathStyle::Unix).unwrap();
    match &parsed {
        MentionUri::Selection {
            abs_path: path,
            line_range,
            ..
        } => {
            assert_eq!(path.as_deref().unwrap(), "/path/to/file.rs");
            assert_eq!(line_range.start, 41);
            assert_eq!(line_range.end, 41);
        }
        _ => panic!("Expected Selection variant"),
    }
}

#[test]
fn test_parse_absolute_file_path_with_row_and_column() {
    let file_path = "/path/to/file.rs:42:5";
    let parsed = parse(file_path, PathStyle::Unix).unwrap();
    match &parsed {
        MentionUri::Selection {
            abs_path: path,
            line_range,
            column,
        } => {
            assert_eq!(path.as_deref().unwrap(), "/path/to/file.rs");
            assert_eq!(line_range.start, 41);
            assert_eq!(line_range.end, 41);
            assert_eq!(column, &Some(4));

            let parsed_again = parse(parsed.to_uri().as_str(), PathStyle::Unix)
                .expect("selection URI with column should parse");
            assert_eq!(parsed_again, parsed.clone());
        }
        _ => panic!("Expected Selection variant"),
    }
}

#[test]
fn test_parse_absolute_file_path_with_fragment_line() {
    let file_path = "/path/to/file.rs#L42";
    let parsed = parse(file_path, PathStyle::Unix).unwrap();
    match &parsed {
        MentionUri::Selection {
            abs_path: path,
            line_range,
            ..
        } => {
            assert_eq!(path.as_deref().unwrap(), "/path/to/file.rs");
            assert_eq!(line_range.start, 41);
            assert_eq!(line_range.end, 41);
        }
        _ => panic!("Expected Selection variant"),
    }
}

#[test]
fn test_parse_absolute_windows_path() {
    let file_path = "C:\\Users\\zed\\project\\main.rs";
    let parsed = parse(file_path, PathStyle::Windows).unwrap();
    match &parsed {
        MentionUri::File { abs_path } => {
            assert_eq!(abs_path, "C:\\Users\\zed\\project\\main.rs");
        }
        _ => panic!("Expected File variant"),
    }
}

#[test]
fn test_parse_absolute_windows_file_path_with_row() {
    let file_path = "C:\\Users\\zed\\project\\main.rs:42";
    let parsed = parse(file_path, PathStyle::Windows).unwrap();
    match &parsed {
        MentionUri::Selection {
            abs_path: path,
            line_range,
            ..
        } => {
            assert_eq!(
                path.as_deref().unwrap(),
                "C:\\Users\\zed\\project\\main.rs"
            );
            assert_eq!(line_range.start, 41);
            assert_eq!(line_range.end, 41);
        }
        _ => panic!("Expected Selection variant"),
    }
}

#[test]
fn test_parse_absolute_windows_file_path_with_fragment_line() {
    let file_path = "C:\\Users\\zed\\project\\main.rs#L42";
    let parsed = parse(file_path, PathStyle::Windows).unwrap();
    match &parsed {
        MentionUri::Selection {
            abs_path: path,
            line_range,
            ..
        } => {
            assert_eq!(
                path.as_deref().unwrap(),
                "C:\\Users\\zed\\project\\main.rs"
            );
            assert_eq!(line_range.start, 41);
            assert_eq!(line_range.end, 41);
        }
        _ => panic!("Expected Selection variant"),
    }
}

#[test]
fn test_parse_backticked_absolute_file_path() {
    let file_path = "`/path/to/file.rs`";
    let parsed = parse(file_path, PathStyle::Unix).unwrap();
    match &parsed {
        MentionUri::File { abs_path } => {
            assert_eq!(abs_path, "/path/to/file.rs");
        }
        _ => panic!("Expected File variant"),
    }
}

#[test]
fn test_parse_backticked_absolute_file_path_with_fragment_line() {
    let file_path = "`/path/to/file.rs#L42`";
    let parsed = parse(file_path, PathStyle::Unix).unwrap();
    match &parsed {
        MentionUri::Selection {
            abs_path: path,
            line_range,
            ..
        } => {
            assert_eq!(path.as_deref().unwrap(), "/path/to/file.rs");
            assert_eq!(line_range.start, 41);
            assert_eq!(line_range.end, 41);
        }
        _ => panic!("Expected Selection variant"),
    }
}

#[test]
fn test_parse_backticked_absolute_windows_file_path_with_fragment_line() {
    let file_path = "`C:\\Users\\zed\\project\\main.rs#L42`";
    let parsed = parse(file_path, PathStyle::Windows).unwrap();
    match &parsed {
        MentionUri::Selection {
            abs_path: path,
            line_range,
            ..
        } => {
            assert_eq!(
                path.as_deref().unwrap(),
                "C:\\Users\\zed\\project\\main.rs"
            );
            assert_eq!(line_range.start, 41);
            assert_eq!(line_range.end, 41);
        }
        _ => panic!("Expected Selection variant"),
    }
}

#[test]
fn test_single_line_number() {
    // https://github.com/zed-industries/zed/issues/46114
    let uri = "file:///path/to/file.rs#L1872";
    let parsed = parse(uri, PathStyle::Unix).unwrap();
    match &parsed {
        MentionUri::Selection {
            abs_path: path,
            line_range,
            ..
        } => {
            assert_eq!(path.as_deref().unwrap(), "/path/to/file.rs");
            assert_eq!(line_range.start, 1871);
            assert_eq!(line_range.end, 1871);
        }
        _ => panic!("Expected Selection variant"),
    }
}

#[test]
fn test_dash_separated_line_range() {
    let uri = "file:///path/to/file.rs#L10-20";
    let parsed = parse(uri, PathStyle::Unix).unwrap();
    match &parsed {
        MentionUri::Selection {
            abs_path: path,
            line_range,
            ..
        } => {
            assert_eq!(path.as_deref().unwrap(), "/path/to/file.rs");
            assert_eq!(line_range.start, 9);
            assert_eq!(line_range.end, 19);
        }
        _ => panic!("Expected Selection variant"),
    }

    // Also test L10-L20 format
    let uri = "file:///path/to/file.rs#L10-L20";
    let parsed = parse(uri, PathStyle::Unix).unwrap();
    match &parsed {
        MentionUri::Selection {
            abs_path: path,
            line_range,
            ..
        } => {
            assert_eq!(path.as_deref().unwrap(), "/path/to/file.rs");
            assert_eq!(line_range.start, 9);
            assert_eq!(line_range.end, 19);
        }
        _ => panic!("Expected Selection variant"),
    }
}

#[test]
fn test_parse_terminal_selection_uri() {
    let terminal_uri = "zed:///agent/terminal-selection?lines=42";
    let parsed = parse(terminal_uri, PathStyle::Unix).unwrap();
    match &parsed {
        MentionUri::TerminalSelection { line_count } => {
            assert_eq!(*line_count, 42);
        }
        _ => panic!("Expected TerminalSelection variant"),
    }
    assert_eq!(parsed.to_uri(), terminal_uri);
    assert_eq!(parsed.name(), "Terminal (42 lines)");

    // Test single line
    let single_line_uri = "zed:///agent/terminal-selection?lines=1";
    let parsed_single = parse(single_line_uri, PathStyle::Unix).unwrap();
    assert_eq!(parsed_single.name(), "Terminal (1 line)");
}

#[test]
fn test_disambiguated_name() {
    // Two files with the same name — should disambiguate with parent dir
    let file_a = MentionUri::File {
        abs_path: String::from("/project/src/README.md"),
    };
    let file_b = MentionUri::File {
        abs_path: String::from("/project/docs/README.md"),
    };
    assert_eq!(file_a.name(), "README.md");
    assert_eq!(file_b.name(), "README.md");
    assert_eq!(file_a.disambiguated_name(0), "README.md");
    assert_eq!(file_a.disambiguated_name(1), "src/README.md");
    assert_eq!(file_b.disambiguated_name(1), "docs/README.md");

    // Files that still collide at one parent should grow further.
    let deep_a = MentionUri::File {
        abs_path: String::from("/a/src/foo.rs"),
    };
    let deep_b = MentionUri::File {
        abs_path: String::from("/b/src/foo.rs"),
    };
    assert_eq!(deep_a.disambiguated_name(1), "src/foo.rs");
    assert_eq!(deep_b.disambiguated_name(1), "src/foo.rs");
    assert_eq!(deep_a.disambiguated_name(2), "a/src/foo.rs");
    assert_eq!(deep_b.disambiguated_name(2), "b/src/foo.rs");

    // Two skills with the same name — should disambiguate with source
    let global_skill = MentionUri::Skill {
        name: "create-skill".into(),
        source: "".into(),
        skill_file_path: String::from("/global/create-skill/SKILL.md"),
    };
    let project_skill = MentionUri::Skill {
        name: "create-skill".into(),
        source: "my-project".into(),
        skill_file_path: String::from("/project/create-skill/SKILL.md"),
    };
    assert_eq!(global_skill.name(), "create-skill");
    assert_eq!(global_skill.disambiguated_name(0), "create-skill");
    assert_eq!(global_skill.disambiguated_name(1), "create-skill (global)");
    assert_eq!(
        project_skill.disambiguated_name(1),
        "create-skill (my-project)"
    );

    // A type without special disambiguation (Thread) — detail has no effect
    // (the value is a fixed point so the disambiguation loop terminates).
    let thread = MentionUri::Thread {
        id: "123".into(),
        name: "My Thread".into(),
    };
    assert_eq!(thread.disambiguated_name(0), "My Thread");
    assert_eq!(thread.disambiguated_name(1), "My Thread");
    assert_eq!(thread.disambiguated_name(5), "My Thread");

    // Edge case: file at filesystem root has no parent to show
    let root_file = MentionUri::File {
        abs_path: String::from("/README.md"),
    };
    assert_eq!(root_file.disambiguated_name(1), "README.md");
    assert_eq!(root_file.disambiguated_name(5), "README.md");
}

fn rejection(input: &str) -> String {
    parse(input, PathStyle::Unix)
        .expect_err("nothing is mentioned")
        .message()
}

#[test]
fn every_error_of_a_review_mention_is_told() {
    let start = "zed:///agent/stack-review?storage_key=k&project=p&base=b&head=h";
    for (rest, message) in [
        ("&side=RIGHT#L1", "Stack Review mention URI must not have a fragment"),
        (
            "&side=RIGHT&other=1",
            "unknown Stack Review query parameter \"other\"",
        ),
        (
            "&side=RIGHT&side=LEFT",
            "duplicate Stack Review side query parameter",
        ),
        (
            "&side=RIGHT&path=%2Fa",
            "Stack Review path must be relative and slash-normalized",
        ),
        (
            "&side=RIGHT&selected=&root=r",
            "Stack Review selected record ID must not be empty",
        ),
        (
            "&side=RIGHT&selected=s&root=",
            "Stack Review root record ID must not be empty",
        ),
        (
            "&side=RIGHT&selected=s",
            "Stack Review selected and root record IDs must be provided together",
        ),
        (
            "&side=RIGHT&path=a&line_start=x&line_end=2",
            "invalid digit found in string",
        ),
        (
            "&side=RIGHT&path=a&line_start=0&line_end=2",
            "Stack Review line range must be 1-based",
        ),
        (
            "&side=RIGHT&path=a&line_start=3&line_end=2",
            "Stack Review line range start must not exceed its end",
        ),
        (
            "&side=RIGHT&path=a&line_start=3",
            "Stack Review line range requires both line_start and line_end",
        ),
        ("", "missing Stack Review side"),
        ("&side=right", "invalid Stack Review side"),
        (
            "&side=RIGHT&line_start=1&line_end=2",
            "Stack Review line range requires a path",
        ),
        (
            "&side=TOP_LEVEL&path=a",
            "top-level Stack Review mention cannot have a file anchor",
        ),
    ] {
        assert_eq!(rejection(&format!("{start}{rest}")), message, "{rest}");
    }
    for (query, message) in [
        ("project=p&base=b&head=h&side=LEFT", "missing Stack Review storage_key"),
        (
            "storage_key=k&base=b&head=h&side=LEFT",
            "missing Stack Review project identity",
        ),
        (
            "storage_key=k&project=p&head=h&side=LEFT",
            "missing Stack Review base",
        ),
        (
            "storage_key=k&project=p&base=b&side=LEFT",
            "missing Stack Review head",
        ),
        (
            "project=p&storage_key=k&base=b&head=h&side=LEFT",
            "Stack Review mention URI is not canonical",
        ),
    ] {
        let uri = format!("zed:///agent/stack-review?{query}");
        assert_eq!(rejection(&uri), message, "{query}");
    }
}

#[test]
fn every_error_of_other_mentions_is_told() {
    for (input, message) in [
        ("no url", "relative URL without a base"),
        ("file:///a.rs?name=x#L1", "invalid query parameter"),
        ("zed:///agent/thread/1?name=a&b=c", "too many query pairs"),
        ("zed:///agent/untitled-buffer#Lx:2", "Parsing line range start"),
        ("zed:///agent/untitled-buffer#L1:x", "Parsing line range end"),
        ("zed:///agent/untitled-buffer#L0:1", "Line numbers should be 1-based"),
        ("zed:///agent/thread/1", "Missing thread name"),
        ("zed:///agent/rule/1", "Missing rule name"),
        (
            "zed:///agent/untitled-buffer",
            "Missing fragment for untitled buffer selection",
        ),
        ("zed:///agent/selection?path=a", "Missing fragment for selection"),
        ("zed:///agent/symbol/x#L1:2", "Missing path for symbol"),
        ("zed:///agent/file", "Missing path for file"),
        ("zed:///agent/directory", "Missing path for directory"),
        ("zed:///agent/selection#L1:2", "Missing path for selection"),
        (
            "zed:///agent/skill?name=a&name=b",
            "duplicate skill name query parameter",
        ),
        (
            "zed:///agent/skill?source=a&source=b",
            "duplicate skill source query parameter",
        ),
        (
            "zed:///agent/skill?path=a&path=b",
            "duplicate skill file path query parameter",
        ),
        ("zed:///agent/skill", "missing skill name"),
        ("zed:///agent/skill?name=a", "missing skill source"),
        ("zed:///agent/skill?name=a&source=b", "missing skill file path"),
        ("zed:///nowhere", "invalid zed url: \"zed:///nowhere\""),
        ("ftp://example.com", "unrecognized scheme \"ftp\""),
    ] {
        assert_eq!(rejection(input), message, "{input}");
    }
}

#[test]
fn mentions_are_told_by_names_icons_and_links() {
    let selection = MentionUri::Selection {
        abs_path: Some("/src/a.rs".into()),
        line_range: LineRange { start: 4, end: 8 },
        column: None,
    };
    assert_eq!(selection.name(), "a.rs (5:9)");
    assert_eq!(selection.abs_path(), Some("/src/a.rs"));
    assert_eq!(selection.icon_path(), MentionIcon::Reader);
    assert_eq!(
        selection.as_link().to_string(),
        format!("[@a.rs (5:9)]({})", selection.to_uri())
    );
    assert_eq!(
        selection_name(None, &LineRange { start: 0, end: 0 }),
        "Untitled (1:1)"
    );
    assert_eq!(line_range_suffix(&LineRange { start: 4, end: 4 }), ":5");
    assert_eq!(line_range_suffix(&LineRange { start: 4, end: 8 }), ":5-9");

    let rule = MentionUri::Rule {
        id: RuleId::User("d8694ff2-90d5-4b6f-be33-33c1763acd52".into()),
        name: "Some rule".into(),
    };
    assert_eq!(rule.name(), "Some rule");
    assert_eq!(rule.abs_path(), None);
    assert_eq!(rule.icon_path(), MentionIcon::Reader);
    assert_eq!(
        MentionUri::GitDiff { base_ref: "main".into() }.icon_path(),
        MentionIcon::GitBranch
    );
}

#[test]
fn a_review_mention_that_is_read_is_written_the_same() {
    for uri in [
        "zed:///agent/stack-review?storage_key=k&project=p&base=b&head=h&side=TOP_LEVEL",
        "zed:///agent/stack-review?storage_key=k&project=p&base=b&head=h&side=LEFT&path=a%2Fb.rs",
        "zed:///agent/stack-review?storage_key=k+k&project=%C3%A4&base=b&head=h&side=RIGHT&path=a&line_start=1&line_end=1&selected=s&root=r",
    ] {
        let mention = parse(uri, PathStyle::Unix).expect("a review mention");
        assert_eq!(mention.to_uri(), uri);
    }
}

#[test]
fn paths_are_read_by_their_style() {
    assert!(is_absolute("/a", PathStyle::Unix));
    assert!(!is_absolute("a", PathStyle::Unix));
    assert!(is_absolute("C:\\a", PathStyle::Windows));
    assert!(!is_absolute("C:\\a", PathStyle::Unix));
    assert_eq!(file_name("/a/b.rs"), Some("b.rs"));
    assert_eq!(file_name("/a/b/"), Some("b"));
    assert_eq!(file_name("/"), None);
    assert_eq!(path_suffix("/a/b/c.rs", 1), "b/c.rs");
    assert_eq!(decode_path_escapes("/a%20b"), Some("/a b".into()));
    assert_eq!(decode_path_escapes("/a%2Fb"), None);
    assert_eq!(decode_path_escapes("/a%FFb"), None);
    assert_eq!(
        to_native_windows_path("/c/dir/a.rs"),
        Some("C:\\dir\\a.rs".into())
    );
    assert_eq!(to_native_windows_path("C:\\dir"), None);
}

#[test]
fn the_id_of_a_users_rule_is_shown_whatever_stands_next_to_it() {
    let rule = |user_uuid: Option<&str>| MentionUri::Rule {
        id: RuleId::Other {
            json: "{}".into(),
            user_uuid: user_uuid.map(str::to_owned),
        },
        name: "name".into(),
    };
    assert!(plan_fits(&rule(Some("abc")).uri_plan()));
    assert_eq!(
        rule(Some("abc")).to_uri(),
        "zed:///agent/rule/abc?name=name"
    );
    assert_eq!(
        rule(None).to_uri(),
        "zed:///agent/rule/?name=name"
    );
}

#[test]
fn outside_errors_are_told_in_their_own_words() {
    let told = |input: &str| {
        MentionUri::parse(input, PathStyle::Unix, &position_of(input))
            .expect_err("no mention")
            .message()
    };
    assert_eq!(told("nothing"), "relative URL without a base");
    assert_eq!(told("http://"), "empty host");
    let review = |start: &str, end: &str| {
        told(&format!(
            "zed:///agent/stack-review?storage_key=k&project=p&base=b&head=h&side=RIGHT&path=a.rs&line_start={start}&line_end={end}"
        ))
    };
    assert_eq!(review("x", "2"), "invalid digit found in string");
    assert_eq!(review("1", ""), "cannot parse integer from empty string");
    assert_eq!(review("1", "4294967296"), "number too large to fit in target type");
}

#[test]
fn directories_and_windows_paths_come_back_from_their_urls() {
    let read = |mention: &MentionUri, style: PathStyle| {
        let uri = mention.to_uri();
        MentionUri::parse(&uri, style, &position_of(&uri)).expect("a mention")
    };
    let directory = |abs_path: &str| MentionUri::Directory { abs_path: abs_path.into() };
    assert_eq!(read(&directory("/a/b c"), PathStyle::Unix), directory("/a/b c/"));
    assert_eq!(read(&directory("C:\\a"), PathStyle::Windows), directory("C:\\a\\"));
    let file = |abs_path: &str| MentionUri::File { abs_path: abs_path.into() };
    for path in ["C:\\dir\\file.rs", "D:\\a b\\\u{e4}#?{}.rs", "C:\\x"] {
        assert_eq!(read(&file(path), PathStyle::Windows), file(path));
    }
    assert_eq!(read(&file("c:/dir\\f.rs"), PathStyle::Windows), file("C:\\dir\\f.rs"));
    let selection = |abs_path: &str| MentionUri::Selection {
        abs_path: Some(abs_path.into()),
        line_range: LineRange { start: 3, end: 5 },
        column: Some(7),
    };
    assert_eq!(
        read(&selection("C:\\dir\\f.rs"), PathStyle::Windows),
        selection("C:\\dir\\f.rs")
    );
    let symbol = MentionUri::Symbol {
        abs_path: "C:\\dir\\f.rs".into(),
        name: "a b".into(),
        line_range: LineRange { start: 0, end: 0 },
    };
    assert_eq!(read(&symbol, PathStyle::Windows), symbol);
}
