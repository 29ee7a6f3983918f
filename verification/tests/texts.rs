use stack_review::decimal::{parse_u32, push_decimal};
use stack_review::debug_selector::{
    stack_review_comment_debug_identity, stack_review_comment_instance_debug_selector,
    stack_review_debug_selector,
};
use stack_review::json_text::{push_json_string, read_json_string};
use stack_review::text::{
    contains_text, ends_with_text, find_char, find_last_char, find_text, rsplit_once_char,
    split_once_char, starts_with_text, strip_prefix_text, strip_suffix_text, text_not_after,
};
use stack_review::trim::{trim_text, white_space};

#[test]
fn white_space_is_that_of_the_standard_library() {
    for code in 0..=0x10ffff_u32 {
        if let Some(c) = char::from_u32(code) {
            assert_eq!(white_space(c), c.is_whitespace(), "{code:x}");
        }
    }
}

#[test]
fn texts_are_trimmed_searched_and_split_as_by_the_standard_library() {
    for text in ["", " ", "a", " a b ", "\u{a0}x\u{2003}", "äöü/ß", "a/b/c", "/", "//"] {
        assert_eq!(trim_text(text), text.trim());
        assert_eq!(split_once_char(text, '/'), text.split_once('/'));
        assert_eq!(rsplit_once_char(text, '/'), text.rsplit_once('/'));
        for other in ["", "a", "/", "b/", "ö", "a/b/c"] {
            assert_eq!(contains_text(text, other), text.contains(other));
            assert_eq!(starts_with_text(text, other), text.starts_with(other));
            assert_eq!(ends_with_text(text, other), text.ends_with(other));
            assert_eq!(strip_prefix_text(text, other), text.strip_prefix(other));
            assert_eq!(strip_suffix_text(text, other), text.strip_suffix(other));
            assert_eq!(text_not_after(text, other), text <= other);
            assert_eq!(find_text(text, other).is_some(), text.find(other).is_some());
        }
    }
    assert_eq!(find_char("äb/c/", '/'), Some(2));
    assert_eq!(find_last_char("äb/c/", '/'), Some(4));
    assert_eq!(find_char("äb", '/'), None);
}

#[test]
fn numbers_are_written_and_read_in_decimals() {
    for number in [0_u64, 7, 10, 4294967295, u64::MAX] {
        let mut text = String::from("n");
        push_decimal(&mut text, number);
        assert_eq!(text, format!("n{number}"));
    }
    for text in ["", "0", "007", "+5", "-5", "4294967295", "4294967296", "1 ", "1a", "+"] {
        assert_eq!(parse_u32(text), text.parse::<u32>().ok(), "{text:?}");
    }
}

#[test]
fn json_strings_are_those_of_the_outside_crate() {
    let mut all = String::new();
    for code in 0..0x500_u32 {
        if let Some(c) = char::from_u32(code) {
            all.push(c);
        }
    }
    all.push_str("\u{2028}\u{2029}\u{fffd}\u{1f600}");
    for text in ["", "plain", "a\"b\\c/d", all.as_str()] {
        let mut written = String::new();
        push_json_string(&mut written, text);
        assert_eq!(written, serde_json::to_string(text).unwrap());
        let chars = written.chars().collect::<Vec<_>>();
        assert_eq!(
            read_json_string(&chars, 0),
            Some((text.to_owned(), chars.len()))
        );
    }
}

#[test]
fn selectors_are_uuids_of_their_identities() {
    let mut material = Vec::new();
    for identity in ["stable:ä", "occurrence:3"] {
        material.extend_from_slice(&(identity.len() as u64).to_le_bytes());
        material.extend_from_slice(identity.as_bytes());
    }
    let uuid = uuid::Uuid::new_v5(&uuid::Uuid::NAMESPACE_OID, &material);
    assert_eq!(
        stack_review_debug_selector("PREFIX", &["stable:ä", "occurrence:3"]),
        format!("PREFIX-{uuid}")
    );
    assert_eq!(
        stack_review_comment_instance_debug_selector("PREFIX", Some("ä"), 9, 3),
        format!("PREFIX-{uuid}")
    );
    assert_eq!(stack_review_comment_debug_identity(None, 9), "legacy:9");
    assert_eq!(
        stack_review_comment_debug_identity(Some("r"), 9),
        "stable:r"
    );
}

#[test]
fn selectors_of_different_identities_differ() {
    let lists: [&[&str]; 5] = [&[], &[""], &["ab"], &["a", "b"], &["", "ab"]];
    for (i, list) in lists.iter().enumerate() {
        for other in &lists[i + 1..] {
            assert_ne!(
                stack_review_debug_selector("P", list),
                stack_review_debug_selector("P", other)
            );
        }
    }
}
