//! What identifies a thread of comments, and the text that stands for it in files.

use crate::comment::{copied_text, StackReviewCommentRecord, StackReviewCommentSide};
use crate::json_text::{
    json_string, lemma_json_string_unique, push_json_string, read_json_string,
};
use crate::text::{chars_of, code_point, occurs_at, occurs_here, opt_string_view, same_text};
use crate::trim::{trim_text, trimmed};
use crate::thread_key_json::key_in;
use vstd::prelude::*;
use vstd::string::*;

verus! {

/// Whether `c` is an ASCII letter or digit.
pub open spec fn is_ascii_alphanumeric(c: char) -> bool {
    let code = c as int;
    0x30 <= code <= 0x39 || 0x41 <= code <= 0x5A || 0x61 <= code <= 0x7A
}

/// `s` with an underscore for every character but ASCII letters and digits.
pub open spec fn underscored(s: Seq<char>) -> Seq<char> {
    s.map_values(
        |c: char|
            if is_ascii_alphanumeric(c) {
                c
            } else {
                '_'
            },
    )
}

/// The name under which a snapshot's data is kept.
pub open spec fn storage_key_text(base_oid: Seq<char>, head_oid: Seq<char>) -> Seq<char> {
    underscored(base_oid + "-"@ + head_oid)
}

/// The name under which the data of the snapshot between two commits is kept.
pub fn stack_review_storage_key(base_oid: &str, head_oid: &str) -> (key: String)
    ensures
        key@ == storage_key_text(base_oid@, head_oid@),
{
    let joined = base_oid.to_owned().concat("-").concat(head_oid);
    let chars = chars_of(joined.as_str());
    let mut key = String::new();
    let mut i: usize = 0;
    while i < chars.len()
        invariant
            chars@ == base_oid@ + "-"@ + head_oid@,
            i <= chars@.len(),
            key@ == underscored(chars@.take(i as int)),
        decreases chars.len() - i,
    {
        let code: u32 = code_point(chars[i]);
        if (0x30 <= code && code <= 0x39) || (0x41 <= code && code <= 0x5A) || (0x61 <= code && code
            <= 0x7A) {
            key.push(chars[i]);
        } else {
            key.push('_');
        }
        assert(key@ =~= underscored(chars@.take(i + 1)));
        i += 1;
    }
    assert(chars@.take(i as int) =~= chars@);
    key
}

/// Whether a comment belongs to a line or to the review as a whole.
#[derive(Clone, Copy, Debug, PartialEq, Eq, PartialOrd, Ord, Hash, Structural)]
pub enum StackReviewCommentClass {
    Inline,
    TopLevel,
}

/// What all comments of one thread have in common.
#[derive(Clone, Debug, PartialEq, Eq, PartialOrd, Ord, Hash)]
pub struct CommentThreadPartition {
    pub storage_key: String,
    pub base_oid: String,
    pub head_oid: String,
    pub path: Option<String>,
    pub side: StackReviewCommentSide,
    pub class: StackReviewCommentClass,
}

/// A thread of comments within its partition.
#[derive(Clone, Debug, PartialEq, Eq, PartialOrd, Ord, Hash)]
pub enum CommentThreadKey {
    /// A comment that replies to nothing, with what replies to it.
    Normal { partition: CommentThreadPartition, root_record_id: String },
    /// Replies to a comment that is not there.
    MissingParent { partition: CommentThreadPartition, missing_parent_id: String },
    /// Replies to a comment of another partition.
    BoundaryViolation { partition: CommentThreadPartition, foreign_parent_id: String },
    /// Comments that reply to each other in a circle.
    Cycle { partition: CommentThreadPartition, canonical_member_id: String },
}

/// A partition as plain values.
#[verifier::ext_equal]
pub struct PartitionView {
    pub storage_key: Seq<char>,
    pub base_oid: Seq<char>,
    pub head_oid: Seq<char>,
    pub path: Option<Seq<char>>,
    pub side: StackReviewCommentSide,
    pub class: StackReviewCommentClass,
}

/// The four kinds of threads.
pub enum ThreadKind {
    Normal,
    MissingParent,
    BoundaryViolation,
    Cycle,
}

/// A thread key as plain values: its kind, its partition and the record id that tells it from the
/// others of its kind there.
#[verifier::ext_equal]
pub struct ThreadKeyView {
    pub kind: ThreadKind,
    pub partition: PartitionView,
    pub id: Seq<char>,
}

impl View for CommentThreadPartition {
    type V = PartitionView;

    open spec fn view(&self) -> PartitionView {
        PartitionView {
            storage_key: self.storage_key@,
            base_oid: self.base_oid@,
            head_oid: self.head_oid@,
            path: opt_string_view(self.path),
            side: self.side,
            class: self.class,
        }
    }
}

impl View for CommentThreadKey {
    type V = ThreadKeyView;

    open spec fn view(&self) -> ThreadKeyView {
        match *self {
            CommentThreadKey::Normal { partition, root_record_id } => ThreadKeyView {
                kind: ThreadKind::Normal,
                partition: partition@,
                id: root_record_id@,
            },
            CommentThreadKey::MissingParent { partition, missing_parent_id } => ThreadKeyView {
                kind: ThreadKind::MissingParent,
                partition: partition@,
                id: missing_parent_id@,
            },
            CommentThreadKey::BoundaryViolation { partition, foreign_parent_id } => ThreadKeyView {
                kind: ThreadKind::BoundaryViolation,
                partition: partition@,
                id: foreign_parent_id@,
            },
            CommentThreadKey::Cycle { partition, canonical_member_id } => ThreadKeyView {
                kind: ThreadKind::Cycle,
                partition: partition@,
                id: canonical_member_id@,
            },
        }
    }
}

/// Whether two texts, each of which may be absent, are the same.
pub fn same_optional_text(a: &Option<String>, b: &Option<String>) -> (same: bool)
    ensures
        same == (opt_string_view(*a) == opt_string_view(*b)),
{
    match (a, b) {
        (Some(a), Some(b)) => same_text(a.as_str(), b.as_str()),
        (None, None) => true,
        _ => false,
    }
}

impl CommentThreadPartition {
    /// Whether both are the same partition.
    pub fn same(&self, other: &Self) -> (same: bool)
        ensures
            same == (self@ == other@),
    {
        same_text(self.storage_key.as_str(), other.storage_key.as_str()) && same_text(
            self.base_oid.as_str(),
            other.base_oid.as_str(),
        ) && same_text(self.head_oid.as_str(), other.head_oid.as_str()) && same_optional_text(
            &self.path,
            &other.path,
        ) && self.side == other.side && self.class == other.class
    }

    /// A copy of the partition.
    pub fn copied(&self) -> (copy: Self)
        ensures
            copy == *self,
    {
        CommentThreadPartition {
            storage_key: self.storage_key.clone(),
            base_oid: self.base_oid.clone(),
            head_oid: self.head_oid.clone(),
            path: copied_text(&self.path),
            side: self.side,
            class: self.class,
        }
    }
}

impl CommentThreadKey {
    /// Whether both keys stand for the same thread.
    pub fn same(&self, other: &Self) -> (same: bool)
        ensures
            same == (self@ == other@),
    {
        match (self, other) {
            (
                CommentThreadKey::Normal { partition: p, root_record_id: a },
                CommentThreadKey::Normal { partition: q, root_record_id: b },
            ) => p.same(q) && same_text(a.as_str(), b.as_str()),
            (
                CommentThreadKey::MissingParent { partition: p, missing_parent_id: a },
                CommentThreadKey::MissingParent { partition: q, missing_parent_id: b },
            ) => p.same(q) && same_text(a.as_str(), b.as_str()),
            (
                CommentThreadKey::BoundaryViolation { partition: p, foreign_parent_id: a },
                CommentThreadKey::BoundaryViolation { partition: q, foreign_parent_id: b },
            ) => p.same(q) && same_text(a.as_str(), b.as_str()),
            (
                CommentThreadKey::Cycle { partition: p, canonical_member_id: a },
                CommentThreadKey::Cycle { partition: q, canonical_member_id: b },
            ) => p.same(q) && same_text(a.as_str(), b.as_str()),
            _ => false,
        }
    }

    /// A copy of the key.
    pub fn copied(&self) -> (copy: Self)
        ensures
            copy == *self,
    {
        match self {
            CommentThreadKey::Normal { partition, root_record_id } => CommentThreadKey::Normal {
                partition: partition.copied(),
                root_record_id: root_record_id.clone(),
            },
            CommentThreadKey::MissingParent { partition, missing_parent_id } =>
                CommentThreadKey::MissingParent {
                partition: partition.copied(),
                missing_parent_id: missing_parent_id.clone(),
            },
            CommentThreadKey::BoundaryViolation { partition, foreign_parent_id } =>
                CommentThreadKey::BoundaryViolation {
                partition: partition.copied(),
                foreign_parent_id: foreign_parent_id.clone(),
            },
            CommentThreadKey::Cycle { partition, canonical_member_id } => CommentThreadKey::Cycle {
                partition: partition.copied(),
                canonical_member_id: canonical_member_id.clone(),
            },
        }
    }
}

/// The partition of a record among the data kept under `storage_key`.
pub open spec fn partition_of(
    storage_key: Seq<char>,
    record: StackReviewCommentRecord,
) -> PartitionView {
    PartitionView {
        storage_key,
        base_oid: record.base_oid@,
        head_oid: record.head_oid@,
        path: opt_string_view(record.path),
        side: record.side,
        class: if record.side == StackReviewCommentSide::TopLevel {
            StackReviewCommentClass::TopLevel
        } else {
            StackReviewCommentClass::Inline
        },
    }
}

/// The partition of a record among the data kept under `storage_key`.
pub fn comment_thread_partition(storage_key: &str, record: &StackReviewCommentRecord) -> (partition:
    CommentThreadPartition)
    ensures
        partition@ == partition_of(storage_key@, *record),
{
    CommentThreadPartition {
        storage_key: storage_key.to_owned(),
        base_oid: record.base_oid.clone(),
        head_oid: record.head_oid.clone(),
        path: copied_text(&record.path),
        side: record.side,
        class: if record.side == StackReviewCommentSide::TopLevel {
            StackReviewCommentClass::TopLevel
        } else {
            StackReviewCommentClass::Inline
        },
    }
}

/// The word for a kind of thread.
pub open spec fn kind_word(kind: ThreadKind) -> Seq<char> {
    match kind {
        ThreadKind::Normal => "normal"@,
        ThreadKind::MissingParent => "missingParent"@,
        ThreadKind::BoundaryViolation => "boundaryViolation"@,
        ThreadKind::Cycle => "cycle"@,
    }
}

/// The name of the field that holds the record id of a kind of thread.
pub open spec fn id_field(kind: ThreadKind) -> Seq<char> {
    match kind {
        ThreadKind::Normal => "root_record_id"@,
        ThreadKind::MissingParent => "missing_parent_id"@,
        ThreadKind::BoundaryViolation => "foreign_parent_id"@,
        ThreadKind::Cycle => "canonical_member_id"@,
    }
}

/// The word for a side.
pub open spec fn side_word(side: StackReviewCommentSide) -> Seq<char> {
    match side {
        StackReviewCommentSide::Left => "left"@,
        StackReviewCommentSide::Right => "right"@,
        StackReviewCommentSide::TopLevel => "topLevel"@,
    }
}

/// The word for a class.
pub open spec fn class_word(class: StackReviewCommentClass) -> Seq<char> {
    match class {
        StackReviewCommentClass::Inline => "inline"@,
        StackReviewCommentClass::TopLevel => "topLevel"@,
    }
}

/// A path as JSON writes it.
pub open spec fn path_json(path: Option<Seq<char>>) -> Seq<char> {
    match path {
        Some(path) => json_string(path),
        None => "null"@,
    }
}

/// The text that stands for a thread key: compact JSON with its fields in a fixed order.
pub open spec fn stable_text(key: ThreadKeyView) -> Seq<char> {
    "{\"kind\":"@ + json_string(kind_word(key.kind)) + ",\"partition\":{\"storageKey\":"@
        + json_string(key.partition.storage_key) + ",\"baseOid\":"@ + json_string(
        key.partition.base_oid,
    ) + ",\"headOid\":"@ + json_string(key.partition.head_oid) + ",\"path\":"@ + path_json(
        key.partition.path,
    ) + ",\"side\":"@ + json_string(side_word(key.partition.side)) + ",\"class\":"@ + json_string(
        class_word(key.partition.class),
    ) + "},"@ + json_string(id_field(key.kind)) + ":"@ + json_string(key.id) + "}"@
}

/// The parts of a key that its variants have in common, with the words for its kind and its field.
fn key_parts(key: &CommentThreadKey) -> (parts: (
    &'static str,
    &'static str,
    &CommentThreadPartition,
    &String,
))
    ensures
        parts.0@ == kind_word(key@.kind),
        parts.1@ == id_field(key@.kind),
        parts.2@ == key@.partition,
        parts.3@ == key@.id,
{
    match key {
        CommentThreadKey::Normal { partition, root_record_id } => (
            "normal",
            "root_record_id",
            partition,
            root_record_id,
        ),
        CommentThreadKey::MissingParent { partition, missing_parent_id } => (
            "missingParent",
            "missing_parent_id",
            partition,
            missing_parent_id,
        ),
        CommentThreadKey::BoundaryViolation { partition, foreign_parent_id } => (
            "boundaryViolation",
            "foreign_parent_id",
            partition,
            foreign_parent_id,
        ),
        CommentThreadKey::Cycle { partition, canonical_member_id } => (
            "cycle",
            "canonical_member_id",
            partition,
            canonical_member_id,
        ),
    }
}

/// The position behind `literal`, where it stands at `at`.
fn skip_literal(chars: &Vec<char>, at: usize, literal: &str) -> (next: Option<usize>)
    ensures
        match next {
            Some(next) => occurs_at(chars@, literal@, at as int) && next == at + literal@.len()
                && next <= chars@.len(),
            None => !occurs_at(chars@, literal@, at as int),
        },
{
    if at > chars.len() {
        return None;
    }
    let wanted = chars_of(literal);
    if occurs_here(chars, &wanted, at) {
        Some(at + wanted.len())
    } else {
        None
    }
}

proof fn lemma_part_occurs(text: Seq<char>, before: Seq<char>, part: Seq<char>)
    requires
        (before + part).is_prefix_of(text),
    ensures
        before.is_prefix_of(text),
        occurs_at(text, part, before.len() as int),
{
    let both = before + part;
    assert(text.subrange(0, both.len() as int) == both);
    assert(before =~= text.subrange(0, before.len() as int)) by {
        assert forall|i: int| 0 <= i < before.len() implies before[i] == text[i] by {
            assert(both[i] == text.subrange(0, both.len() as int)[i]);
        }
    }
    assert(text.subrange(before.len() as int, (before.len() + part.len()) as int) =~= part) by {
        assert forall|i: int| 0 <= i < part.len() implies part[i] == text[before.len() + i] by {
            assert(both[before.len() + i] == text.subrange(0, both.len() as int)[before.len() + i]);
        }
    }
}

/// Where each part of a key's text stands.
spec fn part_end(key: ThreadKeyView, part: int) -> Seq<char> {
    let p0 = "{\"kind\":"@;
    let p1 = p0 + json_string(kind_word(key.kind));
    let p2 = p1 + ",\"partition\":{\"storageKey\":"@;
    let p3 = p2 + json_string(key.partition.storage_key);
    let p4 = p3 + ",\"baseOid\":"@;
    let p5 = p4 + json_string(key.partition.base_oid);
    let p6 = p5 + ",\"headOid\":"@;
    let p7 = p6 + json_string(key.partition.head_oid);
    let p8 = p7 + ",\"path\":"@;
    let p9 = p8 + path_json(key.partition.path);
    let p10 = p9 + ",\"side\":"@;
    let p11 = p10 + json_string(side_word(key.partition.side));
    let p12 = p11 + ",\"class\":"@;
    let p13 = p12 + json_string(class_word(key.partition.class));
    let p14 = p13 + "},"@;
    let p15 = p14 + json_string(id_field(key.kind));
    let p16 = p15 + ":"@;
    let p17 = p16 + json_string(key.id);
    if part == 0 { p0 } else if part == 1 { p1 } else if part == 2 { p2 } else if part == 3 { p3 }
    else if part == 4 { p4 } else if part == 5 { p5 } else if part == 6 { p6 } else if part == 7 {
        p7
    } else if part == 8 { p8 } else if part == 9 { p9 } else if part == 10 { p10 } else if part
        == 11 { p11 } else if part == 12 { p12 } else if part == 13 { p13 } else if part == 14 {
        p14
    } else if part == 15 { p15 } else if part == 16 { p16 } else { p17 }
}

/// Where the parts of a key's text stand in it.
spec fn parts_stand(key: ThreadKeyView, text: Seq<char>) -> bool {
    &&& occurs_at(text, "{\"kind\":"@, 0)
    &&& occurs_at(text, json_string(kind_word(key.kind)), part_end(key, 0).len() as int)
    &&& occurs_at(text, ",\"partition\":{\"storageKey\":"@, part_end(key, 1).len() as int)
    &&& occurs_at(text, json_string(key.partition.storage_key), part_end(key, 2).len() as int)
    &&& occurs_at(text, ",\"baseOid\":"@, part_end(key, 3).len() as int)
    &&& occurs_at(text, json_string(key.partition.base_oid), part_end(key, 4).len() as int)
    &&& occurs_at(text, ",\"headOid\":"@, part_end(key, 5).len() as int)
    &&& occurs_at(text, json_string(key.partition.head_oid), part_end(key, 6).len() as int)
    &&& occurs_at(text, ",\"path\":"@, part_end(key, 7).len() as int)
    &&& occurs_at(text, path_json(key.partition.path), part_end(key, 8).len() as int)
    &&& occurs_at(text, ",\"side\":"@, part_end(key, 9).len() as int)
    &&& occurs_at(text, json_string(side_word(key.partition.side)), part_end(key, 10).len() as int)
    &&& occurs_at(text, ",\"class\":"@, part_end(key, 11).len() as int)
    &&& occurs_at(
        text,
        json_string(class_word(key.partition.class)),
        part_end(key, 12).len() as int,
    )
    &&& occurs_at(text, "},"@, part_end(key, 13).len() as int)
    &&& occurs_at(text, json_string(id_field(key.kind)), part_end(key, 14).len() as int)
    &&& occurs_at(text, ":"@, part_end(key, 15).len() as int)
    &&& occurs_at(text, json_string(key.id), part_end(key, 16).len() as int)
}

proof fn lemma_parts_stand(key: ThreadKeyView)
    ensures
        parts_stand(key, stable_text(key)),
{
    let text = stable_text(key);
    assert(text =~= part_end(key, 17) + "}"@);
    assert(text.subrange(0, text.len() as int) =~= text);
    lemma_part_occurs(text, part_end(key, 17), "}"@);
    lemma_part_occurs(text, part_end(key, 16), json_string(key.id));
    lemma_part_occurs(text, part_end(key, 15), ":"@);
    lemma_part_occurs(text, part_end(key, 14), json_string(id_field(key.kind)));
    lemma_part_occurs(text, part_end(key, 13), "},"@);
    lemma_part_occurs(text, part_end(key, 12), json_string(class_word(key.partition.class)));
    lemma_part_occurs(text, part_end(key, 11), ",\"class\":"@);
    lemma_part_occurs(text, part_end(key, 10), json_string(side_word(key.partition.side)));
    lemma_part_occurs(text, part_end(key, 9), ",\"side\":"@);
    lemma_part_occurs(text, part_end(key, 8), path_json(key.partition.path));
    lemma_part_occurs(text, part_end(key, 7), ",\"path\":"@);
    lemma_part_occurs(text, part_end(key, 6), json_string(key.partition.head_oid));
    lemma_part_occurs(text, part_end(key, 5), ",\"headOid\":"@);
    lemma_part_occurs(text, part_end(key, 4), json_string(key.partition.base_oid));
    lemma_part_occurs(text, part_end(key, 3), ",\"baseOid\":"@);
    lemma_part_occurs(text, part_end(key, 2), json_string(key.partition.storage_key));
    lemma_part_occurs(text, part_end(key, 1), ",\"partition\":{\"storageKey\":"@);
    lemma_part_occurs(text, part_end(key, 0), json_string(kind_word(key.kind)));
    assert(Seq::<char>::empty() + "{\"kind\":"@ =~= part_end(key, 0));
    lemma_part_occurs(text, Seq::empty(), "{\"kind\":"@);
}

/// How long the words are; those that stand in one place differ in it.
proof fn lemma_word_lengths()
    ensures
        "normal"@.len() == 6,
        "missingParent"@.len() == 13,
        "boundaryViolation"@.len() == 17,
        "cycle"@.len() == 5,
        "left"@.len() == 4,
        "right"@.len() == 5,
        "topLevel"@.len() == 8,
        "inline"@.len() == 6,
{
    reveal_strlit("normal");
    reveal_strlit("missingParent");
    reveal_strlit("boundaryViolation");
    reveal_strlit("cycle");
    reveal_strlit("left");
    reveal_strlit("right");
    reveal_strlit("topLevel");
    reveal_strlit("inline");
}

proof fn lemma_words_differ(a: ThreadKeyView, b: ThreadKeyView)
    ensures
        kind_word(a.kind) == kind_word(b.kind) ==> a.kind == b.kind,
        side_word(a.partition.side) == side_word(b.partition.side) ==> a.partition.side
            == b.partition.side,
        class_word(a.partition.class) == class_word(b.partition.class) ==> a.partition.class
            == b.partition.class,
{
    lemma_word_lengths();
}

proof fn lemma_path_unique(text: Seq<char>, at: int, a: Option<Seq<char>>, b: Option<Seq<char>>)
    requires
        occurs_at(text, path_json(a), at),
        occurs_at(text, path_json(b), at),
    ensures
        a == b,
{
    reveal_strlit("null");
    assert(text.subrange(at, at + path_json(a).len())[0] == text[at]);
    assert(text.subrange(at, at + path_json(b).len())[0] == text[at]);
    match (a, b) {
        (Some(x), Some(y)) => lemma_json_string_unique(text, at, x, y),
        _ => {},
    }
}

/// Different thread keys have different texts.
pub proof fn stable_text_is_injective(a: ThreadKeyView, b: ThreadKeyView)
    requires
        stable_text(a) == stable_text(b),
    ensures
        a == b,
{
    let text = stable_text(a);
    lemma_parts_stand(a);
    lemma_parts_stand(b);
    lemma_json_string_unique(
        text,
        part_end(a, 0).len() as int,
        kind_word(a.kind),
        kind_word(b.kind),
    );
    lemma_words_differ(a, b);
    lemma_json_string_unique(
        text,
        part_end(a, 2).len() as int,
        a.partition.storage_key,
        b.partition.storage_key,
    );
    lemma_json_string_unique(
        text,
        part_end(a, 4).len() as int,
        a.partition.base_oid,
        b.partition.base_oid,
    );
    lemma_json_string_unique(
        text,
        part_end(a, 6).len() as int,
        a.partition.head_oid,
        b.partition.head_oid,
    );
    lemma_path_unique(text, part_end(a, 8).len() as int, a.partition.path, b.partition.path);
    lemma_json_string_unique(
        text,
        part_end(a, 10).len() as int,
        side_word(a.partition.side),
        side_word(b.partition.side),
    );
    lemma_json_string_unique(
        text,
        part_end(a, 12).len() as int,
        class_word(a.partition.class),
        class_word(b.partition.class),
    );
    lemma_json_string_unique(text, part_end(a, 16).len() as int, a.id, b.id);
    assert(a =~~= b);
}

/// The side that a word names.
pub open spec fn side_named(word: Seq<char>) -> Option<StackReviewCommentSide> {
    if word == "left"@ {
        Some(StackReviewCommentSide::Left)
    } else if word == "right"@ {
        Some(StackReviewCommentSide::Right)
    } else if word == "topLevel"@ {
        Some(StackReviewCommentSide::TopLevel)
    } else {
        None
    }
}

/// The class that a word names.
pub open spec fn class_named(word: Seq<char>) -> Option<StackReviewCommentClass> {
    if word == "inline"@ {
        Some(StackReviewCommentClass::Inline)
    } else if word == "topLevel"@ {
        Some(StackReviewCommentClass::TopLevel)
    } else {
        None
    }
}

/// The kind of thread that a word names.
pub open spec fn kind_named(word: Seq<char>) -> Option<ThreadKind> {
    if word == "normal"@ {
        Some(ThreadKind::Normal)
    } else if word == "missingParent"@ {
        Some(ThreadKind::MissingParent)
    } else if word == "boundaryViolation"@ {
        Some(ThreadKind::BoundaryViolation)
    } else if word == "cycle"@ {
        Some(ThreadKind::Cycle)
    } else {
        None
    }
}

/// The side that a word names.
pub(crate) fn read_side(word: &str) -> (side: Option<StackReviewCommentSide>)
    ensures
        side == side_named(word@),
        forall|s: StackReviewCommentSide| word@ == side_word(s) ==> side == Some(s),
{
    proof {
        lemma_word_lengths();
    }
    if same_text(word, "left") {
        Some(StackReviewCommentSide::Left)
    } else if same_text(word, "right") {
        Some(StackReviewCommentSide::Right)
    } else if same_text(word, "topLevel") {
        Some(StackReviewCommentSide::TopLevel)
    } else {
        None
    }
}

/// The class that a word names.
pub(crate) fn read_class(word: &str) -> (class: Option<StackReviewCommentClass>)
    ensures
        class == class_named(word@),
        forall|c: StackReviewCommentClass| word@ == class_word(c) ==> class == Some(c),
{
    proof {
        lemma_word_lengths();
    }
    if same_text(word, "inline") {
        Some(StackReviewCommentClass::Inline)
    } else if same_text(word, "topLevel") {
        Some(StackReviewCommentClass::TopLevel)
    } else {
        None
    }
}

/// The key of the kind that a word names.
pub(crate) fn build_key(kind: &str, partition: CommentThreadPartition, id: String) -> (key: Option<
    CommentThreadKey,
>)
    ensures
        match (key, kind_named(kind@)) {
            (Some(key), Some(kind)) => key@ == (ThreadKeyView {
                kind,
                partition: partition@,
                id: id@,
            }),
            (None, None) => true,
            _ => false,
        },
        forall|k: ThreadKeyView|
            kind@ == #[trigger] kind_word(k.kind) && partition@ == k.partition && id@ == k.id ==> key
                is Some && key->0@ == k,
{
    proof {
        lemma_word_lengths();
    }
    if same_text(kind, "normal") {
        Some(CommentThreadKey::Normal { partition, root_record_id: id })
    } else if same_text(kind, "missingParent") {
        Some(CommentThreadKey::MissingParent { partition, missing_parent_id: id })
    } else if same_text(kind, "boundaryViolation") {
        Some(CommentThreadKey::BoundaryViolation { partition, foreign_parent_id: id })
    } else if same_text(kind, "cycle") {
        Some(CommentThreadKey::Cycle { partition, canonical_member_id: id })
    } else {
        None
    }
}

/// The field `name` with its value, at `at`.
fn read_field(chars: &Vec<char>, at: usize, name: &str) -> (read: Option<(String, usize)>)
    ensures
        forall|v: Seq<char>|
            occurs_at(chars@, name@, at as int) && #[trigger] occurs_at(
                chars@,
                json_string(v),
                (at + name@.len()) as int,
            ) ==> {
                &&& read matches Some((value, next))
                &&& value@ == v
                &&& next == at + name@.len() + json_string(v).len()
            },
{
    match skip_literal(chars, at, name) {
        Some(next) => read_json_string(chars, next),
        None => None,
    }
}

/// The path at `at`.
fn read_path(chars: &Vec<char>, at: usize) -> (read: Option<(Option<String>, usize)>)
    ensures
        forall|path: Option<Seq<char>>| #[trigger]
            occurs_at(chars@, path_json(path), at as int) ==> {
                &&& read matches Some((value, next))
                &&& opt_string_view(value) == path
                &&& next == at + path_json(path).len()
            },
{
    proof {
        assert forall|path: Option<Seq<char>>| #[trigger]
            occurs_at(chars@, path_json(path), at as int) implies (path is None) == occurs_at(
            chars@,
            "null"@,
            at as int,
        ) by {
            if path is Some && occurs_at(chars@, "null"@, at as int) {
                lemma_path_unique(chars@, at as int, path, None);
            }
        }
    }
    match skip_literal(chars, at, "null") {
        Some(next) => Some((None, next)),
        None => match read_json_string(chars, at) {
            Some((path, next)) => {
                assert forall|p: Option<Seq<char>>| #[trigger]
                    occurs_at(chars@, path_json(p), at as int) implies p == Some(path@) by {
                    assert(occurs_at(chars@, json_string(p->0), at as int));
                }
                Some((Some(path), next))
            },
            None => {
                assert forall|p: Option<Seq<char>>| !(#[trigger] occurs_at(
                    chars@,
                    path_json(p),
                    at as int,
                )) by {
                    if occurs_at(chars@, path_json(p), at as int) {
                        assert(occurs_at(chars@, json_string(p->0), at as int));
                    }
                }
                None
            },
        },
    }
}

/// The key whose parts stand in `chars`; where no key's do, anything may come back.
fn read_key(chars: &Vec<char>) -> (key: Option<CommentThreadKey>)
    ensures
        forall|k: ThreadKeyView| #[trigger] parts_stand(k, chars@) ==> key is Some && key->0@ == k,
{
    let (kind, at) = match read_field(chars, 0, "{\"kind\":") {
        Some(read) => read,
        None => return None,
    };
    let (storage_key, at) = match read_field(chars, at, ",\"partition\":{\"storageKey\":") {
        Some(read) => read,
        None => return None,
    };
    let (base_oid, at) = match read_field(chars, at, ",\"baseOid\":") {
        Some(read) => read,
        None => return None,
    };
    let (head_oid, at) = match read_field(chars, at, ",\"headOid\":") {
        Some(read) => read,
        None => return None,
    };
    let at: usize = match skip_literal(chars, at, ",\"path\":") {
        Some(at) => at,
        None => return None,
    };
    let (path, at) = match read_path(chars, at) {
        Some(read) => read,
        None => return None,
    };
    let (side, at) = match read_field(chars, at, ",\"side\":") {
        Some(read) => read,
        None => return None,
    };
    let (class, at) = match read_field(chars, at, ",\"class\":") {
        Some(read) => read,
        None => return None,
    };
    let (_, at) = match read_field(chars, at, "},") {
        Some(read) => read,
        None => return None,
    };
    let (id, _) = match read_field(chars, at, ":") {
        Some(read) => read,
        None => return None,
    };
    let side = match read_side(side.as_str()) {
        Some(side) => side,
        None => return None,
    };
    let class = match read_class(class.as_str()) {
        Some(class) => class,
        None => return None,
    };
    let partition = CommentThreadPartition { storage_key, base_oid, head_oid, path, side, class };
    assert forall|k: ThreadKeyView| #[trigger] parts_stand(k, chars@) implies partition@
        == k.partition && kind@ == kind_word(k.kind) && id@ == k.id by {
        assert(partition@ =~= k.partition);
    }
    build_key(kind.as_str(), partition, id)
}

/// What keeps a text from standing for a thread of a snapshot.
#[derive(Clone, Copy, Debug, PartialEq, Eq, Structural)]
pub enum ThreadKeyError {
    /// It is no thread key in JSON.
    Malformed,
    NotCanonical,
    EmptyIdentifier,
    EmptyStorageKey,
    OtherSnapshot,
    OtherStorageKey,
    InvalidPartition,
}

/// What a thread key's error says.
pub open spec fn thread_key_message(error: ThreadKeyError) -> Seq<char> {
    match error {
        ThreadKeyError::Malformed => "malformed comment thread key"@,
        ThreadKeyError::NotCanonical => "comment thread key is not canonical"@,
        ThreadKeyError::EmptyIdentifier => "comment thread key identifier is empty"@,
        ThreadKeyError::EmptyStorageKey => "comment thread partition storage key is empty"@,
        ThreadKeyError::OtherSnapshot => "comment thread key does not match the snapshot"@,
        ThreadKeyError::OtherStorageKey => "comment thread key does not match the storage key"@,
        ThreadKeyError::InvalidPartition => "invalid comment thread partition"@,
    }
}

impl ThreadKeyError {
    /// The error in words.
    pub fn message(&self) -> (message: String)
        ensures
            message@ == thread_key_message(*self),
    {
        match self {
            ThreadKeyError::Malformed => "malformed comment thread key".to_owned(),
            ThreadKeyError::NotCanonical => "comment thread key is not canonical".to_owned(),
            ThreadKeyError::EmptyIdentifier => "comment thread key identifier is empty".to_owned(),
            ThreadKeyError::EmptyStorageKey =>
                "comment thread partition storage key is empty".to_owned(),
            ThreadKeyError::OtherSnapshot =>
                "comment thread key does not match the snapshot".to_owned(),
            ThreadKeyError::OtherStorageKey =>
                "comment thread key does not match the storage key".to_owned(),
            ThreadKeyError::InvalidPartition => "invalid comment thread partition".to_owned(),
        }
    }
}

impl CommentThreadKey {
    /// The text that stands for the key. There always is one.
    pub fn to_stable_string(&self) -> (text: Result<String, ThreadKeyError>)
        ensures
            text matches Ok(text) && text@ == stable_text(self@),
    {
        Ok(self.stable_string())
    }

    /// The text that stands for the key.
    pub(crate) fn stable_string(&self) -> (text: String)
        ensures
            text@ == stable_text(self@),
    {
        let (kind, field, partition, id) = key_parts(self);
        let mut text = "{\"kind\":".to_owned();
        push_json_string(&mut text, kind);
        text.append(",\"partition\":{\"storageKey\":");
        push_json_string(&mut text, partition.storage_key.as_str());
        text.append(",\"baseOid\":");
        push_json_string(&mut text, partition.base_oid.as_str());
        text.append(",\"headOid\":");
        push_json_string(&mut text, partition.head_oid.as_str());
        text.append(",\"path\":");
        match &partition.path {
            Some(path) => push_json_string(&mut text, path.as_str()),
            None => text.append("null"),
        }
        text.append(",\"side\":");
        match partition.side {
            StackReviewCommentSide::Left => push_json_string(&mut text, "left"),
            StackReviewCommentSide::Right => push_json_string(&mut text, "right"),
            StackReviewCommentSide::TopLevel => push_json_string(&mut text, "topLevel"),
        }
        text.append(",\"class\":");
        match partition.class {
            StackReviewCommentClass::Inline => push_json_string(&mut text, "inline"),
            StackReviewCommentClass::TopLevel => push_json_string(&mut text, "topLevel"),
        }
        text.append("},");
        push_json_string(&mut text, field);
        text.append(":");
        push_json_string(&mut text, id.as_str());
        text.append("}");
        text
    }

    /// The key that a text stands for, where the text is one that `to_stable_string` writes.
    pub fn from_canonical_string(serialized: &str) -> (key: Option<Self>)
        ensures
            match key {
                Some(key) => serialized@ == stable_text(key@),
                None => forall|k: ThreadKeyView| #[trigger] stable_text(k) != serialized@,
            },
    {
        let chars = chars_of(serialized);
        proof {
            assert forall|k: ThreadKeyView| #[trigger]
                stable_text(k) == serialized@ implies parts_stand(k, chars@) by {
                lemma_parts_stand(k);
            }
        }
        match read_key(&chars) {
            Some(key) => {
                let written = key.stable_string();
                if same_text(written.as_str(), serialized) {
                    Some(key)
                } else {
                    None
                }
            },
            None => None,
        }
    }
}

/// Whether a partition's side, class and path go together.
pub open spec fn partition_is_valid(partition: PartitionView) -> bool {
    match (partition.side, partition.class, partition.path) {
        (StackReviewCommentSide::TopLevel, StackReviewCommentClass::TopLevel, None) => true,
        (
            StackReviewCommentSide::Left | StackReviewCommentSide::Right,
            StackReviewCommentClass::Inline,
            Some(path),
        ) => trimmed(path).len() > 0,
        _ => false,
    }
}

/// The first thing that keeps a key from standing for a thread of the snapshot between
/// `base_oid` and `head_oid`.
pub open spec fn thread_key_problem(
    key: ThreadKeyView,
    base_oid: Seq<char>,
    head_oid: Seq<char>,
) -> Option<ThreadKeyError> {
    if trimmed(key.id).len() == 0 {
        Some(ThreadKeyError::EmptyIdentifier)
    } else if trimmed(key.partition.storage_key).len() == 0 {
        Some(ThreadKeyError::EmptyStorageKey)
    } else if key.partition.base_oid != base_oid || key.partition.head_oid != head_oid {
        Some(ThreadKeyError::OtherSnapshot)
    } else if key.partition.storage_key != storage_key_text(base_oid, head_oid) {
        Some(ThreadKeyError::OtherStorageKey)
    } else if !partition_is_valid(key.partition) {
        Some(ThreadKeyError::InvalidPartition)
    } else {
        None
    }
}

/// Whether `key` stands for a thread of the snapshot between `base_oid` and `head_oid`.
pub fn validate_comment_thread_key(
    key: &CommentThreadKey,
    base_oid: &str,
    head_oid: &str,
) -> (checked: Result<(), ThreadKeyError>)
    ensures
        match checked {
            Ok(()) => thread_key_problem(key@, base_oid@, head_oid@) is None,
            Err(error) => thread_key_problem(key@, base_oid@, head_oid@) == Some(error),
        },
{
    let (_, _, partition, id) = key_parts(key);
    if trim_text(id.as_str()).unicode_len() == 0 {
        return Err(ThreadKeyError::EmptyIdentifier);
    }
    if trim_text(partition.storage_key.as_str()).unicode_len() == 0 {
        return Err(ThreadKeyError::EmptyStorageKey);
    }
    if !same_text(partition.base_oid.as_str(), base_oid) || !same_text(
        partition.head_oid.as_str(),
        head_oid,
    ) {
        return Err(ThreadKeyError::OtherSnapshot);
    }
    let storage_key = stack_review_storage_key(base_oid, head_oid);
    if !same_text(partition.storage_key.as_str(), storage_key.as_str()) {
        return Err(ThreadKeyError::OtherStorageKey);
    }
    match (partition.side, partition.class, &partition.path) {
        (StackReviewCommentSide::TopLevel, StackReviewCommentClass::TopLevel, None) => Ok(()),
        (
            StackReviewCommentSide::Left | StackReviewCommentSide::Right,
            StackReviewCommentClass::Inline,
            Some(path),
        ) => {
            if trim_text(path.as_str()).unicode_len() > 0 {
                Ok(())
            } else {
                Err(ThreadKeyError::InvalidPartition)
            }
        },
        _ => Err(ThreadKeyError::InvalidPartition),
    }
}

/// The first thing that keeps a text from standing for a thread of the snapshot between `base_oid`
/// and `head_oid`: that no key can be read from it, that it is not the key's stable text, or what
/// is wrong with the key.
pub open spec fn serialized_key_problem(
    serialized: Seq<char>,
    base_oid: Seq<char>,
    head_oid: Seq<char>,
) -> Option<ThreadKeyError> {
    match key_in(serialized) {
        Some(key) => if stable_text(key) != serialized {
            Some(ThreadKeyError::NotCanonical)
        } else {
            thread_key_problem(key, base_oid, head_oid)
        },
        None => Some(ThreadKeyError::Malformed),
    }
}

/// Whether a text is the stable text of a thread of the snapshot between `base_oid` and `head_oid`.
pub open spec fn stands_for_thread(
    serialized: Seq<char>,
    base_oid: Seq<char>,
    head_oid: Seq<char>,
) -> bool {
    exists|key: ThreadKeyView| #[trigger]
        stable_text(key) == serialized && thread_key_problem(key, base_oid, head_oid) is None
}

/// Nothing keeps a text from standing for a thread exactly where it is the stable text of one.
pub proof fn lemma_stands_for_thread(
    serialized: Seq<char>,
    base_oid: Seq<char>,
    head_oid: Seq<char>,
)
    ensures
        (serialized_key_problem(serialized, base_oid, head_oid) is None) == stands_for_thread(
            serialized,
            base_oid,
            head_oid,
        ),
{
    if stands_for_thread(serialized, base_oid, head_oid) {
        let key = choose|key: ThreadKeyView| #[trigger]
            stable_text(key) == serialized && thread_key_problem(key, base_oid, head_oid) is None;
        let chosen = choose|k: ThreadKeyView| #[trigger] stable_text(k) == serialized;
        stable_text_is_injective(chosen, key);
    }
}

/// The thread of the snapshot between `base_oid` and `head_oid` that a text stands for.
pub fn validate_serialized_comment_thread_key(
    serialized: &str,
    base_oid: &str,
    head_oid: &str,
) -> (key: Result<CommentThreadKey, ThreadKeyError>)
    ensures
        match key {
            Ok(key) => serialized@ == stable_text(key@) && serialized_key_problem(
                serialized@,
                base_oid@,
                head_oid@,
            ) is None && thread_key_problem(key@, base_oid@, head_oid@) is None,
            Err(error) => serialized_key_problem(serialized@, base_oid@, head_oid@) == Some(error),
        },
{
    match CommentThreadKey::from_stable_string(serialized) {
        Ok(key) => {
            let written = key.stable_string();
            if !same_text(written.as_str(), serialized) {
                return Err(ThreadKeyError::NotCanonical);
            }
            match validate_comment_thread_key(&key, base_oid, head_oid) {
                Ok(()) => Ok(key),
                Err(error) => Err(error),
            }
        },
        Err(error) => Err(error),
    }
}

/// What `to_stable_string` writes for a key of the snapshot is accepted, and what is accepted
/// stands for one key only.
pub proof fn stable_text_reads_back(key: ThreadKeyView, base_oid: Seq<char>, head_oid: Seq<char>)
    ensures
        serialized_key_problem(stable_text(key), base_oid, head_oid) == thread_key_problem(
            key,
            base_oid,
            head_oid,
        ),
{
    let text = stable_text(key);
    let chosen = choose|k: ThreadKeyView| #[trigger] stable_text(k) == text;
    stable_text_is_injective(chosen, key);
}

} // verus!
