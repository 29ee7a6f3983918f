//! Thread keys as any JSON holds them, be it spaced and ordered as their stable texts are or not.

use crate::json_shape::{
    is_json, json_shape, json_valid, members_view, shape_of, texts_view, JsonShape, ShapeView,
};
use crate::text::same_text;
use crate::thread_key::{
    build_key, class_named, kind_named, read_class, read_side, side_named, stable_text,
    stable_text_is_injective, CommentThreadKey, CommentThreadPartition, PartitionView,
    ThreadKeyError, ThreadKeyView, ThreadKind,
};
use vstd::prelude::*;
use vstd::string::*;

verus! {

/// A field of a thread key.
#[derive(Clone, Debug)]
pub enum JsonField {
    Missing,
    Null,
    Text(String),
    /// An object with one name, under which there is nothing: `null` or an empty object.
    Name(String),
    /// Anything else, or more than one.
    Other,
}

/// A field of a thread key, as a value.
pub enum JsonFieldView {
    Missing,
    Null,
    Text(Seq<char>),
    Name(Seq<char>),
    Other,
}

impl View for JsonField {
    type V = JsonFieldView;

    open spec fn view(&self) -> JsonFieldView {
        match self {
            JsonField::Missing => JsonFieldView::Missing,
            JsonField::Null => JsonFieldView::Null,
            JsonField::Text(text) => JsonFieldView::Text(text@),
            JsonField::Name(name) => JsonFieldView::Name(name@),
            JsonField::Other => JsonFieldView::Other,
        }
    }
}

/// The fields of the partition of a thread key.
#[derive(Clone, Debug)]
pub struct PartitionFields {
    pub storage_key: JsonField,
    pub base_oid: JsonField,
    pub head_oid: JsonField,
    pub path: JsonField,
    pub side: JsonField,
    pub class: JsonField,
}

/// The fields of the partition of a thread key, as values.
pub struct PartitionFieldsView {
    pub storage_key: JsonFieldView,
    pub base_oid: JsonFieldView,
    pub head_oid: JsonFieldView,
    pub path: JsonFieldView,
    pub side: JsonFieldView,
    pub class: JsonFieldView,
}

impl View for PartitionFields {
    type V = PartitionFieldsView;

    open spec fn view(&self) -> PartitionFieldsView {
        PartitionFieldsView {
            storage_key: self.storage_key@,
            base_oid: self.base_oid@,
            head_oid: self.head_oid@,
            path: self.path@,
            side: self.side@,
            class: self.class@,
        }
    }
}

/// The fields of a thread key.
#[derive(Clone, Debug)]
pub struct KeyFields {
    pub kind: JsonField,
    /// Those of the partition, where there is one.
    pub partition: Option<PartitionFields>,
    /// The record id, under the name that it has in this kind of key.
    pub id: JsonField,
}

/// The fields of a thread key, as values.
pub struct KeyFieldsView {
    pub kind: JsonFieldView,
    pub partition: Option<PartitionFieldsView>,
    pub id: JsonFieldView,
}

impl View for KeyFields {
    type V = KeyFieldsView;

    open spec fn view(&self) -> KeyFieldsView {
        KeyFieldsView {
            kind: self.kind@,
            partition: match self.partition {
                Some(partition) => Some(partition@),
                None => None,
            },
            id: self.id@,
        }
    }
}

/// The word that a field gives for one of several things: a string, or the one name in an object.
pub open spec fn word_in(field: JsonFieldView) -> Option<Seq<char>> {
    match field {
        JsonFieldView::Text(word) => Some(word),
        JsonFieldView::Name(word) => Some(word),
        _ => None,
    }
}

/// The partition that some fields describe. All of them are strings, but the path may be `null` or
/// missing, and side and class may be objects that hold nothing but their names.
pub open spec fn partition_of_fields(fields: PartitionFieldsView) -> Option<PartitionView> {
    let path = match fields.path {
        JsonFieldView::Missing | JsonFieldView::Null => Some(None),
        JsonFieldView::Text(path) => Some(Some(path)),
        _ => None,
    };
    match (
        fields.storage_key,
        fields.base_oid,
        fields.head_oid,
        path,
        word_in(fields.side),
        word_in(fields.class),
    ) {
        (
            JsonFieldView::Text(storage_key),
            JsonFieldView::Text(base_oid),
            JsonFieldView::Text(head_oid),
            Some(path),
            Some(side),
            Some(class),
        ) => match (side_named(side), class_named(class)) {
            (Some(side), Some(class)) => Some(
                PartitionView { storage_key, base_oid, head_oid, path, side, class },
            ),
            _ => None,
        },
        _ => None,
    }
}

/// The key that some fields describe.
pub open spec fn key_of_fields(fields: KeyFieldsView) -> Option<ThreadKeyView> {
    match (fields.kind, fields.partition, fields.id) {
        (JsonFieldView::Text(kind), Some(partition), JsonFieldView::Text(id)) => match (
            kind_named(kind),
            partition_of_fields(partition),
        ) {
            (Some(kind), Some(partition)) => Some(ThreadKeyView { kind, partition, id }),
            _ => None,
        },
        _ => None,
    }
}

/// A key that may be absent, as a value.
pub open spec fn opt_key_view(key: Option<CommentThreadKey>) -> Option<ThreadKeyView> {
    match key {
        Some(key) => Some(key@),
        None => None,
    }
}

fn text_field(field: &JsonField) -> (text: Option<String>)
    ensures
        match (text, field@) {
            (Some(text), JsonFieldView::Text(shown)) => text@ == shown,
            (Some(_), _) => false,
            (None, JsonFieldView::Text(_)) => false,
            (None, _) => true,
        },
{
    match field {
        JsonField::Text(text) => Some(text.clone()),
        _ => None,
    }
}

fn word_field(field: &JsonField) -> (word: Option<String>)
    ensures
        match word {
            Some(word) => word_in(field@) == Some(word@),
            None => word_in(field@) is None,
        },
{
    match field {
        JsonField::Text(word) => Some(word.clone()),
        JsonField::Name(word) => Some(word.clone()),
        _ => None,
    }
}

fn partition_from_fields(fields: &PartitionFields) -> (partition: Option<CommentThreadPartition>)
    ensures
        match partition {
            Some(partition) => partition_of_fields(fields@) == Some(partition@),
            None => partition_of_fields(fields@) is None,
        },
{
    let path: Option<String> = match &fields.path {
        JsonField::Missing => None,
        JsonField::Null => None,
        JsonField::Text(path) => Some(path.clone()),
        _ => return None,
    };
    let storage_key = match text_field(&fields.storage_key) {
        Some(text) => text,
        None => return None,
    };
    let base_oid = match text_field(&fields.base_oid) {
        Some(text) => text,
        None => return None,
    };
    let head_oid = match text_field(&fields.head_oid) {
        Some(text) => text,
        None => return None,
    };
    let side = match word_field(&fields.side) {
        Some(word) => match read_side(word.as_str()) {
            Some(side) => side,
            None => return None,
        },
        None => return None,
    };
    let class = match word_field(&fields.class) {
        Some(word) => match read_class(word.as_str()) {
            Some(class) => class,
            None => return None,
        },
        None => return None,
    };
    Some(CommentThreadPartition { storage_key, base_oid, head_oid, path, side, class })
}

/// The key that some fields describe.
pub fn key_from_fields(fields: &KeyFields) -> (key: Option<CommentThreadKey>)
    ensures
        opt_key_view(key) == key_of_fields(fields@),
{
    let kind = match text_field(&fields.kind) {
        Some(text) => text,
        None => return None,
    };
    let partition = match &fields.partition {
        Some(partition) => match partition_from_fields(partition) {
            Some(partition) => partition,
            None => return None,
        },
        None => return None,
    };
    let id = match text_field(&fields.id) {
        Some(text) => text,
        None => return None,
    };
    build_key(kind.as_str(), partition, id)
}

/// A text that is JSON, as a field.
pub open spec fn field_of(text: Seq<char>) -> JsonFieldView {
    match shape_of(text) {
        ShapeView::Null => JsonFieldView::Null,
        ShapeView::Text(read) => JsonFieldView::Text(read),
        ShapeView::Object(members) => if members.len() == 1 && (match shape_of(members[0].1) {
            ShapeView::Null => true,
            ShapeView::Object(inner) => inner.len() == 0,
            _ => false,
        }) {
            JsonFieldView::Name(members[0].0)
        } else {
            JsonFieldView::Other
        },
        _ => JsonFieldView::Other,
    }
}

fn read_field(text: &str) -> (field: JsonField)
    ensures
        field@ == field_of(text@),
{
    match json_shape(text) {
        JsonShape::Null => JsonField::Null,
        JsonShape::Text(read) => JsonField::Text(read),
        JsonShape::Object(members) => {
            assert(members_view(members@).len() == members@.len());
            if members.len() == 1 {
                assert(members_view(members@)[0] == (members@[0].0@, members@[0].1@));
                let is_empty = match json_shape(members[0].1.as_str()) {
                    JsonShape::Null => true,
                    JsonShape::Object(inner) => inner.len() == 0,
                    _ => false,
                };
                if is_empty {
                    return JsonField::Name(members[0].0.clone());
                }
            }
            JsonField::Other
        },
        _ => JsonField::Other,
    }
}

/// What an object has under a name.
pub enum MemberView {
    Missing,
    /// One value, as it is written.
    Value(Seq<char>),
    Repeated,
}

/// What an object has under a name.
pub open spec fn member_named(members: Seq<(Seq<char>, Seq<char>)>, name: Seq<char>) -> MemberView
    decreases members.len(),
{
    if members.len() == 0 {
        MemberView::Missing
    } else {
        let before = member_named(members.drop_last(), name);
        if members.last().0 == name {
            match before {
                MemberView::Missing => MemberView::Value(members.last().1),
                _ => MemberView::Repeated,
            }
        } else {
            before
        }
    }
}

/// What an object has under a name, as a field.
pub open spec fn member_field(member: MemberView) -> JsonFieldView {
    match member {
        MemberView::Missing => JsonFieldView::Missing,
        MemberView::Value(text) => field_of(text),
        MemberView::Repeated => JsonFieldView::Other,
    }
}

/// What an object has under a name: how often, and where it is last.
fn find_member(members: &Vec<(String, String)>, name: &str) -> (found: (bool, Option<usize>))
    ensures
        match member_named(members_view(members@), name@) {
            MemberView::Missing => found == (false, None::<usize>),
            MemberView::Value(text) => !found.0 && found.1 is Some && found.1->0 < members@.len()
                && members@[found.1->0 as int].1@ == text,
            MemberView::Repeated => found.0,
        },
{
    let ghost all = members_view(members@);
    let mut repeated = false;
    let mut at: Option<usize> = None;
    let mut i: usize = 0;
    assert(all.take(0) =~= Seq::empty());
    while i < members.len()
        invariant
            i <= members@.len(),
            all == members_view(members@),
            match member_named(all.take(i as int), name@) {
                MemberView::Missing => !repeated && at is None,
                MemberView::Value(text) => !repeated && at is Some && at->0 < members@.len()
                    && members@[at->0 as int].1@ == text,
                MemberView::Repeated => repeated,
            },
            repeated ==> at is Some,
        decreases members.len() - i,
    {
        proof {
            assert(all.take(i + 1).drop_last() =~= all.take(i as int));
            assert(all.take(i + 1).last() == (members@[i as int].0@, members@[i as int].1@));
        }
        if same_text(members[i].0.as_str(), name) {
            if at.is_some() {
                repeated = true;
            } else {
                at = Some(i);
            }
        }
        i += 1;
    }
    assert(all.take(i as int) =~= all);
    (repeated, at)
}

fn read_member(members: &Vec<(String, String)>, name: &str) -> (field: JsonField)
    ensures
        field@ == member_field(member_named(members_view(members@), name@)),
{
    match find_member(members, name) {
        (true, _) => JsonField::Other,
        (false, Some(at)) => read_field(members[at].1.as_str()),
        (false, None) => JsonField::Missing,
    }
}

/// The fields of a partition: an object, or an array that holds them in their order.
pub open spec fn partition_fields_in(text: Seq<char>) -> Option<PartitionFieldsView> {
    match shape_of(text) {
        ShapeView::Object(members) => Some(
            PartitionFieldsView {
                storage_key: member_field(member_named(members, "storageKey"@)),
                base_oid: member_field(member_named(members, "baseOid"@)),
                head_oid: member_field(member_named(members, "headOid"@)),
                path: member_field(member_named(members, "path"@)),
                side: member_field(member_named(members, "side"@)),
                class: member_field(member_named(members, "class"@)),
            },
        ),
        ShapeView::Array(elements) => if elements.len() == 6 {
            Some(
                PartitionFieldsView {
                    storage_key: field_of(elements[0]),
                    base_oid: field_of(elements[1]),
                    head_oid: field_of(elements[2]),
                    path: field_of(elements[3]),
                    side: field_of(elements[4]),
                    class: field_of(elements[5]),
                },
            )
        } else {
            None
        },
        _ => None,
    }
}

/// The fields of a partition that may be absent, as values.
pub open spec fn opt_partition_view(fields: Option<PartitionFields>) -> Option<
    PartitionFieldsView,
> {
    match fields {
        Some(fields) => Some(fields@),
        None => None,
    }
}

fn read_partition_fields(text: &str) -> (fields: Option<PartitionFields>)
    ensures
        opt_partition_view(fields) == partition_fields_in(text@),
{
    match json_shape(text) {
        JsonShape::Object(members) => Some(
            PartitionFields {
                storage_key: read_member(&members, "storageKey"),
                base_oid: read_member(&members, "baseOid"),
                head_oid: read_member(&members, "headOid"),
                path: read_member(&members, "path"),
                side: read_member(&members, "side"),
                class: read_member(&members, "class"),
            },
        ),
        JsonShape::Array(elements) => {
            let ghost views = texts_view(elements@);
            assert(views.len() == elements@.len());
            if elements.len() == 6 {
                assert(forall|i: int| 0 <= i < 6 ==> #[trigger] views[i] == elements@[i]@);
                Some(
                    PartitionFields {
                        storage_key: read_field(elements[0].as_str()),
                        base_oid: read_field(elements[1].as_str()),
                        head_oid: read_field(elements[2].as_str()),
                        path: read_field(elements[3].as_str()),
                        side: read_field(elements[4].as_str()),
                        class: read_field(elements[5].as_str()),
                    },
                )
            } else {
                None
            }
        },
        _ => None,
    }
}

/// The name of the field that holds the record id of the kind of key that a field names.
pub open spec fn id_name(kind: JsonFieldView) -> Option<Seq<char>> {
    match kind {
        JsonFieldView::Text(kind) => match kind_named(kind) {
            Some(ThreadKind::Normal) => Some("root_record_id"@),
            Some(ThreadKind::MissingParent) => Some("missing_parent_id"@),
            Some(ThreadKind::BoundaryViolation) => Some("foreign_parent_id"@),
            Some(ThreadKind::Cycle) => Some("canonical_member_id"@),
            None => None,
        },
        _ => None,
    }
}

fn name_of_id(kind: &JsonField) -> (name: Option<&'static str>)
    ensures
        match name {
            Some(name) => id_name(kind@) == Some(name@),
            None => id_name(kind@) is None,
        },
{
    match kind {
        JsonField::Text(kind) => {
            let kind = kind.as_str();
            if same_text(kind, "normal") {
                Some("root_record_id")
            } else if same_text(kind, "missingParent") {
                Some("missing_parent_id")
            } else if same_text(kind, "boundaryViolation") {
                Some("foreign_parent_id")
            } else if same_text(kind, "cycle") {
                Some("canonical_member_id")
            } else {
                None
            }
        },
        _ => None,
    }
}

/// The fields of the thread key in a text: an object, or an array that holds kind, partition and
/// record id. In a text that is no JSON there are none.
#[verifier::opaque]
pub open spec fn fields_in(text: Seq<char>) -> KeyFieldsView {
    let none = KeyFieldsView {
        kind: JsonFieldView::Missing,
        partition: None,
        id: JsonFieldView::Missing,
    };
    if !json_valid(text) {
        none
    } else {
        match shape_of(text) {
            ShapeView::Object(members) => {
                let kind = member_field(member_named(members, "kind"@));
                KeyFieldsView {
                    kind,
                    partition: match member_named(members, "partition"@) {
                        MemberView::Value(partition) => partition_fields_in(partition),
                        _ => None,
                    },
                    id: match id_name(kind) {
                        Some(name) => member_field(member_named(members, name)),
                        None => JsonFieldView::Missing,
                    },
                }
            },
            ShapeView::Array(elements) => if elements.len() == 3 {
                KeyFieldsView {
                    kind: field_of(elements[0]),
                    partition: partition_fields_in(elements[1]),
                    id: field_of(elements[2]),
                }
            } else {
                none
            },
            _ => none,
        }
    }
}

fn no_fields() -> (fields: KeyFields)
    ensures
        fields@ == (KeyFieldsView {
            kind: JsonFieldView::Missing,
            partition: None,
            id: JsonFieldView::Missing,
        }),
{
    KeyFields { kind: JsonField::Missing, partition: None, id: JsonField::Missing }
}

fn read_fields(text: &str) -> (fields: KeyFields)
    ensures
        fields@ == fields_in(text@),
{
    reveal(fields_in);
    if !is_json(text) {
        return no_fields();
    }
    match json_shape(text) {
        JsonShape::Object(members) => {
            let kind = read_member(&members, "kind");
            let partition = match find_member(&members, "partition") {
                (false, Some(at)) => read_partition_fields(members[at].1.as_str()),
                _ => None,
            };
            let id = match name_of_id(&kind) {
                Some(name) => read_member(&members, name),
                None => JsonField::Missing,
            };
            KeyFields { kind, partition, id }
        },
        JsonShape::Array(elements) => {
            let ghost views = texts_view(elements@);
            assert(views.len() == elements@.len());
            if elements.len() == 3 {
                assert(forall|i: int| 0 <= i < 3 ==> #[trigger] views[i] == elements@[i]@);
                KeyFields {
                    kind: read_field(elements[0].as_str()),
                    partition: read_partition_fields(elements[1].as_str()),
                    id: read_field(elements[2].as_str()),
                }
            } else {
                no_fields()
            }
        },
        _ => no_fields(),
    }
}

/// The key that a text stands for: the one whose stable text it is or else, where it is none, the
/// one that its fields describe.
pub open spec fn key_in(text: Seq<char>) -> Option<ThreadKeyView> {
    if exists|key: ThreadKeyView| #[trigger] stable_text(key) == text {
        Some(choose|key: ThreadKeyView| #[trigger] stable_text(key) == text)
    } else {
        key_of_fields(fields_in(text))
    }
}

impl CommentThreadKey {
    /// The key that a text stands for. Other spacing, another order of its fields and fields that
    /// mean nothing do not matter; a field that means something comes once.
    pub fn from_stable_string(serialized: &str) -> (key: Result<Self, ThreadKeyError>)
        ensures
            match key {
                Ok(key) => key_in(serialized@) == Some(key@),
                Err(error) => error == ThreadKeyError::Malformed && key_in(serialized@) is None,
            },
            forall|k: ThreadKeyView| #[trigger]
                stable_text(k) == serialized@ ==> key is Ok && key->Ok_0@ == k,
    {
        match CommentThreadKey::from_canonical_string(serialized) {
            Some(key) => {
                proof {
                    assert(stable_text(key@) == serialized@);
                    assert forall|k: ThreadKeyView| #[trigger]
                        stable_text(k) == serialized@ implies k == key@ by {
                        stable_text_is_injective(k, key@);
                    }
                }
                Ok(key)
            },
            None => match key_from_fields(&read_fields(serialized)) {
                Some(key) => Ok(key),
                None => Err(ThreadKeyError::Malformed),
            },
        }
    }
}

} // verus!
