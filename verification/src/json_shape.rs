//! JSON, level by level, as the `serde_json` crate reads it.

use crate::text::chars_of;
use vstd::prelude::*;
use vstd::string::*;

verus! {

/// Some texts as values.
pub open spec fn texts_view(texts: Seq<String>) -> Seq<Seq<char>> {
    texts.map_values(|text: String| text@)
}

/// Whether the `serde_json` crate reads a text as JSON.
pub uninterp spec fn json_valid(text: Seq<char>) -> bool;

/// Calls [`serde_json::from_str`] for a [`serde_json::Value`] and says whether it succeeded. That
/// depends on the text alone; which texts those are is left to the crate.
#[verifier::external_body]
pub(crate) fn is_json(text: &str) -> (valid: bool)
    ensures
        valid == json_valid(text@),
{
    serde_json::from_str::<serde_json::Value>(text).is_ok()
}

/// The elements of the JSON array that a text is, each as it is written there, as the `serde_json`
/// crate splits it.
pub uninterp spec fn json_elements(text: Seq<char>) -> Option<Seq<Seq<char>>>;

/// Calls [`serde_json::from_str`] for a vector of [`serde_json::value::RawValue`]s, which keep their
/// texts. The outcome depends on the text alone; which texts are arrays, and where their elements
/// begin and end, is left to the crate.
#[verifier::external_body]
pub(crate) fn split_json_array(text: &str) -> (elements: Option<Vec<String>>)
    ensures
        match elements {
            Some(elements) => json_elements(text@) == Some(texts_view(elements@)),
            None => json_elements(text@) is None,
        },
{
    let elements: Vec<Box<serde_json::value::RawValue>> = serde_json::from_str(text).ok()?;
    Some(elements.iter().map(|element| element.get().to_owned()).collect())
}

/// What the JSON string that a text is stands for, as the `serde_json` crate reads it.
pub uninterp spec fn json_text(text: Seq<char>) -> Option<Seq<char>>;

/// Calls [`serde_json::from_str`] for a [`String`]. The outcome depends on the text alone; which
/// texts are JSON strings, and what their escapes stand for, is left to the crate.
#[verifier::external_body]
pub(crate) fn read_json_text(text: &str) -> (read: Option<String>)
    ensures
        match read {
            Some(read) => json_text(text@) == Some(read@),
            None => json_text(text@) is None,
        },
{
    serde_json::from_str::<String>(text).ok()
}

/// Where one is in JSON: within how many brackets, and whether in a string and behind a backslash
/// there.
pub struct ScanView {
    pub depth: nat,
    pub in_text: bool,
    pub escaped: bool,
}

/// Where one is after one more character.
pub open spec fn scanned(at: ScanView, c: char) -> ScanView {
    if at.in_text {
        if at.escaped {
            ScanView { escaped: false, ..at }
        } else if c == '\\' {
            ScanView { escaped: true, ..at }
        } else if c == '"' {
            ScanView { in_text: false, ..at }
        } else {
            at
        }
    } else if c == '"' {
        ScanView { in_text: true, ..at }
    } else if c == '{' || c == '[' {
        ScanView { depth: at.depth + 1, ..at }
    } else if (c == '}' || c == ']') && at.depth > 0 {
        ScanView { depth: (at.depth - 1) as nat, ..at }
    } else {
        at
    }
}

/// Where one is behind a text.
pub open spec fn scan_end(text: Seq<char>) -> ScanView
    decreases text.len(),
{
    if text.len() == 0 {
        ScanView { depth: 0, in_text: false, escaped: false }
    } else {
        scanned(scan_end(text.drop_last()), text.last())
    }
}

/// A character of an object as one of the array that holds its names and values in turn: the
/// outermost braces become brackets, and the colons within them commas.
pub open spec fn listed_char(at: ScanView, c: char) -> char {
    if at.in_text {
        c
    } else if c == '{' && at.depth == 0 {
        '['
    } else if c == '}' && at.depth == 1 {
        ']'
    } else if c == ':' && at.depth == 1 {
        ','
    } else {
        c
    }
}

/// The array that holds the names and the values of an object in turn.
pub open spec fn member_list(text: Seq<char>) -> Seq<char>
    decreases text.len(),
{
    if text.len() == 0 {
        Seq::empty()
    } else {
        member_list(text.drop_last()).push(listed_char(scan_end(text.drop_last()), text.last()))
    }
}

fn list_members(text: &str) -> (list: String)
    ensures
        list@ == member_list(text@),
{
    let chars = chars_of(text);
    let mut list = String::new();
    let mut depth: usize = 0;
    let mut in_text = false;
    let mut escaped = false;
    let mut i: usize = 0;
    assert(chars@.take(0) =~= Seq::empty());
    while i < chars.len()
        invariant
            i <= chars@.len(),
            chars@ == text@,
            list@ == member_list(chars@.take(i as int)),
            scan_end(chars@.take(i as int)) == (ScanView { depth: depth as nat, in_text, escaped }),
            depth <= i,
        decreases chars.len() - i,
    {
        let c = chars[i];
        proof {
            assert(chars@.take(i + 1).drop_last() =~= chars@.take(i as int));
            assert(chars@.take(i + 1).last() == c);
        }
        let listed = if in_text {
            c
        } else if c == '{' && depth == 0 {
            '['
        } else if c == '}' && depth == 1 {
            ']'
        } else if c == ':' && depth == 1 {
            ','
        } else {
            c
        };
        list.push(listed);
        if in_text {
            if escaped {
                escaped = false;
            } else if c == '\\' {
                escaped = true;
            } else if c == '"' {
                in_text = false;
            }
        } else if c == '"' {
            in_text = true;
        } else if c == '{' || c == '[' {
            depth += 1;
        } else if (c == '}' || c == ']') && depth > 0 {
            depth -= 1;
        }
        i += 1;
    }
    assert(chars@.take(i as int) =~= chars@);
    list
}

/// The first character of JSON from `from` on, white space left aside.
pub open spec fn first_sign(text: Seq<char>, from: int) -> Option<char>
    decreases text.len() - from,
{
    if from < 0 || from >= text.len() {
        None
    } else if text[from] == ' ' || text[from] == '\n' || text[from] == '\t' || text[from] == '\r' {
        first_sign(text, from + 1)
    } else {
        Some(text[from])
    }
}

fn find_first_sign(text: &str) -> (sign: Option<char>)
    ensures
        sign == first_sign(text@, 0),
{
    let chars = chars_of(text);
    let mut i: usize = 0;
    while i < chars.len()
        invariant
            i <= chars@.len(),
            chars@ == text@,
            first_sign(text@, 0) == first_sign(text@, i as int),
        decreases chars.len() - i,
    {
        let c = chars[i];
        if c != ' ' && c != '\n' && c != '\t' && c != '\r' {
            return Some(c);
        }
        i += 1;
    }
    None
}

/// One level of JSON, what it holds still as it is written.
#[derive(Clone, Debug)]
pub enum JsonShape {
    Null,
    Text(String),
    Array(Vec<String>),
    /// The names and the values, in their order, repeated names and all.
    Object(Vec<(String, String)>),
    /// A number or a truth value.
    Other,
}

/// One level of JSON, as a value.
pub enum ShapeView {
    Null,
    Text(Seq<char>),
    Array(Seq<Seq<char>>),
    Object(Seq<(Seq<char>, Seq<char>)>),
    Other,
}

/// Members of an object as values.
pub open spec fn members_view(members: Seq<(String, String)>) -> Seq<(Seq<char>, Seq<char>)> {
    members.map_values(|member: (String, String)| (member.0@, member.1@))
}

impl View for JsonShape {
    type V = ShapeView;

    open spec fn view(&self) -> ShapeView {
        match self {
            JsonShape::Null => ShapeView::Null,
            JsonShape::Text(text) => ShapeView::Text(text@),
            JsonShape::Array(elements) => ShapeView::Array(texts_view(elements@)),
            JsonShape::Object(members) => ShapeView::Object(members_view(members@)),
            JsonShape::Other => ShapeView::Other,
        }
    }
}

/// The members whose names and values come in turn, where the names are strings.
pub open spec fn paired(parts: Seq<Seq<char>>) -> Option<Seq<(Seq<char>, Seq<char>)>>
    decreases parts.len(),
{
    if parts.len() == 0 {
        Some(Seq::empty())
    } else if parts.len() == 1 {
        None
    } else {
        match (
            paired(parts.take(parts.len() - 2)),
            json_text(parts[parts.len() - 2]),
        ) {
            (Some(before), Some(name)) => Some(before.push((name, parts.last()))),
            _ => None,
        }
    }
}

/// One level of a text that is JSON.
pub open spec fn shape_of(text: Seq<char>) -> ShapeView {
    match first_sign(text, 0) {
        Some('{') => match json_elements(member_list(text)) {
            Some(parts) => match paired(parts) {
                Some(members) => ShapeView::Object(members),
                None => ShapeView::Other,
            },
            None => ShapeView::Other,
        },
        Some('[') => match json_elements(text) {
            Some(elements) => ShapeView::Array(elements),
            None => ShapeView::Other,
        },
        Some('"') => match json_text(text) {
            Some(read) => ShapeView::Text(read),
            None => ShapeView::Other,
        },
        Some('n') => ShapeView::Null,
        _ => ShapeView::Other,
    }
}

proof fn lemma_unpaired(parts: Seq<Seq<char>>, to: int)
    requires
        0 <= to <= parts.len(),
        (parts.len() - to) % 2 == 0,
        paired(parts.take(to)) is None,
    ensures
        paired(parts) is None,
    decreases parts.len() - to,
{
    if to == parts.len() {
        assert(parts.take(to) =~= parts);
    } else {
        let next = parts.take(to + 2);
        assert(next.take(next.len() - 2) =~= parts.take(to));
        lemma_unpaired(parts, to + 2);
    }
}

fn pair_up(parts: Vec<String>) -> (members: Option<Vec<(String, String)>>)
    ensures
        match members {
            Some(members) => paired(texts_view(parts@)) == Some(members_view(members@)),
            None => paired(texts_view(parts@)) is None,
        },
{
    let ghost all = texts_view(parts@);
    let mut members: Vec<(String, String)> = Vec::new();
    let len: usize = parts.len();
    if len % 2 == 1 {
        proof {
            assert(all.take(1).len() == 1);
            lemma_unpaired(all, 1);
        }
        return None;
    }
    let mut i: usize = 0;
    assert(all.take(0) =~= Seq::empty());
    assert(members_view(members@) =~= Seq::empty());
    while i < len
        invariant
            i <= len == parts@.len(),
            len % 2 == 0,
            i % 2 == 0,
            all == texts_view(parts@),
            paired(all.take(i as int)) == Some(members_view(members@)),
        decreases len - i,
    {
        proof {
            assert(all.take(i + 2).take(i as int) =~= all.take(i as int));
            assert(all[i as int] == parts@[i as int]@);
            assert(all[i + 1] == parts@[i + 1]@);
            assert(all.take(i + 2).last() == all[i + 1]);
        }
        match read_json_text(parts[i].as_str()) {
            Some(name) => {
                let ghost before = members@;
                let member = (name, parts[i + 1].clone());
                members.push(member);
                assert(members_view(members@) =~= members_view(before).push(
                    (member.0@, member.1@),
                ));
            },
            None => {
                proof {
                    lemma_unpaired(all, i + 2);
                }
                return None;
            },
        }
        i += 2;
    }
    assert(all.take(i as int) =~= all);
    Some(members)
}

/// One level of a text that is JSON.
pub fn json_shape(text: &str) -> (shape: JsonShape)
    ensures
        shape@ == shape_of(text@),
{
    match find_first_sign(text) {
        Some('{') => {
            let list = list_members(text);
            match split_json_array(list.as_str()) {
                Some(parts) => match pair_up(parts) {
                    Some(members) => JsonShape::Object(members),
                    None => JsonShape::Other,
                },
                None => JsonShape::Other,
            }
        },
        Some('[') => match split_json_array(text) {
            Some(elements) => JsonShape::Array(elements),
            None => JsonShape::Other,
        },
        Some('"') => match read_json_text(text) {
            Some(read) => JsonShape::Text(read),
            None => JsonShape::Other,
        },
        Some('n') => JsonShape::Null,
        _ => JsonShape::Other,
    }
}

} // verus!
