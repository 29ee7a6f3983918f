//! Paths as mentions spell them.

use crate::text::{
    chars_of, code_point, find_char, first_of, lemma_first_of_bounds, opt_string_view, opt_view,
    same_text, split_once_char,
};
use vstd::prelude::*;
use vstd::string::*;
use vstd::utf8::{encode_utf8, valid_utf8};

verus! {

/// How a machine writes paths.
#[derive(Clone, Copy, Debug, PartialEq, Eq, Structural)]
pub enum PathStyle {
    Unix,
    Windows,
}

impl PathStyle {
    pub fn is_windows(self) -> (windows: bool)
        ensures
            windows == (self == PathStyle::Windows),
    {
        self == PathStyle::Windows
    }
}

/// Whether `c` is an ASCII letter.
pub open spec fn is_letter(c: char) -> bool {
    0x41 <= c as int <= 0x5A || 0x61 <= c as int <= 0x7A
}

/// Whether `c` is a small ASCII letter.
pub open spec fn is_small_letter(c: char) -> bool {
    0x61 <= c as int <= 0x7A
}

/// Whether `c` separates the components of a path on Windows.
pub open spec fn is_separator(c: char) -> bool {
    c == '/' || c == '\\'
}

fn letter(c: char) -> (is: bool)
    ensures
        is == is_letter(c),
{
    let code: u32 = code_point(c);
    (0x41 <= code && code <= 0x5A) || (0x61 <= code && code <= 0x7A)
}

fn small_letter(c: char) -> (is: bool)
    ensures
        is == is_small_letter(c),
{
    let code: u32 = code_point(c);
    0x61 <= code && code <= 0x7A
}

/// Whether a path is absolute: it begins with a slash or, on Windows, with a backslash or a drive
/// and a separator.
pub open spec fn is_absolute_path(path: Seq<char>, style: PathStyle) -> bool {
    ||| path.len() > 0 && path[0] == '/'
    ||| style == PathStyle::Windows && path.len() > 0 && path[0] == '\\'
    ||| style == PathStyle::Windows && path.len() > 2 && is_letter(path[0]) && path[1] == ':'
        && is_separator(path[2])
}

/// Whether a path is absolute.
pub fn is_absolute(path: &str, style: PathStyle) -> (absolute: bool)
    ensures
        absolute == is_absolute_path(path@, style),
{
    let chars = chars_of(path);
    if chars.len() > 0 && chars[0] == '/' {
        return true;
    }
    if !style.is_windows() {
        return false;
    }
    if chars.len() > 0 && chars[0] == '\\' {
        return true;
    }
    chars.len() > 2 && letter(chars[0]) && chars[1] == ':' && (chars[2] == '/' || chars[2] == '\\')
}

/// The components of a path, with an empty one wherever two slashes meet or the path begins or
/// ends with one.
pub open spec fn slash_parts(path: Seq<char>) -> Seq<Seq<char>>
    decreases path.len(),
{
    let at = first_of(path, '/');
    if 0 <= at < path.len() {
        seq![path.take(at)] + slash_parts(path.skip(at + 1))
    } else {
        seq![path]
    }
}

/// The views of some texts.
pub open spec fn str_views(texts: Seq<&str>) -> Seq<Seq<char>> {
    texts.map_values(|text: &str| text@)
}

/// The components of a path.
fn split_slashes<'a>(path: &'a str) -> (parts: Vec<&'a str>)
    ensures
        str_views(parts@) == slash_parts(path@),
{
    let mut parts: Vec<&'a str> = Vec::new();
    let mut rest = path;
    assert(str_views(parts@) + slash_parts(rest@) =~= slash_parts(path@));
    loop
        invariant
            str_views(parts@) + slash_parts(rest@) == slash_parts(path@),
        decreases rest@.len(),
    {
        proof {
            lemma_first_of_bounds(rest@, '/');
        }
        match split_once_char(rest, '/') {
            Some((before, after)) => {
                proof {
                    assert(str_views(parts@.push(before)) =~= str_views(parts@).push(before@));
                    assert(slash_parts(rest@) =~= seq![before@] + slash_parts(after@));
                    assert(str_views(parts@.push(before)) + slash_parts(after@) =~= str_views(
                        parts@,
                    ) + slash_parts(rest@));
                }
                parts.push(before);
                rest = after;
            },
            None => {
                proof {
                    assert(str_views(parts@.push(rest)) =~= str_views(parts@).push(rest@));
                    assert(slash_parts(rest@) =~= seq![rest@]);
                    assert(str_views(parts@.push(rest)) =~= str_views(parts@) + seq![rest@]);
                }
                parts.push(rest);
                return parts;
            },
        }
    }
}

/// Whether a component names something: it is neither empty nor the directory itself.
pub open spec fn names_something(part: Seq<char>) -> bool {
    part.len() > 0 && part != "."@
}

/// Whether a component is an ordinary name.
pub open spec fn is_ordinary(part: Seq<char>) -> bool {
    names_something(part) && part != ".."@
}

/// The last of some components that names something.
pub open spec fn last_named(parts: Seq<Seq<char>>) -> Option<Seq<char>>
    decreases parts.len(),
{
    if parts.len() == 0 {
        None
    } else if names_something(parts.last()) {
        Some(parts.last())
    } else {
        last_named(parts.drop_last())
    }
}

/// The name of what a slash-separated path leads to; there is none where the path is empty, the
/// root or ends in `..`.
pub open spec fn file_name_of(path: Seq<char>) -> Option<Seq<char>> {
    match last_named(slash_parts(path)) {
        Some(part) => if part == ".."@ {
            None
        } else {
            Some(part)
        },
        None => None,
    }
}

/// The name of what a slash-separated path leads to.
pub fn file_name<'a>(path: &'a str) -> (name: Option<&'a str>)
    ensures
        opt_view(name) == file_name_of(path@),
{
    let parts = split_slashes(path);
    let ghost all = slash_parts(path@);
    let mut to: usize = parts.len();
    assert(all.take(to as int) =~= all);
    while to > 0
        invariant
            to <= parts@.len(),
            all == slash_parts(path@),
            str_views(parts@) == all,
            last_named(all) == last_named(all.take(to as int)),
        decreases to,
    {
        let part = parts[to - 1];
        assert(all[to - 1] == part@);
        assert(all.take(to as int).drop_last() =~= all.take(to - 1));
        if part.unicode_len() > 0 && !same_text(part, ".") {
            if same_text(part, "..") {
                return None;
            }
            return Some(part);
        }
        to -= 1;
    }
    None
}

/// Those of some components that are ordinary names.
pub open spec fn ordinary_parts(parts: Seq<Seq<char>>) -> Seq<Seq<char>>
    decreases parts.len(),
{
    if parts.len() == 0 {
        Seq::empty()
    } else if is_ordinary(parts.last()) {
        ordinary_parts(parts.drop_last()).push(parts.last())
    } else {
        ordinary_parts(parts.drop_last())
    }
}

/// Some components with a slash between each two.
pub open spec fn slash_joined(parts: Seq<Seq<char>>) -> Seq<char>
    decreases parts.len(),
{
    if parts.len() == 0 {
        Seq::empty()
    } else if parts.len() == 1 {
        parts[0]
    } else {
        slash_joined(parts.drop_last()) + "/"@ + parts.last()
    }
}

/// The end of a path that shows its last name and `detail` names before it, or all there are.
pub open spec fn path_end(path: Seq<char>, detail: nat) -> Seq<char> {
    let names = ordinary_parts(slash_parts(path));
    slash_joined(
        if names.len() > detail {
            names.skip(names.len() - detail - 1)
        } else {
            names
        },
    )
}

/// The end of a path that shows its last name and `detail` names before it.
pub fn path_suffix(path: &str, detail: usize) -> (end: String)
    ensures
        end@ == path_end(path@, detail as nat),
{
    let parts = split_slashes(path);
    let ghost all = slash_parts(path@);
    let mut names: Vec<&str> = Vec::new();
    let mut i: usize = 0;
    assert(all.take(0) =~= Seq::<Seq<char>>::empty());
    assert(str_views(names@) =~= Seq::<Seq<char>>::empty());
    while i < parts.len()
        invariant
            i <= parts@.len(),
            str_views(parts@) == all,
            str_views(names@) == ordinary_parts(all.take(i as int)),
        decreases parts.len() - i,
    {
        let part = parts[i];
        assert(all[i as int] == part@);
        assert(all.take(i + 1).drop_last() =~= all.take(i as int));
        if part.unicode_len() > 0 && !same_text(part, ".") && !same_text(part, "..") {
            assert(str_views(names@.push(part)) =~= str_views(names@).push(part@));
            names.push(part);
        }
        i += 1;
    }
    assert(all.take(i as int) =~= all);
    let from: usize = if names.len() > detail {
        names.len() - detail - 1
    } else {
        0
    };
    let ghost shown = str_views(names@).skip(from as int);
    assert(names@.len() <= detail ==> shown =~= str_views(names@));
    let mut end = String::new();
    let mut k: usize = from;
    assert(shown.take(0) =~= Seq::<Seq<char>>::empty());
    while k < names.len()
        invariant
            from <= k <= names@.len(),
            shown == str_views(names@).skip(from as int),
            end@ == slash_joined(shown.take(k - from)),
        decreases names.len() - k,
    {
        let ghost now = shown.take(k + 1 - from);
        assert(now.drop_last() =~= shown.take(k - from));
        assert(now.last() == names@[k as int]@);
        if k > from {
            end.append("/");
        }
        end.append(names[k]);
        assert(end@ =~= slash_joined(now));
        k += 1;
    }
    assert(shown.take(k - from) =~= shown);
    end
}

/// The byte that two hexadecimal digits write.
pub open spec fn hex_value(digit: u8) -> Option<int> {
    if 0x30 <= digit <= 0x39 {
        Some(digit - 0x30)
    } else if 0x61 <= digit <= 0x66 {
        Some(digit - 0x61 + 10)
    } else if 0x41 <= digit <= 0x46 {
        Some(digit - 0x41 + 10)
    } else {
        None
    }
}

/// The byte that an escape at the start of `bytes` stands for, unless it is a separator.
pub open spec fn escaped_byte(bytes: Seq<u8>) -> Option<u8> {
    if bytes.len() >= 3 && bytes[0] == 0x25 {
        match (hex_value(bytes[1]), hex_value(bytes[2])) {
            (Some(high), Some(low)) => {
                let byte = high * 16 + low;
                if byte == 0x2F || byte == 0x5C {
                    None
                } else {
                    Some(byte as u8)
                }
            },
            _ => None,
        }
    } else {
        None
    }
}

/// `bytes` with each escape replaced by what it stands for, but for escapes of separators.
pub open spec fn unescaped(bytes: Seq<u8>) -> Seq<u8>
    decreases bytes.len(),
{
    if bytes.len() == 0 {
        Seq::empty()
    } else {
        match escaped_byte(bytes) {
            Some(byte) => seq![byte] + unescaped(bytes.skip(3)),
            None => seq![bytes[0]] + unescaped(bytes.skip(1)),
        }
    }
}

/// The separators among some bytes, in their order.
pub open spec fn separators_in(bytes: Seq<u8>) -> Seq<u8>
    decreases bytes.len(),
{
    if bytes.len() == 0 {
        Seq::empty()
    } else if bytes[0] == 0x2F || bytes[0] == 0x5C {
        seq![bytes[0]] + separators_in(bytes.skip(1))
    } else {
        separators_in(bytes.skip(1))
    }
}

/// Decoding the escapes of a path keeps its separators, each of them, in their order: none is
/// added, taken away or changed into another.
pub proof fn unescaping_keeps_separators(bytes: Seq<u8>)
    ensures
        separators_in(unescaped(bytes)) == separators_in(bytes),
    decreases bytes.len(),
{
    if bytes.len() > 0 {
        match escaped_byte(bytes) {
            Some(byte) => {
                let rest = bytes.skip(3);
                unescaping_keeps_separators(rest);
                assert((seq![byte] + unescaped(rest)).skip(1) =~= unescaped(rest));
                assert(bytes.skip(1).skip(1) =~= bytes.skip(2));
                assert(bytes.skip(2).skip(1) =~= rest);
                reveal_with_fuel(separators_in, 4);
            },
            None => {
                let rest = bytes.skip(1);
                unescaping_keeps_separators(rest);
                assert((seq![bytes[0]] + unescaped(rest)).skip(1) =~= unescaped(rest));
            },
        }
    }
}

fn hex_digit_value(digit: u8) -> (value: Option<u8>)
    ensures
        match value {
            Some(value) => hex_value(digit) == Some(value as int) && value < 16,
            None => hex_value(digit) is None,
        },
{
    if 0x30 <= digit && digit <= 0x39 {
        Some(digit - 0x30)
    } else if 0x61 <= digit && digit <= 0x66 {
        Some(digit - 0x61 + 10)
    } else if 0x41 <= digit && digit <= 0x46 {
        Some(digit - 0x41 + 10)
    } else {
        None
    }
}

fn escaped_byte_at(bytes: &[u8], at: usize) -> (byte: Option<u8>)
    requires
        at < bytes@.len(),
    ensures
        byte == escaped_byte(bytes@.skip(at as int)),
{
    if bytes[at] != 0x25 || bytes.len() - at < 3 {
        return None;
    }
    match (hex_digit_value(bytes[at + 1]), hex_digit_value(bytes[at + 2])) {
        (Some(high), Some(low)) => {
            let byte: u8 = high * 16 + low;
            if byte == 0x2F || byte == 0x5C {
                None
            } else {
                Some(byte)
            }
        },
        _ => None,
    }
}

/// Calls [`String::from_utf8`], which gives back the text that the bytes encode, or nothing where
/// they are not UTF-8.
#[verifier::external_body]
pub(crate) fn text_from_utf8(bytes: Vec<u8>) -> (text: Option<String>)
    ensures
        match text {
            Some(text) => valid_utf8(bytes@) && encode_utf8(text@) == bytes@,
            None => !valid_utf8(bytes@),
        },
{
    String::from_utf8(bytes).ok()
}

/// The path with its percent escapes decoded, where that changes it. Escapes of separators stay,
/// so that decoding cannot change which directories the path leads through; a path whose decoded
/// bytes are not UTF-8 is not changed.
pub fn decode_path_escapes(input: &str) -> (decoded: Option<String>)
    ensures
        match decoded {
            Some(decoded) => {
                &&& encode_utf8(decoded@) == unescaped(encode_utf8(input@))
                &&& decoded@ != input@
            },
            None => unescaped(encode_utf8(input@)) == encode_utf8(input@) || !valid_utf8(
                unescaped(encode_utf8(input@)),
            ),
        },
{
    let bytes = input.as_bytes();
    let ghost all = encode_utf8(input@);
    let mut decoded: Vec<u8> = Vec::new();
    let mut at: usize = 0;
    let mut changed = false;
    assert(all.skip(0) =~= all);
    assert(decoded@ + unescaped(all.skip(0)) =~= unescaped(all));
    while at < bytes.len()
        invariant
            bytes@ == all,
            at <= bytes@.len(),
            decoded@ + unescaped(all.skip(at as int)) == unescaped(all),
            !changed ==> decoded@ == all.take(at as int),
            changed ==> decoded@.len() < at,
        decreases bytes.len() - at,
    {
        let ghost rest = all.skip(at as int);
        match escaped_byte_at(bytes, at) {
            Some(byte) => {
                proof {
                    assert(rest.skip(3) =~= all.skip(at + 3));
                    assert(decoded@.push(byte) + unescaped(all.skip(at + 3)) =~= decoded@
                        + unescaped(rest));
                }
                decoded.push(byte);
                at += 3;
                changed = true;
            },
            None => {
                proof {
                    assert(rest.skip(1) =~= all.skip(at + 1));
                    assert(rest[0] == all[at as int]);
                    assert(decoded@.push(all[at as int]) + unescaped(all.skip(at + 1)) =~= decoded@
                        + unescaped(rest));
                    assert(all.take(at + 1) =~= all.take(at as int).push(all[at as int]));
                }
                decoded.push(bytes[at]);
                at += 1;
            },
        }
    }
    proof {
        assert(all.skip(at as int) =~= Seq::<u8>::empty());
        assert(decoded@ =~= unescaped(all));
        assert(all.take(at as int) =~= all);
    }
    if !changed {
        return None;
    }
    text_from_utf8(decoded)
}

/// `c` as a capital, where it is an ASCII letter.
pub open spec fn capital(c: char) -> char {
    if is_small_letter(c) {
        (c as int - 32) as char
    } else {
        c
    }
}

/// `s` with backslashes for slashes.
pub open spec fn backslashed(s: Seq<char>) -> Seq<char> {
    s.map_values(
        |c: char|
            if c == '/' {
                '\\'
            } else {
                c
            },
    )
}

/// Whether a path is spelled `/C:/...`, as in a URL.
pub open spec fn has_url_drive(path: Seq<char>) -> bool {
    path.len() >= 4 && path[0] == '/' && is_letter(path[1]) && path[2] == ':' && is_separator(
        path[3],
    )
}

/// Whether a path is spelled `/c/...`, as Unix shells on Windows do.
pub open spec fn has_shell_drive(path: Seq<char>) -> bool {
    path.len() >= 3 && path[0] == '/' && is_small_letter(path[1]) && is_separator(path[2])
}

/// Whether a path begins with a drive.
pub open spec fn has_drive(path: Seq<char>) -> bool {
    path.len() >= 2 && is_letter(path[0]) && path[1] == ':'
}

/// A path as Windows spells it, where it is spelled otherwise: with its drive as a capital and
/// with backslashes.
pub open spec fn native_windows_path(path: Seq<char>) -> Option<Seq<char>> {
    if has_url_drive(path) {
        Some(seq![capital(path[1]), ':', '\\'] + backslashed(path.skip(4)))
    } else if has_shell_drive(path) {
        Some(seq![capital(path[1]), ':', '\\'] + backslashed(path.skip(3)))
    } else if has_drive(path) {
        if !is_small_letter(path[0]) && !path.contains('/') {
            None
        } else {
            Some(seq![capital(path[0]), ':'] + backslashed(path.skip(2)))
        }
    } else if path.contains('/') {
        Some(backslashed(path))
    } else {
        None
    }
}

/// What was spelled as Windows does needs no second change.
pub proof fn native_windows_path_is_final(path: Seq<char>)
    requires
        native_windows_path(path) is Some,
    ensures
        native_windows_path(native_windows_path(path)->0) is None,
{
    let native = native_windows_path(path)->0;
    assert forall|i: int| 0 <= i < native.len() implies native[i] != '/' by {
        if has_url_drive(path) {
            if i >= 3 {
                assert(native[i] == backslashed(path.skip(4))[i - 3]);
            }
        } else if has_shell_drive(path) {
            if i >= 3 {
                assert(native[i] == backslashed(path.skip(3))[i - 3]);
            }
        } else if has_drive(path) {
            if i >= 2 {
                assert(native[i] == backslashed(path.skip(2))[i - 2]);
            }
        } else {
            assert(native[i] == backslashed(path)[i]);
        }
    }
    assert(!native.contains('/'));
    if has_drive(native) && !has_url_drive(path) && !has_shell_drive(path) && !has_drive(path) {
        assert(native[0] == backslashed(path)[0]);
        assert(native[1] == backslashed(path)[1]);
    }
}

fn push_backslashed(text: &mut String, chars: &Vec<char>, from: usize)
    requires
        from <= chars@.len(),
    ensures
        final(text)@ == old(text)@ + backslashed(chars@.skip(from as int)),
{
    let ghost rest = chars@.skip(from as int);
    let ghost before = text@;
    let mut i: usize = from;
    assert(before + backslashed(rest.take(0)) =~= before);
    while i < chars.len()
        invariant
            from <= i <= chars@.len(),
            rest == chars@.skip(from as int),
            text@ == before + backslashed(rest.take(i - from)),
        decreases chars.len() - i,
    {
        assert(rest[i - from] == chars@[i as int]);
        if chars[i] == '/' {
            text.push('\\');
        } else {
            text.push(chars[i]);
        }
        assert(text@ =~= before + backslashed(rest.take(i + 1 - from)));
        i += 1;
    }
    assert(rest.take(i - from) =~= rest);
}

fn to_capital(c: char) -> (upper: char)
    ensures
        upper == capital(c),
{
    if small_letter(c) {
        let code: u32 = code_point(c) - 32;
        (code as u8) as char
    } else {
        c
    }
}

/// A path as Windows spells it, where it is spelled otherwise.
pub fn to_native_windows_path(path: &str) -> (native: Option<String>)
    ensures
        opt_string_view(native) == native_windows_path(path@),
{
    let chars = chars_of(path);
    let mut native = String::new();
    if chars.len() >= 4 && chars[0] == '/' && letter(chars[1]) && chars[2] == ':' && (chars[3]
        == '/' || chars[3] == '\\') {
        native.push(to_capital(chars[1]));
        native.push(':');
        native.push('\\');
        push_backslashed(&mut native, &chars, 4);
        assert(native@ =~= seq![capital(path@[1]), ':', '\\'] + backslashed(path@.skip(4)));
        return Some(native);
    }
    if chars.len() >= 3 && chars[0] == '/' && small_letter(chars[1]) && (chars[2] == '/' || chars[2]
        == '\\') {
        native.push(to_capital(chars[1]));
        native.push(':');
        native.push('\\');
        push_backslashed(&mut native, &chars, 3);
        assert(native@ =~= seq![capital(path@[1]), ':', '\\'] + backslashed(path@.skip(3)));
        return Some(native);
    }
    let has_slash = find_char(path, '/').is_some();
    if chars.len() >= 2 && letter(chars[0]) && chars[1] == ':' {
        if !small_letter(chars[0]) && !has_slash {
            return None;
        }
        native.push(to_capital(chars[0]));
        native.push(':');
        push_backslashed(&mut native, &chars, 2);
        assert(native@ =~= seq![capital(path@[0]), ':'] + backslashed(path@.skip(2)));
        return Some(native);
    }
    if has_slash {
        push_backslashed(&mut native, &chars, 0);
        assert(path@.skip(0) =~= path@);
        assert(native@ =~= backslashed(path@));
        return Some(native);
    }
    None
}

/// Whether a path is relative and leads straight down: no component is empty, `.` or `..`, and it
/// has neither a backslash nor a drive.
pub open spec fn is_plain_relative_path(path: Seq<char>) -> bool {
    &&& !path.contains('\\')
    &&& forall|i: int| 0 <= i < slash_parts(path).len() ==> is_ordinary(#[trigger] slash_parts(path)[i])
    &&& !(path.len() >= 2 && (path[0] as int) < 0x80 && path[1] == ':')
}

/// Whether a path is relative and leads straight down.
pub fn plain_relative_path(path: &str) -> (plain: bool)
    ensures
        plain == is_plain_relative_path(path@),
{
    if find_char(path, '\\').is_some() {
        return false;
    }
    let chars = chars_of(path);
    if chars.len() >= 2 && code_point(chars[0]) < 0x80 && chars[1] == ':' {
        return false;
    }
    let parts = split_slashes(path);
    let ghost all = slash_parts(path@);
    let mut i: usize = 0;
    while i < parts.len()
        invariant
            i <= parts@.len(),
            all == slash_parts(path@),
            str_views(parts@) == all,
            forall|k: int| 0 <= k < i ==> is_ordinary(#[trigger] all[k]),
        decreases parts.len() - i,
    {
        let part = parts[i];
        assert(all[i as int] == part@);
        if part.unicode_len() == 0 || same_text(part, ".") || same_text(part, "..") {
            assert(!is_ordinary(all[i as int]));
            return false;
        }
        i += 1;
    }
    true
}

} // verus!
