//! Strings as JSON writes them in compact form.

use crate::text::{chars_of, code_point, occurs_at, occurs_here};
use vstd::prelude::*;

verus! {

/// The lower-case hexadecimal digit of `d`.
pub open spec fn hex_char(d: int) -> char {
    if d < 10 {
        ('0' as int + d) as char
    } else {
        ('a' as int + d - 10) as char
    }
}

/// How JSON writes one character inside a string.
pub open spec fn json_escape(c: char) -> Seq<char> {
    let code = c as int;
    if c == '"' {
        seq!['\\', '"']
    } else if c == '\\' {
        seq!['\\', '\\']
    } else if code == 0x08 {
        seq!['\\', 'b']
    } else if code == 0x09 {
        seq!['\\', 't']
    } else if code == 0x0A {
        seq!['\\', 'n']
    } else if code == 0x0C {
        seq!['\\', 'f']
    } else if code == 0x0D {
        seq!['\\', 'r']
    } else if code < 0x20 {
        seq!['\\', 'u', '0', '0', hex_char(code / 16), hex_char(code % 16)]
    } else {
        seq![c]
    }
}

/// How JSON writes the characters of a string, without its quotes.
pub open spec fn json_escaped(s: Seq<char>) -> Seq<char>
    decreases s.len(),
{
    if s.len() == 0 {
        Seq::empty()
    } else {
        json_escaped(s.drop_last()) + json_escape(s.last())
    }
}

/// How JSON writes a string.
pub open spec fn json_string(s: Seq<char>) -> Seq<char> {
    seq!['"'] + json_escaped(s) + seq!['"']
}

fn hex_digit(d: u8) -> (c: char)
    requires
        d < 16,
    ensures
        c == hex_char(d as int),
{
    if d < 10 {
        (48u8 + d) as char
    } else {
        (87u8 + d) as char
    }
}

/// Appends one character as JSON writes it inside a string.
fn push_json_char(text: &mut String, c: char)
    ensures
        final(text)@ == old(text)@ + json_escape(c),
{
    let code: u32 = code_point(c);
    if c == '"' {
        text.push('\\');
        text.push('"');
    } else if c == '\\' {
        text.push('\\');
        text.push('\\');
    } else if code == 0x08 {
        text.push('\\');
        text.push('b');
    } else if code == 0x09 {
        text.push('\\');
        text.push('t');
    } else if code == 0x0A {
        text.push('\\');
        text.push('n');
    } else if code == 0x0C {
        text.push('\\');
        text.push('f');
    } else if code == 0x0D {
        text.push('\\');
        text.push('r');
    } else if code < 0x20 {
        text.push('\\');
        text.push('u');
        text.push('0');
        text.push('0');
        text.push(hex_digit((code / 16) as u8));
        text.push(hex_digit((code % 16) as u8));
    } else {
        text.push(c);
    }
    assert(text@ =~= old(text)@ + json_escape(c));
}

/// Appends `s` as JSON writes it.
pub fn push_json_string(text: &mut String, s: &str)
    ensures
        final(text)@ == old(text)@ + json_string(s@),
{
    let chars = chars_of(s);
    text.push('"');
    let ghost start = old(text)@ + seq!['"'];
    let mut i: usize = 0;
    assert(s@.take(0) =~= Seq::<char>::empty());
    assert(text@ =~= start + json_escaped(s@.take(0)));
    while i < chars.len()
        invariant
            chars@ == s@,
            i <= chars@.len(),
            text@ == start + json_escaped(s@.take(i as int)),
        decreases chars.len() - i,
    {
        push_json_char(text, chars[i]);
        assert(s@.take(i + 1).drop_last() =~= s@.take(i as int));
        assert(text@ =~= start + json_escaped(s@.take(i + 1)));
        i += 1;
    }
    assert(s@.take(i as int) =~= s@);
    text.push('"');
    assert(text@ =~= old(text)@ + json_string(s@));
}

proof fn lemma_code_point(c: char)
    ensures
        0 <= c as int,
{
}

/// No character's escape begins with another's, and none with the closing quote.
proof fn lemma_escape_decodes(c: char, d: char)
    ensures
        json_escape(c).is_prefix_of(json_escape(d)) ==> c == d,
        json_escape(c).len() > 0,
        json_escape(c)[0] != '"',
{
    let p = json_escape(c);
    let q = json_escape(d);
    if p.is_prefix_of(q) {
        assert(q.subrange(0, p.len() as int) == p);
        assert(p[0] == q[0]);
        if p.len() > 1 {
            assert(p[1] == q[1]);
        }
        if p.len() > 2 {
            assert(p[4] == q[4]);
            assert(p[5] == q[5]);
        }
    }
}

proof fn lemma_escapes_at(chars: Seq<char>, at: int, c: char, d: char)
    requires
        occurs_at(chars, json_escape(c), at),
        occurs_at(chars, json_escape(d), at),
    ensures
        c == d,
{
    let p = json_escape(c);
    let q = json_escape(d);
    if p.len() <= q.len() {
        assert(q.subrange(0, p.len() as int) =~= chars.subrange(at, at + p.len()));
        lemma_escape_decodes(c, d);
    } else {
        assert(p.subrange(0, q.len() as int) =~= chars.subrange(at, at + q.len()));
        lemma_escape_decodes(d, c);
    }
}

fn escape_occurs(chars: &Vec<char>, at: usize, c: char) -> (occurs: bool)
    requires
        at <= chars@.len(),
    ensures
        occurs == occurs_at(chars@, json_escape(c), at as int),
{
    let mut escape = String::new();
    push_json_char(&mut escape, c);
    assert(escape@ =~= json_escape(c));
    let wanted = chars_of(escape.as_str());
    occurs_here(chars, &wanted, at)
}

/// The character whose escape stands at `at`, with the position behind it.
fn read_json_char(chars: &Vec<char>, at: usize) -> (read: Option<(char, usize)>)
    requires
        at < chars@.len(),
    ensures
        match read {
            Some((c, next)) => at < next <= chars@.len() && occurs_at(
                chars@,
                json_escape(c),
                at as int,
            ) && next == at + json_escape(c).len(),
            None => forall|c: char| !occurs_at(chars@, json_escape(c), at as int),
        },
{
    let len: usize = chars.len();
    let first: char = chars[at];
    if first != '\\' {
        if escape_occurs(chars, at, first) {
            return Some((first, at + 1));
        }
        assert forall|c: char| !occurs_at(chars@, json_escape(c), at as int) by {
            if occurs_at(chars@, json_escape(c), at as int) {
                assert(chars@.subrange(at as int, at + json_escape(c).len())[0] == first);
                assert(json_escape(c)[0] == first);
                assert(c == first);
            }
        }
        return None;
    }
    if escape_occurs(chars, at, '"') {
        return Some(('"', at + 2));
    }
    if escape_occurs(chars, at, '\\') {
        return Some(('\\', at + 2));
    }
    let mut code: u8 = 0;
    while code < 0x20
        invariant
            at < chars@.len() == len,
            code <= 0x20,
            forall|c: char| 0 <= (c as int) < code ==> !occurs_at(chars@, json_escape(c), at as int),
        decreases 0x20 - code,
    {
        let c: char = code as char;
        if escape_occurs(chars, at, c) {
            let width: usize = if code == 0x08 || code == 0x09 || code == 0x0A || code == 0x0C || code
                == 0x0D {
                2
            } else {
                6
            };
            return Some((c, at + width));
        }
        assert forall|d: char| 0 <= (d as int) < code + 1 implies !occurs_at(
            chars@,
            json_escape(d),
            at as int,
        ) by {
            if (d as int) == code as int {
                assert(d == c);
            }
        }
        code += 1;
    }
    assert forall|c: char| !occurs_at(chars@, json_escape(c), at as int) by {
        if occurs_at(chars@, json_escape(c), at as int) {
            assert(chars@.subrange(at as int, at + json_escape(c).len())[0] == chars@[at as int]);
            assert(json_escape(c)[0] == '\\');
            lemma_code_point(c);
        }
    }
    None
}

/// What an escaped string holds is a prefix of it escaped, and then the next character's escape.
proof fn lemma_escaped_prefix(v: Seq<char>, k: int)
    requires
        0 <= k < v.len(),
    ensures
        occurs_at(json_escaped(v), json_escape(v[k]), json_escaped(v.take(k)).len() as int),
        json_escaped(v.take(k + 1)).len() == json_escaped(v.take(k)).len() + json_escape(v[k]).len(),
        json_escaped(v.take(k + 1)).len() <= json_escaped(v).len(),
    decreases v.len(),
{
    let before = json_escaped(v.drop_last());
    let whole = json_escaped(v);
    assert(whole =~= before + json_escape(v.last()));
    assert(v.take(k + 1).drop_last() =~= v.take(k));
    assert(v.take(k + 1).last() == v[k]);
    if k == v.len() - 1 {
        assert(v.take(k) =~= v.drop_last());
        assert(v.take(k + 1) =~= v);
        let at = before.len() as int;
        assert(whole.subrange(at, at + json_escape(v[k]).len()) =~= json_escape(v[k]));
    } else {
        lemma_escaped_prefix(v.drop_last(), k);
        assert(v.drop_last().take(k) =~= v.take(k));
        assert(v.drop_last().take(k + 1) =~= v.take(k + 1));
        let at = json_escaped(v.take(k)).len() as int;
        assert(whole.subrange(at, at + json_escape(v[k]).len()) =~= before.subrange(
            at,
            at + json_escape(v[k]).len(),
        ));
    }
}

/// Reads the string that JSON wrote at `at`; where none stands there, anything may come back.
pub fn read_json_string(chars: &Vec<char>, at: usize) -> (read: Option<(String, usize)>)
    ensures
        forall|v: Seq<char>| #[trigger]
            occurs_at(chars@, json_string(v), at as int) ==> {
                &&& read matches Some((value, next))
                &&& value@ == v
                &&& next == at + json_string(v).len()
            },
        read matches Some((value, next)) ==> next <= chars@.len(),
{
    if at >= chars.len() || chars[at] != '"' {
        assert forall|v: Seq<char>| !(#[trigger] occurs_at(
            chars@,
            json_string(v),
            at as int,
        )) by {
            if occurs_at(chars@, json_string(v), at as int) {
                assert(chars@.subrange(at as int, at + json_string(v).len())[0] == chars@[at as int]);
            }
        }
        return None;
    }
    let mut value = String::new();
    let mut next: usize = at + 1;
    assert forall|v: Seq<char>| #[trigger]
        occurs_at(chars@, json_string(v), at as int) implies v.take(0) == value@ && next == at + 1
        + json_escaped(v.take(0)).len() by {
        assert(v.take(0) =~= Seq::<char>::empty());
    }
    while next < chars.len()
        invariant
            at < next <= chars@.len(),
            forall|v: Seq<char>| #[trigger]
                occurs_at(chars@, json_string(v), at as int) ==> value@.len() <= v.len() && v.take(
                    value@.len() as int,
                ) == value@ && next == at + 1 + json_escaped(value@).len(),
        decreases chars.len() - next,
    {
        if chars[next] == '"' {
            assert forall|v: Seq<char>| #[trigger]
                occurs_at(chars@, json_string(v), at as int) implies value@ == v && next + 1 == at
                + json_string(v).len() by {
                let k = value@.len() as int;
                let whole = json_string(v);
                assert(chars@.subrange(at as int, at + whole.len()) == whole);
                if k < v.len() {
                    lemma_escaped_prefix(v, k);
                    lemma_escape_decodes(v[k], v[k]);
                    let inner = json_escaped(v);
                    let from = json_escaped(v.take(k)).len() as int;
                    assert(inner.subrange(from, from + json_escape(v[k]).len())[0] == json_escape(
                        v[k],
                    )[0]);
                    assert(inner[from] == whole[1 + from]);
                    assert(whole[1 + from] == chars@[at + 1 + from]);
                } else {
                    assert(v.take(k) =~= v);
                }
            }
            return Some((value, next + 1));
        }
        match read_json_char(chars, next) {
            Some((c, after)) => {
                assert forall|v: Seq<char>| #[trigger]
                    occurs_at(chars@, json_string(v), at as int) implies value@.len() + 1
                    <= v.len() && v.take((value@.len() + 1) as int) == value@.push(c) && after == at + 1
                    + json_escaped(value@.push(c)).len() by {
                    lemma_next_char(chars@, at as int, v, value@, next as int, c);
                }
                value.push(c);
                next = after;
            },
            None => {
                assert forall|v: Seq<char>| !(#[trigger] occurs_at(
                    chars@,
                    json_string(v),
                    at as int,
                )) by {
                    if occurs_at(chars@, json_string(v), at as int) {
                        lemma_next_occurs(chars@, at as int, v, value@, next as int);
                    }
                }
                return None;
            },
        }
    }
    assert forall|v: Seq<char>| !(#[trigger] occurs_at(chars@, json_string(v), at as int)) by {
        if occurs_at(chars@, json_string(v), at as int) {
            let k = value@.len() as int;
            if k < v.len() {
                lemma_escaped_prefix(v, k);
                lemma_escape_decodes(v[k], v[k]);
            } else {
                assert(v.take(k) =~= v);
            }
        }
    }
    None
}

/// Past the part of `v` that was read, short of the closing quote, the next escape stands.
proof fn lemma_next_occurs(chars: Seq<char>, at: int, v: Seq<char>, read: Seq<char>, next: int)
    requires
        occurs_at(chars, json_string(v), at),
        read.len() <= v.len(),
        v.take(read.len() as int) == read,
        next == at + 1 + json_escaped(read).len(),
        next < chars.len(),
        chars[next] != '"',
    ensures
        read.len() < v.len(),
        occurs_at(chars, json_escape(v[read.len() as int]), next),
{
    let k = read.len() as int;
    let whole = json_string(v);
    assert(chars.subrange(at, at + whole.len()) == whole);
    if k == v.len() {
        assert(v.take(k) =~= v);
        assert(whole[(1 + json_escaped(v).len()) as int] == '"');
        assert(chars[next] == whole[next - at]);
    } else {
        lemma_escaped_prefix(v, k);
        let inner = json_escaped(v);
        let from = json_escaped(read).len() as int;
        let escape = json_escape(v[k]);
        assert(inner.subrange(from, from + escape.len()) == escape);
        assert forall|i: int| 0 <= i < escape.len() implies chars.subrange(
            next,
            next + escape.len(),
        )[i] == escape[i] by {
            assert(inner[from + i] == inner.subrange(from, from + escape.len())[i]);
            assert(whole[1 + from + i] == inner[from + i]);
            assert(chars[next + i] == whole[1 + from + i]);
        }
        assert(chars.subrange(next, next + escape.len()) =~= escape);
    }
}

proof fn lemma_next_char(
    chars: Seq<char>,
    at: int,
    v: Seq<char>,
    read: Seq<char>,
    next: int,
    c: char,
)
    requires
        occurs_at(chars, json_string(v), at),
        read.len() <= v.len(),
        v.take(read.len() as int) == read,
        next == at + 1 + json_escaped(read).len(),
        next < chars.len(),
        chars[next] != '"',
        occurs_at(chars, json_escape(c), next),
    ensures
        read.len() < v.len(),
        v.take((read.len() + 1) as int) == read.push(c),
        json_escaped(read.push(c)).len() == json_escaped(read).len() + json_escape(c).len(),
{
    lemma_next_occurs(chars, at, v, read, next);
    lemma_escapes_at(chars, next, c, v[read.len() as int]);
    assert(v.take((read.len() + 1) as int) =~= read.push(c));
    assert(read.push(c).drop_last() =~= read);
}

/// At one place JSON wrote one string.
pub proof fn lemma_json_string_unique(chars: Seq<char>, at: int, v: Seq<char>, w: Seq<char>)
    requires
        occurs_at(chars, json_string(v), at),
        occurs_at(chars, json_string(w), at),
    ensures
        v == w,
{
    lemma_json_string_agrees(chars, at, v, w, v.len() as int);
    lemma_json_string_agrees(chars, at, w, v, w.len() as int);
    assert(v.take(v.len() as int) =~= v);
    assert(w.take(w.len() as int) =~= w);
}

proof fn lemma_json_string_agrees(
    chars: Seq<char>,
    at: int,
    v: Seq<char>,
    w: Seq<char>,
    k: int,
)
    requires
        occurs_at(chars, json_string(v), at),
        occurs_at(chars, json_string(w), at),
        0 <= k <= v.len(),
    ensures
        k <= w.len(),
        v.take(k) == w.take(k),
    decreases k,
{
    if k == 0 {
        assert(v.take(0) =~= w.take(0));
    } else {
        lemma_json_string_agrees(chars, at, v, w, k - 1);
        let read = v.take(k - 1);
        let next = at + 1 + json_escaped(read).len();
        lemma_escaped_prefix(v, k - 1);
        lemma_escape_decodes(v[k - 1], v[k - 1]);
        let whole = json_string(v);
        let inner = json_escaped(v);
        let from = json_escaped(read).len() as int;
        let escape = json_escape(v[k - 1]);
        assert(chars.subrange(at, at + whole.len()) == whole);
        assert(inner.subrange(from, from + escape.len()) == escape);
        assert forall|i: int| 0 <= i < escape.len() implies chars.subrange(
            next,
            next + escape.len(),
        )[i] == escape[i] by {
            assert(inner[from + i] == inner.subrange(from, from + escape.len())[i]);
            assert(whole[1 + from + i] == inner[from + i]);
            assert(chars[next + i] == whole[1 + from + i]);
        }
        assert(chars.subrange(next, next + escape.len()) =~= escape);
        assert(chars[next] == chars.subrange(next, next + escape.len())[0]);
        lemma_next_char(chars, at, w, w.take(k - 1), next, v[k - 1]);
        assert(v.take(k) =~= read.push(v[k - 1]));
    }
}

} // verus!
