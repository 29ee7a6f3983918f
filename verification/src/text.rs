//! Text as sequences of characters: comparing, splitting, trimming and numbers.

use vstd::prelude::*;
use vstd::string::*;

verus! {

/// Appends one character, as [`String::push`] does.
pub assume_specification[ String::push ](text: &mut String, c: char)
    ensures
        final(text)@ == old(text)@.push(c),
;

/// The code point of `c`.
pub fn code_point(c: char) -> (code: u32)
    ensures
        code as int == c as int,
        code <= 0x10FFFF,
{
    c as u32
}

/// The characters of `s`, in order.
pub fn chars_of(s: &str) -> (chars: Vec<char>)
    ensures
        chars@ == s@,
{
    let mut chars: Vec<char> = Vec::new();
    for c in it: s.chars()
        invariant
            it.seq() == s@,
            chars@ == s@.take(it.index() as int),
    {
        chars.push(c);
    }
    chars
}

/// Whether the two texts hold the same characters.
pub fn same_text(a: &str, b: &str) -> (same: bool)
    ensures
        same == (a@ == b@),
{
    let x = chars_of(a);
    let y = chars_of(b);
    if x.len() != y.len() {
        return false;
    }
    let mut i: usize = 0;
    while i < x.len()
        invariant
            i <= x@.len() == y@.len(),
            x@ == a@,
            y@ == b@,
            forall|k: int| 0 <= k < i ==> x@[k] == y@[k],
        decreases x.len() - i,
    {
        if x[i] != y[i] {
            return false;
        }
        i += 1;
    }
    assert(x@ =~= y@);
    true
}

/// Texts in the order of their characters' code points, a prefix first: the order in which
/// std sorts strings.
pub open spec fn text_le(a: Seq<char>, b: Seq<char>) -> bool
    decreases a.len(),
{
    if a.len() == 0 {
        true
    } else if b.len() == 0 {
        false
    } else if a[0] != b[0] {
        (a[0] as int) < (b[0] as int)
    } else {
        text_le(a.drop_first(), b.drop_first())
    }
}

pub proof fn lemma_text_le_reflexive(a: Seq<char>)
    ensures
        text_le(a, a),
    decreases a.len(),
{
    if a.len() > 0 {
        lemma_text_le_reflexive(a.drop_first());
    }
}

pub proof fn lemma_text_le_total(a: Seq<char>, b: Seq<char>)
    ensures
        text_le(a, b) || text_le(b, a),
    decreases a.len(),
{
    if a.len() > 0 && b.len() > 0 && a[0] == b[0] {
        lemma_text_le_total(a.drop_first(), b.drop_first());
    }
}

pub proof fn lemma_text_le_antisymmetric(a: Seq<char>, b: Seq<char>)
    requires
        text_le(a, b),
        text_le(b, a),
    ensures
        a == b,
    decreases a.len(),
{
    if a.len() == 0 || b.len() == 0 {
        assert(a =~= b);
    } else {
        lemma_text_le_antisymmetric(a.drop_first(), b.drop_first());
        assert(a =~= seq![a[0]] + a.drop_first());
        assert(b =~= seq![b[0]] + b.drop_first());
    }
}

pub proof fn lemma_text_le_transitive(a: Seq<char>, b: Seq<char>, c: Seq<char>)
    requires
        text_le(a, b),
        text_le(b, c),
    ensures
        text_le(a, c),
    decreases a.len(),
{
    if a.len() > 0 && b.len() > 0 && c.len() > 0 && a[0] == b[0] && b[0] == c[0] {
        lemma_text_le_transitive(a.drop_first(), b.drop_first(), c.drop_first());
    }
}

/// Whether `a` does not come after `b`.
pub fn text_not_after(a: &str, b: &str) -> (le: bool)
    ensures
        le == text_le(a@, b@),
{
    let x = chars_of(a);
    let y = chars_of(b);
    let mut i: usize = 0;
    assert(a@.skip(0) =~= a@);
    assert(b@.skip(0) =~= b@);
    loop
        invariant
            x@ == a@,
            y@ == b@,
            i <= x@.len(),
            i <= y@.len(),
            text_le(a@, b@) == text_le(a@.skip(i as int), b@.skip(i as int)),
        decreases x@.len() - i,
    {
        if i == x.len() {
            return true;
        }
        if i == y.len() {
            return false;
        }
        if x[i] != y[i] {
            return code_point(x[i]) < code_point(y[i]);
        }
        assert(a@.skip(i as int).drop_first() =~= a@.skip(i + 1));
        assert(b@.skip(i as int).drop_first() =~= b@.skip(i + 1));
        i += 1;
    }
}

/// Whether `pattern` stands in `s` at position `at`.
pub open spec fn occurs_at(s: Seq<char>, pattern: Seq<char>, at: int) -> bool {
    0 <= at && at + pattern.len() <= s.len() && s.subrange(at, at + pattern.len()) == pattern
}

/// Whether `pattern` stands anywhere in `s`.
pub open spec fn occurs(s: Seq<char>, pattern: Seq<char>) -> bool {
    exists|at: int| occurs_at(s, pattern, at)
}

/// Whether `pattern` stands in `chars` at position `at`.
pub fn occurs_here(chars: &Vec<char>, pattern: &Vec<char>, at: usize) -> (here: bool)
    requires
        at <= chars@.len(),
    ensures
        here == occurs_at(chars@, pattern@, at as int),
{
    if chars.len() - at < pattern.len() {
        return false;
    }
    let mut i: usize = 0;
    while i < pattern.len()
        invariant
            at + pattern@.len() <= chars.len(),
            i <= pattern@.len(),
            forall|k: int| 0 <= k < i ==> pattern@[k] == chars@[at + k],
        decreases pattern.len() - i,
    {
        if pattern[i] != chars[at + i] {
            assert(chars@.subrange(at as int, at + pattern@.len())[i as int] != pattern@[i as int]);
            return false;
        }
        i += 1;
    }
    assert(chars@.subrange(at as int, at + pattern@.len()) =~= pattern@);
    true
}

/// The first position at which `pattern` stands in `s`.
pub fn find_text(s: &str, pattern: &str) -> (found: Option<usize>)
    ensures
        match found {
            Some(at) => occurs_at(s@, pattern@, at as int)
                && forall|k: int| 0 <= k < at ==> !occurs_at(s@, pattern@, k),
            None => !occurs(s@, pattern@),
        },
{
    let chars = chars_of(s);
    let wanted = chars_of(pattern);
    let mut at: usize = 0;
    while at < chars.len()
        invariant
            chars@ == s@,
            wanted@ == pattern@,
            at <= chars@.len(),
            forall|k: int| 0 <= k < at ==> !occurs_at(s@, pattern@, k),
        decreases chars.len() - at,
    {
        if occurs_here(&chars, &wanted, at) {
            return Some(at);
        }
        at += 1;
    }
    if occurs_here(&chars, &wanted, at) {
        return Some(at);
    }
    None
}

/// Whether `pattern` stands anywhere in `s`.
pub fn contains_text(s: &str, pattern: &str) -> (found: bool)
    ensures
        found == occurs(s@, pattern@),
{
    find_text(s, pattern).is_some()
}

/// Whether `s` begins with `prefix`.
pub fn starts_with_text(s: &str, prefix: &str) -> (starts: bool)
    ensures
        starts == prefix@.is_prefix_of(s@),
{
    let chars = chars_of(s);
    let wanted = chars_of(prefix);
    occurs_here(&chars, &wanted, 0)
}

/// Whether `s` ends with `suffix`.
pub fn ends_with_text(s: &str, suffix: &str) -> (ends: bool)
    ensures
        ends == suffix@.is_suffix_of(s@),
{
    let chars = chars_of(s);
    let wanted = chars_of(suffix);
    if wanted.len() > chars.len() {
        return false;
    }
    occurs_here(&chars, &wanted, chars.len() - wanted.len())
}

/// What follows `prefix` in `s`, where `s` begins with it.
pub open spec fn after_prefix(s: Seq<char>, prefix: Seq<char>) -> Option<Seq<char>> {
    if prefix.is_prefix_of(s) {
        Some(s.skip(prefix.len() as int))
    } else {
        None
    }
}

/// What precedes `suffix` in `s`, where `s` ends with it.
pub open spec fn before_suffix(s: Seq<char>, suffix: Seq<char>) -> Option<Seq<char>> {
    if suffix.is_suffix_of(s) {
        Some(s.take(s.len() - suffix.len()))
    } else {
        None
    }
}

/// A text's view behind an `Option`.
pub open spec fn opt_view(s: Option<&str>) -> Option<Seq<char>> {
    match s {
        Some(text) => Some(text@),
        None => None,
    }
}

/// An owned text's view behind an `Option`.
pub open spec fn opt_string_view(s: Option<String>) -> Option<Seq<char>> {
    match s {
        Some(text) => Some(text@),
        None => None,
    }
}

pub fn strip_prefix_text<'a>(s: &'a str, prefix: &str) -> (rest: Option<&'a str>)
    ensures
        opt_view(rest) == after_prefix(s@, prefix@),
{
    if !starts_with_text(s, prefix) {
        return None;
    }
    let from: usize = prefix.unicode_len();
    let to: usize = s.unicode_len();
    let rest = s.substring_char(from, to);
    assert(rest@ =~= s@.skip(prefix@.len() as int));
    Some(rest)
}

pub fn strip_suffix_text<'a>(s: &'a str, suffix: &str) -> (rest: Option<&'a str>)
    ensures
        opt_view(rest) == before_suffix(s@, suffix@),
{
    if !ends_with_text(s, suffix) {
        return None;
    }
    let to: usize = s.unicode_len() - suffix.unicode_len();
    let rest = s.substring_char(0, to);
    assert(rest@ =~= s@.take(s@.len() - suffix@.len()));
    Some(rest)
}

/// The first position of `c` in `s`, or the length of `s`.
pub open spec fn first_of(s: Seq<char>, c: char) -> int
    decreases s.len(),
{
    if s.len() == 0 || s[0] == c {
        0
    } else {
        1 + first_of(s.drop_first(), c)
    }
}

/// The last position of `c` in `s`, or -1.
pub open spec fn last_of(s: Seq<char>, c: char) -> int
    decreases s.len(),
{
    if s.len() == 0 || s.last() == c {
        s.len() - 1
    } else {
        last_of(s.drop_last(), c)
    }
}

pub proof fn lemma_first_of(s: Seq<char>, c: char, at: int)
    requires
        0 <= at <= s.len(),
        forall|k: int| 0 <= k < at ==> s[k] != c,
        at < s.len() ==> s[at] == c,
    ensures
        first_of(s, c) == at,
    decreases s.len(),
{
    if at > 0 {
        assert(forall|k: int| 0 <= k < at - 1 ==> s.drop_first()[k] == s[k + 1]);
        lemma_first_of(s.drop_first(), c, at - 1);
    }
}

pub proof fn lemma_first_of_bounds(s: Seq<char>, c: char)
    ensures
        0 <= first_of(s, c) <= s.len(),
        forall|k: int| 0 <= k < first_of(s, c) ==> s[k] != c,
        first_of(s, c) < s.len() ==> s[first_of(s, c)] == c,
        s.contains(c) == (first_of(s, c) < s.len()),
    decreases s.len(),
{
    if s.len() > 0 && s[0] != c {
        let rest = s.drop_first();
        lemma_first_of_bounds(rest, c);
        assert forall|k: int| 0 <= k < first_of(s, c) implies s[k] != c by {
            if k > 0 {
                assert(rest[k - 1] == s[k]);
            }
        }
        if s.contains(c) {
            let k = choose|k: int| 0 <= k < s.len() && s[k] == c;
            assert(rest[k - 1] == c);
        }
    }
}

pub proof fn lemma_last_of(s: Seq<char>, c: char, at: int)
    requires
        -1 <= at < s.len(),
        forall|k: int| at < k < s.len() ==> s[k] != c,
        at >= 0 ==> s[at] == c,
    ensures
        last_of(s, c) == at,
    decreases s.len(),
{
    if at < s.len() - 1 {
        lemma_last_of(s.drop_last(), c, at);
    }
}

/// The position of the first `c` in `s`, if there is one.
pub fn find_char(s: &str, c: char) -> (found: Option<usize>)
    ensures
        match found {
            Some(at) => at < s@.len() && at == first_of(s@, c) && s@[at as int] == c,
            None => first_of(s@, c) == s@.len() && !s@.contains(c),
        },
{
    let chars = chars_of(s);
    let mut at: usize = 0;
    while at < chars.len()
        invariant
            chars@ == s@,
            at <= chars@.len(),
            forall|k: int| 0 <= k < at ==> s@[k] != c,
        decreases chars.len() - at,
    {
        if chars[at] == c {
            proof {
                lemma_first_of(s@, c, at as int);
            }
            return Some(at);
        }
        at += 1;
    }
    proof {
        lemma_first_of(s@, c, at as int);
    }
    None
}

/// The position of the last `c` in `s`, if there is one.
pub fn find_last_char(s: &str, c: char) -> (found: Option<usize>)
    ensures
        match found {
            Some(at) => at < s@.len() && at == last_of(s@, c) && s@[at as int] == c,
            None => last_of(s@, c) == -1 && !s@.contains(c),
        },
{
    let chars = chars_of(s);
    let mut to: usize = chars.len();
    while to > 0
        invariant
            chars@ == s@,
            to <= chars@.len(),
            forall|k: int| to <= k < chars@.len() ==> s@[k] != c,
        decreases to,
    {
        if chars[to - 1] == c {
            proof {
                lemma_last_of(s@, c, to - 1);
            }
            return Some(to - 1);
        }
        to -= 1;
    }
    proof {
        lemma_last_of(s@, c, -1);
    }
    None
}

/// The two parts of `s` around its first `c`.
pub open spec fn split_at_first(s: Seq<char>, c: char) -> Option<(Seq<char>, Seq<char>)> {
    if s.contains(c) {
        Some((s.take(first_of(s, c)), s.skip(first_of(s, c) + 1)))
    } else {
        None
    }
}

/// The two parts of `s` around its last `c`.
pub open spec fn split_at_last(s: Seq<char>, c: char) -> Option<(Seq<char>, Seq<char>)> {
    if s.contains(c) {
        Some((s.take(last_of(s, c)), s.skip(last_of(s, c) + 1)))
    } else {
        None
    }
}

/// Two texts' views behind an `Option`.
pub open spec fn opt_pair_view(parts: Option<(&str, &str)>) -> Option<(Seq<char>, Seq<char>)> {
    match parts {
        Some((a, b)) => Some((a@, b@)),
        None => None,
    }
}

fn split_around<'a>(s: &'a str, at: usize) -> (parts: (&'a str, &'a str))
    requires
        at < s@.len(),
    ensures
        parts.0@ == s@.take(at as int),
        parts.1@ == s@.skip(at + 1),
{
    let len: usize = s.unicode_len();
    let before = s.substring_char(0, at);
    let after = s.substring_char(at + 1, len);
    assert(before@ =~= s@.take(at as int));
    assert(after@ =~= s@.skip(at + 1));
    (before, after)
}

pub fn split_once_char<'a>(s: &'a str, c: char) -> (parts: Option<(&'a str, &'a str)>)
    ensures
        opt_pair_view(parts) == split_at_first(s@, c),
{
    match find_char(s, c) {
        Some(at) => {
            assert(s@.contains(c));
            Some(split_around(s, at))
        },
        None => None,
    }
}

pub fn rsplit_once_char<'a>(s: &'a str, c: char) -> (parts: Option<(&'a str, &'a str)>)
    ensures
        opt_pair_view(parts) == split_at_last(s@, c),
{
    match find_last_char(s, c) {
        Some(at) => {
            assert(s@.contains(c));
            Some(split_around(s, at))
        },
        None => None,
    }
}

} // verus!
