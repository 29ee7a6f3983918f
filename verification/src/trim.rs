//! White space at the ends of a text.

use crate::text::{chars_of, code_point};
use vstd::prelude::*;
use vstd::string::*;

verus! {

/// The characters with the Unicode property `White_Space`.
pub open spec fn is_white_space(c: char) -> bool {
    let code = c as int;
    ||| 0x09 <= code <= 0x0D
    ||| code == 0x20
    ||| code == 0x85
    ||| code == 0xA0
    ||| code == 0x1680
    ||| 0x2000 <= code <= 0x200A
    ||| code == 0x2028
    ||| code == 0x2029
    ||| code == 0x202F
    ||| code == 0x205F
    ||| code == 0x3000
}

/// Whether `c` is white space.
pub fn white_space(c: char) -> (white: bool)
    ensures
        white == is_white_space(c),
{
    let code: u32 = code_point(c);
    (0x09 <= code && code <= 0x0D) || code == 0x20 || code == 0x85 || code == 0xA0 || code == 0x1680
        || (0x2000 <= code && code <= 0x200A) || code == 0x2028 || code == 0x2029 || code == 0x202F
        || code == 0x205F || code == 0x3000
}

/// `s` without the white space at its start.
pub open spec fn trim_start(s: Seq<char>) -> Seq<char>
    decreases s.len(),
{
    if s.len() > 0 && is_white_space(s[0]) {
        trim_start(s.drop_first())
    } else {
        s
    }
}

/// `s` without the white space at its end.
pub open spec fn trim_end(s: Seq<char>) -> Seq<char>
    decreases s.len(),
{
    if s.len() > 0 && is_white_space(s.last()) {
        trim_end(s.drop_last())
    } else {
        s
    }
}

/// `s` without the white space at both ends.
pub open spec fn trimmed(s: Seq<char>) -> Seq<char> {
    trim_end(trim_start(s))
}

proof fn lemma_trim_start(s: Seq<char>, from: int)
    requires
        0 <= from <= s.len(),
        forall|k: int| 0 <= k < from ==> is_white_space(s[k]),
        from < s.len() ==> !is_white_space(s[from]),
    ensures
        trim_start(s) == s.skip(from),
    decreases from,
{
    if from == 0 {
        assert(s.skip(0) =~= s);
    } else {
        lemma_trim_start(s.drop_first(), from - 1);
        assert(s.drop_first().skip(from - 1) =~= s.skip(from));
    }
}

proof fn lemma_trim_end(s: Seq<char>, to: int)
    requires
        0 <= to <= s.len(),
        forall|k: int| to <= k < s.len() ==> is_white_space(s[k]),
        to > 0 ==> !is_white_space(s[to - 1]),
    ensures
        trim_end(s) == s.take(to),
    decreases s.len() - to,
{
    if to == s.len() {
        assert(s.take(to) =~= s);
    } else {
        lemma_trim_end(s.drop_last(), to);
        assert(s.drop_last().take(to) =~= s.take(to));
    }
}

/// A text of white space alone trims to nothing, and no other does.
pub proof fn lemma_trimmed_empty(s: Seq<char>)
    ensures
        (trimmed(s).len() == 0) == (forall|k: int| 0 <= k < s.len() ==> is_white_space(s[k])),
    decreases s.len(),
{
    if s.len() == 0 {
    } else if is_white_space(s[0]) {
        let rest = s.drop_first();
        lemma_trimmed_empty(rest);
        if forall|k: int| 0 <= k < rest.len() ==> is_white_space(rest[k]) {
            assert forall|k: int| 0 <= k < s.len() implies is_white_space(s[k]) by {
                if k > 0 {
                    assert(rest[k - 1] == s[k]);
                }
            }
        } else {
            let k = choose|k: int| 0 <= k < rest.len() && !is_white_space(rest[k]);
            assert(!is_white_space(s[k + 1]));
        }
    } else {
        lemma_trim_end_keeps(s);
    }
}

proof fn lemma_trim_end_keeps(s: Seq<char>)
    requires
        s.len() > 0,
        !is_white_space(s[0]),
    ensures
        trim_end(s).len() > 0,
    decreases s.len(),
{
    if is_white_space(s.last()) {
        lemma_trim_end_keeps(s.drop_last());
    }
}

/// `s` without the white space at both ends, as `str::trim` gives it.
pub fn trim_text(s: &str) -> (core: &str)
    ensures
        core@ == trimmed(s@),
{
    let chars = chars_of(s);
    let mut from: usize = 0;
    while from < chars.len() && white_space(chars[from])
        invariant
            chars@ == s@,
            from <= chars@.len(),
            forall|k: int| 0 <= k < from ==> is_white_space(s@[k]),
        decreases chars.len() - from,
    {
        from += 1;
    }
    let mut to: usize = chars.len();
    while to > from && white_space(chars[to - 1])
        invariant
            chars@ == s@,
            from <= to <= chars@.len(),
            forall|k: int| to <= k < s@.len() ==> is_white_space(s@[k]),
        decreases to,
    {
        to -= 1;
    }
    let core = s.substring_char(from, to);
    proof {
        lemma_trim_start(s@, from as int);
        lemma_trim_end(s@.skip(from as int), to - from);
        assert(s@.skip(from as int).take(to - from) =~= core@);
    }
    core
}

} // verus!
