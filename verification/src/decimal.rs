//! Whole numbers written in decimal.

use crate::text::{chars_of, code_point};
use vstd::prelude::*;

verus! {

/// The character of one decimal digit.
pub open spec fn digit_char(d: nat) -> char {
    ('0' as int + d) as char
}

/// A number in decimal, without leading zeros.
pub open spec fn decimal_text(n: nat) -> Seq<char>
    decreases n,
{
    if n < 10 {
        seq![digit_char(n)]
    } else {
        decimal_text(n / 10).push(digit_char(n % 10))
    }
}

fn digit(d: u8) -> (c: char)
    requires
        d < 10,
    ensures
        c == digit_char(d as nat),
{
    (48u8 + d) as char
}

/// Appends `n` in decimal.
pub fn push_decimal(text: &mut String, n: u64)
    ensures
        final(text)@ == old(text)@ + decimal_text(n as nat),
    decreases n,
{
    if n >= 10 {
        push_decimal(text, n / 10);
    }
    text.push(digit((n % 10) as u8));
    assert(text@ =~= old(text)@ + decimal_text(n as nat));
}

/// Whether `c` is an ASCII digit.
pub open spec fn is_digit(c: char) -> bool {
    '0' as int <= c as int <= '9' as int
}

/// The number that `digits` writes.
pub open spec fn decimal_value(digits: Seq<char>) -> nat
    decreases digits.len(),
{
    if digits.len() == 0 {
        0
    } else {
        (decimal_value(digits.drop_last()) * 10 + (digits.last() as int - '0' as int)) as nat
    }
}

/// The digits of a written number, behind the `+` that may come before them.
pub open spec fn unsigned_digits(s: Seq<char>) -> Seq<char> {
    if s.len() > 0 && s[0] == '+' {
        s.drop_first()
    } else {
        s
    }
}

/// The 32-bit number that `s` writes: an optional `+`, then at least one digit and nothing else.
pub open spec fn u32_of_text(s: Seq<char>) -> Option<u32> {
    let digits = unsigned_digits(s);
    if digits.len() > 0 && (forall|k: int| 0 <= k < digits.len() ==> is_digit(digits[k]))
        && decimal_value(digits) <= u32::MAX {
        Some(decimal_value(digits) as u32)
    } else {
        None
    }
}

proof fn lemma_decimal_value_grows(digits: Seq<char>, k: int)
    requires
        0 <= k <= digits.len(),
        forall|j: int| 0 <= j < digits.len() ==> is_digit(digits[j]),
    ensures
        decimal_value(digits.take(k)) <= decimal_value(digits),
    decreases digits.len() - k,
{
    if k == digits.len() {
        assert(digits.take(k) =~= digits);
    } else {
        assert(digits.take(k + 1).drop_last() =~= digits.take(k));
        lemma_decimal_value_grows(digits, k + 1);
    }
}

/// The 32-bit number that `s` writes, as `u32::from_str` reads it.
pub fn parse_u32(s: &str) -> (n: Option<u32>)
    ensures
        n == u32_of_text(s@),
{
    let chars = chars_of(s);
    let mut i: usize = 0;
    if chars.len() > 0 && chars[0] == '+' {
        i = 1;
    }
    let ghost digits = unsigned_digits(s@);
    let ghost from: int = i as int;
    assert(digits =~= s@.skip(from));
    if i == chars.len() {
        return None;
    }
    let mut value: u64 = 0;
    while i < chars.len()
        invariant
            chars@ == s@,
            0 <= from <= i <= chars@.len(),
            from < chars@.len(),
            digits == unsigned_digits(s@),
            digits =~= s@.skip(from),
            forall|k: int| 0 <= k < i - from ==> is_digit(digits[k]),
            value == decimal_value(digits.take(i - from)),
            value <= u32::MAX,
        decreases chars.len() - i,
    {
        let code: u32 = code_point(chars[i]);
        assert(digits[i - from] == s@[i as int]);
        if code < 48 || code > 57 {
            assert(!is_digit(digits[i - from]));
            return None;
        }
        assert(digits.take(i + 1 - from).drop_last() =~= digits.take(i - from));
        value = value * 10 + (code - 48) as u64;
        assert(value == decimal_value(digits.take(i + 1 - from)));
        if value > u32::MAX as u64 {
            proof {
                if forall|k: int| 0 <= k < digits.len() ==> is_digit(digits[k]) {
                    lemma_decimal_value_grows(digits, i + 1 - from);
                }
            }
            return None;
        }
        i += 1;
    }
    assert(digits.take(i - from) =~= digits);
    Some(value as u32)
}

/// A number in decimal is digits that write it.
pub proof fn lemma_decimal_text(n: nat)
    ensures
        decimal_text(n).len() > 0,
        forall|k: int| 0 <= k < decimal_text(n).len() ==> is_digit(#[trigger] decimal_text(n)[k]),
        decimal_value(decimal_text(n)) == n,
    decreases n,
{
    let text = decimal_text(n);
    if n < 10 {
        assert(text.drop_last() =~= Seq::<char>::empty());
        assert(decimal_value(text.drop_last()) == 0);
    } else {
        lemma_decimal_text(n / 10);
        let before = decimal_text(n / 10);
        assert(text.drop_last() =~= before);
        assert forall|k: int| 0 <= k < text.len() implies is_digit(#[trigger] text[k]) by {
            if k < before.len() {
                assert(text[k] == before[k]);
            }
        }
    }
}

/// A 32-bit number in decimal is read as itself.
pub proof fn decimal_text_reads_back(n: u32)
    ensures
        u32_of_text(decimal_text(n as nat)) == Some(n),
{
    lemma_decimal_text(n as nat);
    assert(is_digit(decimal_text(n as nat)[0]));
}

/// What std says of a text that is no `u32`.
pub uninterp spec fn int_error_text(text: Seq<char>) -> Seq<char>;

/// Calls [`str::parse`] for a `u32` and gives the error as it displays itself, or nothing where
/// there is none. The outcome depends on the text alone; the words are left to std.
#[verifier::external_body]
pub(crate) fn describe_int_error(text: &str) -> (words: String)
    ensures
        words@ == int_error_text(text@),
{
    match text.parse::<u32>() {
        Ok(_) => String::new(),
        Err(error) => error.to_string(),
    }
}

} // verus!
