//! Texts as messages quote them.

use vstd::prelude::*;

verus! {

/// How std's `Debug` formats a text: in double quotes, with escapes.
pub uninterp spec fn debug_quoted(text: Seq<char>) -> Seq<char>;

/// Formats `text` with std's `Debug` for `str`. The outcome depends on the text alone; which
/// characters it escapes is left to std.
#[verifier::external_body]
pub(crate) fn quote_for_debug(text: &str) -> (quoted: String)
    ensures
        quoted@ == debug_quoted(text@),
{
    format!("{:?}", text)
}

} // verus!
