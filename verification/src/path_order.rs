//! Slash-separated paths in the order of their components.

use crate::text::{chars_of, code_point};
use vstd::prelude::*;

verus! {

/// The rank of a character in a path: the separator comes before all others.
pub open spec fn path_rank(c: char) -> int {
    if c == '/' {
        -1
    } else {
        c as int
    }
}

/// Whether path `a` does not come after path `b`: by their components, each in the order of its
/// characters' code points.
pub open spec fn path_le(a: Seq<char>, b: Seq<char>) -> bool
    decreases a.len(),
{
    if a.len() == 0 {
        true
    } else if b.len() == 0 {
        false
    } else if a[0] != b[0] {
        path_rank(a[0]) < path_rank(b[0])
    } else {
        path_le(a.drop_first(), b.drop_first())
    }
}

proof fn lemma_path_rank(a: char, b: char)
    ensures
        path_rank(a) == path_rank(b) ==> a == b,
{
}

pub proof fn lemma_path_le_total(a: Seq<char>, b: Seq<char>)
    ensures
        path_le(a, b) || path_le(b, a),
    decreases a.len(),
{
    if a.len() > 0 && b.len() > 0 {
        lemma_path_rank(a[0], b[0]);
        if a[0] == b[0] {
            lemma_path_le_total(a.drop_first(), b.drop_first());
        }
    }
}

pub proof fn lemma_path_le_transitive(a: Seq<char>, b: Seq<char>, c: Seq<char>)
    requires
        path_le(a, b),
        path_le(b, c),
    ensures
        path_le(a, c),
    decreases a.len(),
{
    if a.len() > 0 && b.len() > 0 && c.len() > 0 {
        if a[0] == b[0] && b[0] == c[0] {
            lemma_path_le_transitive(a.drop_first(), b.drop_first(), c.drop_first());
        }
    }
}

/// Whether path `a` does not come after path `b`.
pub fn path_not_after(a: &str, b: &str) -> (le: bool)
    ensures
        le == path_le(a@, b@),
{
    let x = chars_of(a);
    let y = chars_of(b);
    let mut i: usize = 0;
    assert(a@.skip(0) =~= a@);
    assert(b@.skip(0) =~= b@);
    loop
        invariant
            x@ == a@,
            y@ == b@,
            i <= x@.len(),
            i <= y@.len(),
            path_le(a@, b@) == path_le(a@.skip(i as int), b@.skip(i as int)),
        decreases x@.len() - i,
    {
        if i == x.len() {
            return true;
        }
        if i == y.len() {
            return false;
        }
        let p: char = x[i];
        let q: char = y[i];
        if p != q {
            let below: u32 = code_point(p);
            let above: u32 = code_point(q);
            return p == '/' || (q != '/' && below < above);
        }
        assert(a@.skip(i as int).drop_first() =~= a@.skip(i + 1));
        assert(b@.skip(i as int).drop_first() =~= b@.skip(i + 1));
        i += 1;
    }
}

} // verus!
