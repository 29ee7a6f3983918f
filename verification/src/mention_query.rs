//! The line ranges and the queries of mention URLs.

use crate::decimal::{parse_u32, u32_of_text};
use crate::mention::LineRange;
use crate::mention_error::MentionErrorKind;
use crate::mention_url::pair_views;
use crate::text::{
    after_prefix, opt_string_view, same_text, split_at_first, split_once_char, strip_prefix_text,
};
use vstd::prelude::*;
use vstd::string::*;

verus! {

type Pairs = Seq<(Seq<char>, Seq<char>)>;

/// `s` without `prefix`, where it begins with it.
pub open spec fn without_prefix(s: Seq<char>, prefix: Seq<char>) -> Seq<char> {
    match after_prefix(s, prefix) {
        Some(rest) => rest,
        None => s,
    }
}

fn drop_prefix<'a>(s: &'a str, prefix: &str) -> (rest: &'a str)
    ensures
        rest@ == without_prefix(s@, prefix@),
{
    match strip_prefix_text(s, prefix) {
        Some(rest) => rest,
        None => s,
    }
}

/// The texts of both ends of a line range: `5:9`, `5-9`, `5-L9` or `5`, with an `L` before them
/// or without.
pub open spec fn line_range_ends(fragment: Seq<char>) -> (Seq<char>, Seq<char>) {
    let range = without_prefix(fragment, "L"@);
    match split_at_first(range, ':') {
        Some(ends) => ends,
        None => match split_at_first(range, '-') {
            Some((start, end)) => (start, without_prefix(end, "L"@)),
            None => (range, range),
        },
    }
}

/// The line range that a fragment writes; its lines are counted from one, those of the range from
/// zero.
pub open spec fn line_range_of(fragment: Seq<char>) -> Result<LineRange, MentionErrorKind> {
    let (start, end) = line_range_ends(fragment);
    match (u32_of_text(start), u32_of_text(end)) {
        (None, _) => Err(MentionErrorKind::LineRangeStart),
        (Some(0), _) => Err(MentionErrorKind::LineNotOneBased),
        (Some(_), None) => Err(MentionErrorKind::LineRangeEnd),
        (Some(_), Some(0)) => Err(MentionErrorKind::LineNotOneBased),
        (Some(first), Some(last)) => Ok(
            LineRange { start: (first - 1) as u32, end: (last - 1) as u32 },
        ),
    }
}

/// The line range that a fragment writes.
pub fn parse_line_range(fragment: &str) -> (range: Result<LineRange, MentionErrorKind>)
    ensures
        range == line_range_of(fragment@),
{
    let range = drop_prefix(fragment, "L");
    let (start, end) = match split_once_char(range, ':') {
        Some(ends) => ends,
        None => match split_once_char(range, '-') {
            Some((start, end)) => (start, drop_prefix(end, "L")),
            None => (range, range),
        },
    };
    let first: u32 = match parse_u32(start) {
        Some(first) => first,
        None => return Err(MentionErrorKind::LineRangeStart),
    };
    if first == 0 {
        return Err(MentionErrorKind::LineNotOneBased);
    }
    let last: u32 = match parse_u32(end) {
        Some(last) => last,
        None => return Err(MentionErrorKind::LineRangeEnd),
    };
    if last == 0 {
        return Err(MentionErrorKind::LineNotOneBased);
    }
    Ok(LineRange { start: first - 1, end: last - 1 })
}

/// The first value under a name.
pub open spec fn query_value(pairs: Pairs, name: Seq<char>) -> Option<Seq<char>>
    decreases pairs.len(),
{
    if pairs.len() == 0 {
        None
    } else if pairs[0].0 == name {
        Some(pairs[0].1)
    } else {
        query_value(pairs.drop_first(), name)
    }
}

/// The first value under a name.
pub fn query_param(pairs: &Vec<(String, String)>, name: &str) -> (value: Option<String>)
    ensures
        opt_string_view(value) == query_value(pair_views(pairs@), name@),
{
    let ghost all = pair_views(pairs@);
    let mut i: usize = 0;
    assert(all.skip(0) =~= all);
    while i < pairs.len()
        invariant
            i <= pairs@.len(),
            all == pair_views(pairs@),
            query_value(all, name@) == query_value(all.skip(i as int), name@),
        decreases pairs.len() - i,
    {
        assert(all.skip(i as int)[0] == (pairs@[i as int].0@, pairs@[i as int].1@));
        assert(all.skip(i as int).drop_first() =~= all.skip(i + 1));
        if same_text(pairs[i].0.as_str(), name) {
            return Some(pairs[i].1.clone());
        }
        i += 1;
    }
    None
}

/// The value of a query that may hold one name alone.
pub open spec fn single_value(pairs: Pairs, name: Seq<char>) -> Result<
    Option<Seq<char>>,
    MentionErrorKind,
> {
    if pairs.len() == 0 {
        Ok(None)
    } else if pairs.len() > 1 {
        Err(MentionErrorKind::TooManyQueryPairs)
    } else if pairs[0].0 != name {
        Err(MentionErrorKind::InvalidQueryParameter)
    } else {
        Ok(Some(pairs[0].1))
    }
}

/// The view of a query's single value.
pub open spec fn single_view(value: Result<Option<String>, MentionErrorKind>) -> Result<
    Option<Seq<char>>,
    MentionErrorKind,
> {
    match value {
        Ok(value) => Ok(opt_string_view(value)),
        Err(kind) => Err(kind),
    }
}

/// The value of a query that may hold one name alone.
pub fn single_query_param(pairs: &Vec<(String, String)>, name: &str) -> (value: Result<
    Option<String>,
    MentionErrorKind,
>)
    ensures
        single_view(value) == single_value(pair_views(pairs@), name@),
{
    if pairs.len() == 0 {
        return Ok(None);
    }
    if pairs.len() > 1 {
        return Err(MentionErrorKind::TooManyQueryPairs);
    }
    assert(pair_views(pairs@)[0] == (pairs@[0].0@, pairs@[0].1@));
    if !same_text(pairs[0].0.as_str(), name) {
        return Err(MentionErrorKind::InvalidQueryParameter);
    }
    Ok(Some(pairs[0].1.clone()))
}

/// Whether a query has no names but these two.
pub open spec fn names_within(pairs: Pairs, a: Seq<char>, b: Seq<char>) -> bool {
    forall|i: int| 0 <= i < pairs.len() ==> (#[trigger] pairs[i]).0 == a || pairs[i].0 == b
}

/// Whether a query has no names but these two.
pub fn query_names_within(pairs: &Vec<(String, String)>, a: &str, b: &str) -> (within: bool)
    ensures
        within == names_within(pair_views(pairs@), a@, b@),
{
    let ghost all = pair_views(pairs@);
    let mut i: usize = 0;
    while i < pairs.len()
        invariant
            i <= pairs@.len(),
            all == pair_views(pairs@),
            forall|k: int| 0 <= k < i ==> (#[trigger] all[k]).0 == a@ || all[k].0 == b@,
        decreases pairs.len() - i,
    {
        assert(all[i as int] == (pairs@[i as int].0@, pairs@[i as int].1@));
        if !same_text(pairs[i].0.as_str(), a) && !same_text(pairs[i].0.as_str(), b) {
            assert(!(all[i as int].0 == a@ || all[i as int].0 == b@));
            return false;
        }
        i += 1;
    }
    true
}

/// The column that a text writes, counted from one, as one that is counted from zero.
pub open spec fn column_of(value: Option<Seq<char>>) -> Option<u32> {
    match value {
        Some(text) => match u32_of_text(text) {
            Some(n) => if n > 0 {
                Some((n - 1) as u32)
            } else {
                None
            },
            None => None,
        },
        None => None,
    }
}

/// The column under the name `column`, counted from zero.
pub fn query_column(pairs: &Vec<(String, String)>) -> (column: Option<u32>)
    ensures
        column == column_of(query_value(pair_views(pairs@), "column"@)),
{
    match query_param(pairs, "column") {
        Some(text) => match parse_u32(text.as_str()) {
            Some(n) => if n > 0 {
                Some(n - 1)
            } else {
                None
            },
            None => None,
        },
        None => None,
    }
}

} // verus!
