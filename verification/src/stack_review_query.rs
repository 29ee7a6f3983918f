//! The queries of URLs that mention a review.

use crate::decimal::{parse_u32, u32_of_text};
use crate::mention::{
    mention_side_word, LineRange, MentionUri, MentionView, StackReviewMentionSide, StackReviewView,
};
use crate::mention_error::{plain, plain_error, MentionError, MentionErrorKind, MentionErrorView};
use crate::mention_path::{is_plain_relative_path, plain_relative_path};
use crate::mention_query::{query_param, query_value};
use crate::mention_url::{pair_views, UrlParts, UrlView};
use crate::text::{opt_string_view, same_text};
use vstd::prelude::*;
use vstd::string::*;

verus! {

type Pairs = Seq<(Seq<char>, Seq<char>)>;

/// Whether a name may stand in a review's query.
pub open spec fn is_review_name(name: Seq<char>) -> bool {
    ||| name == "storage_key"@
    ||| name == "project"@
    ||| name == "base"@
    ||| name == "head"@
    ||| name == "path"@
    ||| name == "side"@
    ||| name == "line_start"@
    ||| name == "line_end"@
    ||| name == "selected"@
    ||| name == "root"@
}

fn review_name(name: &str) -> (known: bool)
    ensures
        known == is_review_name(name@),
{
    same_text(name, "storage_key") || same_text(name, "project") || same_text(name, "base")
        || same_text(name, "head") || same_text(name, "path") || same_text(name, "side")
        || same_text(name, "line_start") || same_text(name, "line_end") || same_text(
        name,
        "selected",
    ) || same_text(name, "root")
}

/// Whether a name stands among the first `to` of a query.
pub open spec fn named_before(pairs: Pairs, name: Seq<char>, to: int) -> bool {
    exists|k: int| 0 <= k < to && (#[trigger] pairs[k]).0 == name
}

/// What is wrong with the first name, from `from` on, that is unknown or stood before.
pub open spec fn name_problem(pairs: Pairs, from: int) -> Option<MentionErrorView>
    decreases pairs.len() - from,
{
    if from < 0 || from >= pairs.len() {
        None
    } else if !is_review_name(pairs[from].0) {
        Some(
            MentionErrorView {
                kind: MentionErrorKind::UnknownStackReviewParameter,
                detail: pairs[from].0,
            },
        )
    } else if named_before(pairs, pairs[from].0, from) {
        Some(
            MentionErrorView {
                kind: MentionErrorKind::DuplicateStackReviewParameter,
                detail: pairs[from].0,
            },
        )
    } else {
        name_problem(pairs, from + 1)
    }
}

/// The range of lines that a review's query gives, counted from one.
pub open spec fn review_lines(start: Option<Seq<char>>, end: Option<Seq<char>>) -> Result<
    Option<LineRange>,
    MentionErrorKind,
> {
    match (start, end) {
        (None, None) => Ok(None),
        (Some(start), Some(end)) => match (u32_of_text(start), u32_of_text(end)) {
            (Some(first), Some(last)) => if first == 0 || last == 0 {
                Err(MentionErrorKind::StackReviewLineNotOneBased)
            } else if first > last {
                Err(MentionErrorKind::StackReviewLinesReversed)
            } else {
                Ok(Some(LineRange { start: first, end: last }))
            },
            _ => Err(MentionErrorKind::InvalidStackReviewLine),
        },
        _ => Err(MentionErrorKind::IncompleteStackReviewLines),
    }
}

fn read_review_lines(start: &Option<String>, end: &Option<String>) -> (lines: Result<
    Option<LineRange>,
    MentionError,
>)
    ensures
        match (lines, review_lines(opt_string_view(*start), opt_string_view(*end))) {
            (Ok(lines), Ok(range)) => lines == range,
            (Err(error), Err(kind)) => {
                &&& error.kind == kind
                &&& error.detail@ == if kind is InvalidStackReviewLine {
                    bad_line(opt_string_view(*start)->0, opt_string_view(*end)->0)
                } else {
                    Seq::empty()
                }
            },
            _ => false,
        },
{
    match (start, end) {
        (None, None) => Ok(None),
        (Some(start), Some(end)) => match (parse_u32(start.as_str()), parse_u32(end.as_str())) {
            (Some(first), Some(last)) => if first == 0 || last == 0 {
                Err(plain(MentionErrorKind::StackReviewLineNotOneBased))
            } else if first > last {
                Err(plain(MentionErrorKind::StackReviewLinesReversed))
            } else {
                Ok(Some(LineRange { start: first, end: last }))
            },
            (None, _) => Err(
                MentionError {
                    kind: MentionErrorKind::InvalidStackReviewLine,
                    detail: start.clone(),
                },
            ),
            (Some(_), None) => Err(
                MentionError {
                    kind: MentionErrorKind::InvalidStackReviewLine,
                    detail: end.clone(),
                },
            ),
        },
        _ => Err(plain(MentionErrorKind::IncompleteStackReviewLines)),
    }
}

/// Whether a text is there and not empty.
pub open spec fn is_filled(value: Option<Seq<char>>) -> bool {
    value matches Some(text) && text.len() > 0
}

fn filled(value: &Option<String>) -> (is: bool)
    ensures
        is == is_filled(opt_string_view(*value)),
{
    match value {
        Some(text) => text.as_str().unicode_len() > 0,
        None => false,
    }
}

/// The side that a word names.
pub open spec fn side_of_word(word: Seq<char>) -> Option<StackReviewMentionSide> {
    if word == "LEFT"@ {
        Some(StackReviewMentionSide::Left)
    } else if word == "RIGHT"@ {
        Some(StackReviewMentionSide::Right)
    } else if word == "TOP_LEVEL"@ {
        Some(StackReviewMentionSide::TopLevel)
    } else {
        None
    }
}

/// The first thing that keeps the values of a query, whose names are in order, from mentioning a
/// review.
pub open spec fn review_problem(pairs: Pairs) -> Option<MentionErrorKind> {
    let path = query_value(pairs, "path"@);
    let selected = query_value(pairs, "selected"@);
    let root = query_value(pairs, "root"@);
    let lines = review_lines(query_value(pairs, "line_start"@), query_value(pairs, "line_end"@));
    let side = query_value(pairs, "side"@);
    if path is Some && !is_plain_relative_path(path->0) {
        Some(MentionErrorKind::StackReviewPathNotRelative)
    } else if selected is Some && selected->0.len() == 0 {
        Some(MentionErrorKind::EmptySelectedRecordId)
    } else if root is Some && root->0.len() == 0 {
        Some(MentionErrorKind::EmptyRootRecordId)
    } else if (selected is Some) != (root is Some) {
        Some(MentionErrorKind::UnpairedRecordIds)
    } else if lines is Err {
        Some(lines->Err_0)
    } else if !is_filled(side) {
        Some(MentionErrorKind::MissingStackReviewSide)
    } else if side_of_word(side->0) is None {
        Some(MentionErrorKind::InvalidStackReviewSide)
    } else if lines->Ok_0 is Some && path is None {
        Some(MentionErrorKind::StackReviewLinesWithoutPath)
    } else if side_of_word(side->0) == Some(StackReviewMentionSide::TopLevel) && (path is Some
        || lines->Ok_0 is Some) {
        Some(MentionErrorKind::TopLevelWithAnchor)
    } else if !is_filled(query_value(pairs, "storage_key"@)) {
        Some(MentionErrorKind::MissingStorageKey)
    } else if !is_filled(query_value(pairs, "project"@)) {
        Some(MentionErrorKind::MissingProjectIdentity)
    } else if !is_filled(query_value(pairs, "base"@)) {
        Some(MentionErrorKind::MissingBase)
    } else if !is_filled(query_value(pairs, "head"@)) {
        Some(MentionErrorKind::MissingHead)
    } else {
        None
    }
}

/// The review that a query without problems mentions.
pub open spec fn review_of_query(pairs: Pairs) -> StackReviewView {
    StackReviewView {
        storage_key: query_value(pairs, "storage_key"@)->0,
        project_identity: query_value(pairs, "project"@)->0,
        base_oid: query_value(pairs, "base"@)->0,
        head_oid: query_value(pairs, "head"@)->0,
        path: query_value(pairs, "path"@),
        side: side_of_word(query_value(pairs, "side"@)->0)->0,
        line_range: review_lines(
            query_value(pairs, "line_start"@),
            query_value(pairs, "line_end"@),
        )->Ok_0,
        selected_record_id: query_value(pairs, "selected"@),
        root_record_id: query_value(pairs, "root"@),
    }
}

/// What is to be told of an error besides its kind: the first of the line numbers that is none.
pub open spec fn review_detail(pairs: Pairs, kind: MentionErrorKind) -> Seq<char> {
    if kind is InvalidStackReviewLine {
        bad_line(
            query_value(pairs, "line_start"@)->0,
            query_value(pairs, "line_end"@)->0,
        )
    } else {
        Seq::empty()
    }
}

/// The first of two line numbers, unless it is a number.
pub open spec fn bad_line(start: Seq<char>, end: Seq<char>) -> Seq<char> {
    if u32_of_text(start) is None {
        start
    } else {
        end
    }
}

/// The review that a URL mentions.
pub open spec fn review_mention(url: UrlView) -> Result<MentionView, MentionErrorView> {
    if url.fragment is Some {
        Err(plain_error(MentionErrorKind::StackReviewFragment))
    } else {
        match name_problem(url.query, 0) {
            Some(error) => Err(error),
            None => match review_problem(url.query) {
                Some(kind) => Err(
                    MentionErrorView { kind, detail: review_detail(url.query, kind) },
                ),
                None => Ok(MentionView::StackReview(review_of_query(url.query))),
            },
        }
    }
}

/// The view of what a text was read as.
pub open spec fn mention_result(result: Result<MentionUri, MentionError>) -> Result<
    MentionView,
    MentionErrorView,
> {
    match result {
        Ok(mention) => Ok(mention@),
        Err(error) => Err(error@),
    }
}

fn check_names(pairs: &Vec<(String, String)>) -> (problem: Option<MentionError>)
    ensures
        match problem {
            Some(error) => name_problem(pair_views(pairs@), 0) == Some(error@),
            None => name_problem(pair_views(pairs@), 0) is None,
        },
{
    let ghost all = pair_views(pairs@);
    let mut i: usize = 0;
    while i < pairs.len()
        invariant
            i <= pairs@.len(),
            all == pair_views(pairs@),
            name_problem(all, 0) == name_problem(all, i as int),
        decreases pairs.len() - i,
    {
        let name = &pairs[i].0;
        assert(all[i as int] == (pairs@[i as int].0@, pairs@[i as int].1@));
        if !review_name(name.as_str()) {
            return Some(
                MentionError {
                    kind: MentionErrorKind::UnknownStackReviewParameter,
                    detail: name.clone(),
                },
            );
        }
        let mut k: usize = 0;
        while k < i
            invariant
                k <= i < pairs@.len(),
                all == pair_views(pairs@),
                name@ == all[i as int].0,
                is_review_name(name@),
                name_problem(all, 0) == name_problem(all, i as int),
                forall|j: int| 0 <= j < k ==> (#[trigger] all[j]).0 != name@,
            decreases i - k,
        {
            assert(all[k as int] == (pairs@[k as int].0@, pairs@[k as int].1@));
            if same_text(pairs[k].0.as_str(), name.as_str()) {
                assert(named_before(all, name@, i as int));
                return Some(
                    MentionError {
                        kind: MentionErrorKind::DuplicateStackReviewParameter,
                        detail: name.clone(),
                    },
                );
            }
            k += 1;
        }
        assert(!named_before(all, name@, i as int));
        i += 1;
    }
    None
}

/// The text that is there.
fn given(value: Option<String>) -> (text: String)
    requires
        value is Some,
    ensures
        text == value->0,
{
    match value {
        Some(text) => text,
        None => String::new(),
    }
}

/// The review that a URL mentions.
pub fn parse_stack_review_uri(url: &UrlParts) -> (mention: Result<MentionUri, MentionError>)
    ensures
        mention_result(mention) == review_mention(url@),
{
    if url.fragment.is_some() {
        return Err(plain(MentionErrorKind::StackReviewFragment));
    }
    match check_names(&url.query) {
        Some(error) => return Err(error),
        None => {},
    }
    let path = query_param(&url.query, "path");
    let plain_path = match &path {
        Some(path) => plain_relative_path(path.as_str()),
        None => true,
    };
    if !plain_path {
        return Err(plain(MentionErrorKind::StackReviewPathNotRelative));
    }
    let selected_record_id = query_param(&url.query, "selected");
    if selected_record_id.is_some() && !filled(&selected_record_id) {
        return Err(plain(MentionErrorKind::EmptySelectedRecordId));
    }
    let root_record_id = query_param(&url.query, "root");
    if root_record_id.is_some() && !filled(&root_record_id) {
        return Err(plain(MentionErrorKind::EmptyRootRecordId));
    }
    if selected_record_id.is_some() != root_record_id.is_some() {
        return Err(plain(MentionErrorKind::UnpairedRecordIds));
    }
    let line_start = query_param(&url.query, "line_start");
    let line_end = query_param(&url.query, "line_end");
    let line_range = match read_review_lines(&line_start, &line_end) {
        Ok(lines) => lines,
        Err(error) => return Err(error),
    };
    let side_word = query_param(&url.query, "side");
    if !filled(&side_word) {
        return Err(plain(MentionErrorKind::MissingStackReviewSide));
    }
    let side = match StackReviewMentionSide::parse(given(side_word).as_str()) {
        Some(side) => side,
        None => {
            assert(mention_side_word(StackReviewMentionSide::Left) == "LEFT"@);
            assert(mention_side_word(StackReviewMentionSide::Right) == "RIGHT"@);
            assert(mention_side_word(StackReviewMentionSide::TopLevel) == "TOP_LEVEL"@);
            return Err(plain(MentionErrorKind::InvalidStackReviewSide));
        },
    };
    proof {
        lemma_side_words();
    }
    if line_range.is_some() && path.is_none() {
        return Err(plain(MentionErrorKind::StackReviewLinesWithoutPath));
    }
    if side == StackReviewMentionSide::TopLevel && (path.is_some() || line_range.is_some()) {
        return Err(plain(MentionErrorKind::TopLevelWithAnchor));
    }
    let storage_key = query_param(&url.query, "storage_key");
    if !filled(&storage_key) {
        return Err(plain(MentionErrorKind::MissingStorageKey));
    }
    let project_identity = query_param(&url.query, "project");
    if !filled(&project_identity) {
        return Err(plain(MentionErrorKind::MissingProjectIdentity));
    }
    let base_oid = query_param(&url.query, "base");
    if !filled(&base_oid) {
        return Err(plain(MentionErrorKind::MissingBase));
    }
    let head_oid = query_param(&url.query, "head");
    if !filled(&head_oid) {
        return Err(plain(MentionErrorKind::MissingHead));
    }
    Ok(
        MentionUri::StackReview {
            storage_key: given(storage_key),
            project_identity: given(project_identity),
            base_oid: given(base_oid),
            head_oid: given(head_oid),
            path,
            side,
            line_range,
            selected_record_id,
            root_record_id,
        },
    )
}

/// The words for the sides differ.
pub proof fn lemma_side_words()
    ensures
        forall|side: StackReviewMentionSide| #[trigger]
            side_of_word(mention_side_word(side)) == Some(side),
        forall|side: StackReviewMentionSide| (#[trigger] mention_side_word(side)).len() > 0,
{
    reveal_strlit("LEFT");
    reveal_strlit("RIGHT");
    reveal_strlit("TOP_LEVEL");
    assert("LEFT"@.len() == 4);
    assert("RIGHT"@.len() == 5);
    assert("TOP_LEVEL"@.len() == 9);
}

} // verus!
