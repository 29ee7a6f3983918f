//! What texts mention.

use crate::decimal::{parse_u32, u32_of_text};
use crate::mention::{
    LineRange, MentionUri, MentionView, RuleId, RuleIdView,
};
use crate::mention_error::{plain, plain_error, MentionError, MentionErrorKind, MentionErrorView};
use crate::mention_path::{
    decode_path_escapes, is_absolute, is_absolute_path, native_windows_path, to_native_windows_path,
    unescaped, PathStyle,
};
use crate::mention_query::{
    column_of, line_range_of, names_within, parse_line_range, query_column, query_names_within,
    query_param, query_value, single_query_param, single_value,
};
use crate::mention_uri::{mention_uri_text, uri_plan};
use crate::mention_url::{
    decode_percent, pair_views, percent_decoded, read_url, url_parts, write_url_with_query,
    UrlParts, UrlView,
};
use crate::stack_review_query::{mention_result, parse_stack_review_uri, review_mention};
use crate::text::{
    after_prefix, before_suffix, contains_text, ends_with_text, occurs, opt_string_view, opt_view,
    same_text, split_at_first, split_once_char, starts_with_text, strip_prefix_text,
    strip_suffix_text,
};
use vstd::prelude::*;
use vstd::string::*;
use vstd::utf8::{encode_utf8, valid_utf8};

verus! {

type Pairs = Seq<(Seq<char>, Seq<char>)>;

type Outcome = Result<MentionView, MentionErrorView>;

/// A path with the row and the column that its spelling names, both counted from one.
#[derive(Clone, Debug, PartialEq, Eq)]
pub struct PathWithPosition {
    pub path: String,
    pub row: Option<u32>,
    pub column: Option<u32>,
}

impl PathWithPosition {
    /// A path without a position.
    pub fn from_path(path: &str) -> (position: Self)
        ensures
            position.path@ == path@,
            position.row is None,
            position.column is None,
    {
        PathWithPosition { path: path.to_owned(), row: None, column: None }
    }
}

/// `input` without the backticks around it.
pub open spec fn unquoted(input: Seq<char>) -> Seq<char> {
    match after_prefix(input, "`"@) {
        Some(rest) => match before_suffix(rest, "`"@) {
            Some(core) => core,
            None => input,
        },
        None => input,
    }
}

fn strip_backticks<'a>(input: &'a str) -> (core: &'a str)
    ensures
        core@ == unquoted(input@),
{
    match strip_prefix_text(input, "`") {
        Some(rest) => match strip_suffix_text(rest, "`") {
            Some(core) => core,
            None => input,
        },
        None => input,
    }
}

/// Whether a text is a bare absolute path and no URL.
pub open spec fn is_bare_path(input: Seq<char>, style: PathStyle) -> bool {
    is_absolute_path(input, style) && !occurs(input, "://"@)
}

/// The bare path that a text is, without the backticks around it.
pub open spec fn bare_path_of(input: Seq<char>, style: PathStyle) -> Option<Seq<char>> {
    if is_bare_path(unquoted(input), style) {
        Some(unquoted(input))
    } else {
        None
    }
}

/// The bare path that a text is, without the backticks around it.
pub fn bare_path_target<'a>(input: &'a str, style: PathStyle) -> (target: Option<&'a str>)
    ensures
        opt_view(target) == bare_path_of(input@, style),
{
    let core = strip_backticks(input);
    if is_absolute(core, style) && !contains_text(core, "://") {
        Some(core)
    } else {
        None
    }
}

/// A path and what follows `#` in it.
pub open spec fn path_and_fragment(input: Seq<char>) -> (Seq<char>, Option<Seq<char>>) {
    match split_at_first(input, '#') {
        Some((path, fragment)) => (path, Some(fragment)),
        None => (input, None),
    }
}

/// A path and what follows `#` in it.
pub fn split_path_fragment<'a>(input: &'a str) -> (parts: (&'a str, Option<&'a str>))
    ensures
        (parts.0@, opt_view(parts.1)) == path_and_fragment(input@),
{
    match split_once_char(input, '#') {
        Some((path, fragment)) => (path, Some(fragment)),
        None => (input, None),
    }
}

/// The lines that a fragment gives, where it gives any.
pub open spec fn fragment_lines(fragment: Option<Seq<char>>) -> Option<LineRange> {
    match fragment {
        Some(fragment) => match line_range_of(fragment) {
            Ok(range) => Some(range),
            Err(_) => None,
        },
        None => None,
    }
}

/// What an absolute path mentions: the lines that its fragment gives or, where it gives none, the
/// place that `position` reads from the path itself. There is no row zero.
pub open spec fn path_mention(
    path: Seq<char>,
    fragment: Option<Seq<char>>,
    position: PathWithPosition,
) -> Option<MentionView> {
    match fragment_lines(fragment) {
        Some(line_range) => Some(
            MentionView::Selection { abs_path: Some(path), line_range, column: None },
        ),
        None => match position.row {
            None => Some(MentionView::File { abs_path: position.path@ }),
            Some(row) => if row == 0 {
                None
            } else {
                Some(
                    MentionView::Selection {
                        abs_path: Some(position.path@),
                        line_range: LineRange { start: (row - 1) as u32, end: (row - 1) as u32 },
                        column: match position.column {
                            Some(column) => Some(
                                if column > 0 {
                                    (column - 1) as u32
                                } else {
                                    0
                                },
                            ),
                            None => None,
                        },
                    },
                )
            },
        },
    }
}

/// The view of a mention that may be absent.
pub open spec fn opt_mention_view(mention: Option<MentionUri>) -> Option<MentionView> {
    match mention {
        Some(mention) => Some(mention@),
        None => None,
    }
}

/// What an absolute path mentions. `position` is what the spelling of `path_input` names, and
/// counts where the fragment gives no lines.
pub fn absolute_path_mention(
    path_input: &str,
    fragment: Option<&str>,
    position: &PathWithPosition,
) -> (mention: Option<MentionUri>)
    ensures
        opt_mention_view(mention) == path_mention(path_input@, opt_view(fragment), *position),
{
    let lines = match fragment {
        Some(fragment) => match parse_line_range(fragment) {
            Ok(range) => Some(range),
            Err(_) => None,
        },
        None => None,
    };
    match lines {
        Some(line_range) => {
            return Some(
                MentionUri::Selection {
                    abs_path: Some(path_input.to_owned()),
                    line_range,
                    column: None,
                },
            );
        },
        None => {},
    }
    match position.row {
        None => Some(MentionUri::File { abs_path: position.path.clone() }),
        Some(row) => {
            if row == 0 {
                return None;
            }
            let column = match position.column {
                Some(column) => Some(
                    if column > 0 {
                        column - 1
                    } else {
                        0
                    },
                ),
                None => None,
            };
            Some(
                MentionUri::Selection {
                    abs_path: Some(position.path.clone()),
                    line_range: LineRange { start: row - 1, end: row - 1 },
                    column,
                },
            )
        },
    }
}

/// A path without the slashes at its start.
pub open spec fn without_leading_slashes(path: Seq<char>) -> Seq<char>
    decreases path.len(),
{
    if path.len() > 0 && path[0] == '/' {
        without_leading_slashes(path.drop_first())
    } else {
        path
    }
}

/// The part of a file URL's path that is decoded.
pub open spec fn encoded_file_path(path: Seq<char>, style: PathStyle) -> Seq<char> {
    if style == PathStyle::Windows {
        without_leading_slashes(path)
    } else {
        path
    }
}

fn encoded_path<'a>(path: &'a str, style: PathStyle) -> (encoded: &'a str)
    ensures
        encoded@ == encoded_file_path(path@, style),
{
    if !style.is_windows() {
        return path;
    }
    let mut rest = path;
    loop
        invariant
            style == PathStyle::Windows,
            without_leading_slashes(rest@) == without_leading_slashes(path@),
        decreases rest@.len(),
    {
        proof {
            reveal_strlit("/");
            assert("/"@.len() == 1);
            assert("/"@[0] == '/');
        }
        match strip_prefix_text(rest, "/") {
            Some(shorter) => {
                assert(rest@.subrange(0, 1)[0] == rest@[0]);
                assert(rest@.skip(1) =~= rest@.drop_first());
                rest = shorter;
            },
            None => {
                assert(rest@.len() > 0 && rest@[0] == '/' ==> rest@.subrange(0, 1) =~= "/"@);
                return rest;
            },
        }
    }
}

/// A decoded path as the style spells it.
pub open spec fn native_path(path: Seq<char>, style: PathStyle) -> Seq<char> {
    if style == PathStyle::Windows {
        match native_windows_path(path) {
            Some(native) => native,
            None => path,
        }
    } else {
        path
    }
}

fn to_native_path(path: String, style: PathStyle) -> (native: String)
    ensures
        native@ == native_path(path@, style),
{
    if !style.is_windows() {
        return path;
    }
    match to_native_windows_path(path.as_str()) {
        Some(native) => native,
        None => path,
    }
}

/// What a file URL mentions, given its decoded path.
pub open spec fn file_mention(input: Seq<char>, url: UrlView, path: Seq<char>) -> Outcome {
    match url.fragment {
        Some(fragment) => if !names_within(url.query, "symbol"@, "column"@) {
            Err(plain_error(MentionErrorKind::InvalidQueryParameter))
        } else {
            let line_range = match line_range_of(fragment) {
                Ok(range) => range,
                Err(_) => LineRange { start: 1, end: 1 },
            };
            match query_value(url.query, "symbol"@) {
                Some(name) => Ok(MentionView::Symbol { abs_path: path, name, line_range }),
                None => Ok(
                    MentionView::Selection {
                        abs_path: Some(path),
                        line_range,
                        column: column_of(query_value(url.query, "column"@)),
                    },
                ),
            }
        },
        None => if "/"@.is_suffix_of(input) {
            Ok(MentionView::Directory { abs_path: path })
        } else {
            Ok(MentionView::File { abs_path: path })
        },
    }
}

fn read_file_mention(input: &str, url: &UrlParts, path: String) -> (mention: Result<
    MentionUri,
    MentionError,
>)
    ensures
        mention_result(mention) == file_mention(input@, url@, path@),
{
    match &url.fragment {
        Some(fragment) => {
            if !query_names_within(&url.query, "symbol", "column") {
                return Err(plain(MentionErrorKind::InvalidQueryParameter));
            }
            let line_range = match parse_line_range(fragment.as_str()) {
                Ok(range) => range,
                Err(_) => LineRange { start: 1, end: 1 },
            };
            match query_param(&url.query, "symbol") {
                Some(name) => Ok(MentionUri::Symbol { abs_path: path, name, line_range }),
                None => Ok(
                    MentionUri::Selection {
                        abs_path: Some(path),
                        line_range,
                        column: query_column(&url.query),
                    },
                ),
            }
        },
        None => {
            if ends_with_text(input, "/") {
                Ok(MentionUri::Directory { abs_path: path })
            } else {
                Ok(MentionUri::File { abs_path: path })
            }
        },
    }
}

/// The value of a query that must hold one name alone.
pub open spec fn required_value(pairs: Pairs, name: Seq<char>, missing: MentionErrorKind) -> Result<
    Seq<char>,
    MentionErrorView,
> {
    match single_value(pairs, name) {
        Err(kind) => Err(plain_error(kind)),
        Ok(None) => Err(plain_error(missing)),
        Ok(Some(value)) => Ok(value),
    }
}

/// The view of a query's value.
pub open spec fn value_view(value: Result<String, MentionError>) -> Result<
    Seq<char>,
    MentionErrorView,
> {
    match value {
        Ok(value) => Ok(value@),
        Err(error) => Err(error@),
    }
}

fn required_param(pairs: &Vec<(String, String)>, name: &str, missing: MentionErrorKind) -> (value:
    Result<String, MentionError>)
    ensures
        value_view(value) == required_value(pair_views(pairs@), name@, missing),
{
    match single_query_param(pairs, name) {
        Err(kind) => Err(plain(kind)),
        Ok(None) => Err(plain(missing)),
        Ok(Some(value)) => Ok(value),
    }
}

/// The value of a query that may hold one name alone, or what stands for it.
pub open spec fn value_or(pairs: Pairs, name: Seq<char>, otherwise: Seq<char>) -> Result<
    Seq<char>,
    MentionErrorView,
> {
    match single_value(pairs, name) {
        Err(kind) => Err(plain_error(kind)),
        Ok(None) => Ok(otherwise),
        Ok(Some(value)) => Ok(value),
    }
}

fn param_or(pairs: &Vec<(String, String)>, name: &str, otherwise: &str) -> (value: Result<
    String,
    MentionError,
>)
    ensures
        value_view(value) == value_or(pair_views(pairs@), name@, otherwise@),
{
    match single_query_param(pairs, name) {
        Err(kind) => Err(plain(kind)),
        Ok(None) => Ok(otherwise.to_owned()),
        Ok(Some(value)) => Ok(value),
    }
}

/// The lines that a URL's fragment must give.
pub open spec fn required_lines(url: UrlView, missing: MentionErrorKind) -> Result<
    LineRange,
    MentionErrorView,
> {
    match url.fragment {
        None => Err(plain_error(missing)),
        Some(fragment) => match line_range_of(fragment) {
            Ok(range) => Ok(range),
            Err(kind) => Err(plain_error(kind)),
        },
    }
}

/// The view of a line range or an error.
pub open spec fn lines_view(lines: Result<LineRange, MentionError>) -> Result<
    LineRange,
    MentionErrorView,
> {
    match lines {
        Ok(range) => Ok(range),
        Err(error) => Err(error@),
    }
}

fn fragment_line_range(url: &UrlParts, missing: MentionErrorKind) -> (lines: Result<
    LineRange,
    MentionError,
>)
    ensures
        lines_view(lines) == required_lines(url@, missing),
{
    match &url.fragment {
        None => Err(plain(missing)),
        Some(fragment) => match parse_line_range(fragment.as_str()) {
            Ok(range) => Ok(range),
            Err(kind) => Err(plain(kind)),
        },
    }
}

/// The id that stands for a rule whose id is missing.
pub const PLACEHOLDER_RULE_ID: &'static str = "00000000-0000-0000-0000-000000000000";

/// What a rule's URL mentions.
pub open spec fn rule_mention(url: UrlView, rule_id: Seq<char>) -> Outcome {
    match required_value(url.query, "name"@, MentionErrorKind::MissingRuleName) {
        Err(error) => Err(error),
        Ok(name) => Ok(
            MentionView::Rule {
                id: RuleIdView::User(
                    if rule_id.len() == 0 {
                        "00000000-0000-0000-0000-000000000000"@
                    } else {
                        rule_id
                    },
                ),
                name,
            },
        ),
    }
}

/// What a query says of the diagnostics to show, starting from what was said before. Of two
/// values under one name the later counts.
pub open spec fn diagnostics_mention(
    pairs: Pairs,
    include_errors: bool,
    include_warnings: bool,
) -> Outcome
    decreases pairs.len(),
{
    if pairs.len() == 0 {
        Ok(MentionView::Diagnostics { include_errors, include_warnings })
    } else {
        let (name, value) = pairs[0];
        if name == "include_warnings"@ {
            diagnostics_mention(pairs.drop_first(), include_errors, value == "true"@)
        } else if name == "include_errors"@ {
            diagnostics_mention(pairs.drop_first(), value == "true"@, include_warnings)
        } else {
            Err(plain_error(MentionErrorKind::InvalidQueryParameter))
        }
    }
}

fn read_diagnostics(pairs: &Vec<(String, String)>) -> (mention: Result<MentionUri, MentionError>)
    ensures
        mention_result(mention) == diagnostics_mention(pair_views(pairs@), true, false),
{
    let ghost all = pair_views(pairs@);
    let mut include_errors = true;
    let mut include_warnings = false;
    let mut i: usize = 0;
    assert(all.skip(0) =~= all);
    while i < pairs.len()
        invariant
            i <= pairs@.len(),
            all == pair_views(pairs@),
            diagnostics_mention(all, true, false) == diagnostics_mention(
                all.skip(i as int),
                include_errors,
                include_warnings,
            ),
        decreases pairs.len() - i,
    {
        let name = pairs[i].0.as_str();
        let value = pairs[i].1.as_str();
        assert(all.skip(i as int)[0] == (name@, value@));
        assert(all.skip(i as int).drop_first() =~= all.skip(i + 1));
        if same_text(name, "include_warnings") {
            include_warnings = same_text(value, "true");
        } else if same_text(name, "include_errors") {
            include_errors = same_text(value, "true");
        } else {
            return Err(plain(MentionErrorKind::InvalidQueryParameter));
        }
        i += 1;
    }
    Ok(MentionUri::Diagnostics { include_errors, include_warnings })
}

/// What the URL of a selection in an untitled buffer mentions.
pub open spec fn untitled_mention(url: UrlView) -> Outcome {
    match required_lines(url, MentionErrorKind::MissingUntitledFragment) {
        Err(error) => Err(error),
        Ok(line_range) => if !names_within(url.query, "column"@, "column"@) {
            Err(plain_error(MentionErrorKind::InvalidQueryParameter))
        } else {
            Ok(
                MentionView::Selection {
                    abs_path: None,
                    line_range,
                    column: column_of(query_value(url.query, "column"@)),
                },
            )
        },
    }
}

fn read_untitled(url: &UrlParts) -> (mention: Result<MentionUri, MentionError>)
    ensures
        mention_result(mention) == untitled_mention(url@),
{
    let line_range = match fragment_line_range(url, MentionErrorKind::MissingUntitledFragment) {
        Ok(range) => range,
        Err(error) => return Err(error),
    };
    if !query_names_within(&url.query, "column", "column") {
        return Err(plain(MentionErrorKind::InvalidQueryParameter));
    }
    Ok(MentionUri::Selection { abs_path: None, line_range, column: query_column(&url.query) })
}

/// What a symbol's URL mentions.
pub open spec fn symbol_mention(url: UrlView, name: Seq<char>) -> Outcome {
    match required_lines(url, MentionErrorKind::MissingUntitledFragment) {
        Err(error) => Err(error),
        Ok(line_range) => match required_value(
            url.query,
            "path"@,
            MentionErrorKind::MissingSymbolPath,
        ) {
            Err(error) => Err(error),
            Ok(abs_path) => Ok(MentionView::Symbol { abs_path, name, line_range }),
        },
    }
}

fn read_symbol(url: &UrlParts, name: &str) -> (mention: Result<MentionUri, MentionError>)
    ensures
        mention_result(mention) == symbol_mention(url@, name@),
{
    let line_range = match fragment_line_range(url, MentionErrorKind::MissingUntitledFragment) {
        Ok(range) => range,
        Err(error) => return Err(error),
    };
    match required_param(&url.query, "path", MentionErrorKind::MissingSymbolPath) {
        Err(error) => Err(error),
        Ok(abs_path) => Ok(MentionUri::Symbol { abs_path, name: name.to_owned(), line_range }),
    }
}

/// What the URL of a selection in a file mentions.
pub open spec fn selection_mention(url: UrlView) -> Outcome {
    if !names_within(url.query, "path"@, "column"@) {
        Err(plain_error(MentionErrorKind::InvalidQueryParameter))
    } else {
        match required_lines(url, MentionErrorKind::MissingSelectionFragment) {
            Err(error) => Err(error),
            Ok(line_range) => match query_value(url.query, "path"@) {
                None => Err(plain_error(MentionErrorKind::MissingSelectionPath)),
                Some(path) => Ok(
                    MentionView::Selection {
                        abs_path: Some(path),
                        line_range,
                        column: column_of(query_value(url.query, "column"@)),
                    },
                ),
            },
        }
    }
}

fn read_selection(url: &UrlParts) -> (mention: Result<MentionUri, MentionError>)
    ensures
        mention_result(mention) == selection_mention(url@),
{
    if !query_names_within(&url.query, "path", "column") {
        return Err(plain(MentionErrorKind::InvalidQueryParameter));
    }
    let line_range = match fragment_line_range(url, MentionErrorKind::MissingSelectionFragment) {
        Ok(range) => range,
        Err(error) => return Err(error),
    };
    match query_param(&url.query, "path") {
        None => Err(plain(MentionErrorKind::MissingSelectionPath)),
        Some(path) => Ok(
            MentionUri::Selection {
                abs_path: Some(path),
                line_range,
                column: query_column(&url.query),
            },
        ),
    }
}

/// What the first name of a skill's query is wrong about, from `from` on.
pub open spec fn skill_name_problem(pairs: Pairs, from: int) -> Option<MentionErrorKind>
    decreases pairs.len() - from,
{
    if from < 0 || from >= pairs.len() {
        None
    } else {
        let name = pairs[from].0;
        let again = crate::stack_review_query::named_before(pairs, name, from);
        if name == "name"@ {
            if again {
                Some(MentionErrorKind::DuplicateSkillName)
            } else {
                skill_name_problem(pairs, from + 1)
            }
        } else if name == "source"@ {
            if again {
                Some(MentionErrorKind::DuplicateSkillSource)
            } else {
                skill_name_problem(pairs, from + 1)
            }
        } else if name == "path"@ {
            if again {
                Some(MentionErrorKind::DuplicateSkillPath)
            } else {
                skill_name_problem(pairs, from + 1)
            }
        } else {
            Some(MentionErrorKind::InvalidQueryParameter)
        }
    }
}

/// What a skill's URL mentions.
pub open spec fn skill_mention(pairs: Pairs) -> Outcome {
    match skill_name_problem(pairs, 0) {
        Some(kind) => Err(plain_error(kind)),
        None => match (
            query_value(pairs, "name"@),
            query_value(pairs, "source"@),
            query_value(pairs, "path"@),
        ) {
            (None, _, _) => Err(plain_error(MentionErrorKind::MissingSkillName)),
            (Some(_), None, _) => Err(plain_error(MentionErrorKind::MissingSkillSource)),
            (Some(_), Some(_), None) => Err(plain_error(MentionErrorKind::MissingSkillPath)),
            (Some(name), Some(source), Some(skill_file_path)) => Ok(
                MentionView::Skill { name, source, skill_file_path },
            ),
        },
    }
}

fn stood_before(pairs: &Vec<(String, String)>, to: usize) -> (stood: bool)
    requires
        to < pairs@.len(),
    ensures
        stood == crate::stack_review_query::named_before(
            pair_views(pairs@),
            pairs@[to as int].0@,
            to as int,
        ),
{
    let ghost all = pair_views(pairs@);
    let mut k: usize = 0;
    while k < to
        invariant
            k <= to < pairs@.len(),
            all == pair_views(pairs@),
            forall|j: int| 0 <= j < k ==> (#[trigger] all[j]).0 != pairs@[to as int].0@,
        decreases to - k,
    {
        assert(all[k as int] == (pairs@[k as int].0@, pairs@[k as int].1@));
        if same_text(pairs[k].0.as_str(), pairs[to].0.as_str()) {
            return true;
        }
        k += 1;
    }
    false
}

fn read_skill(pairs: &Vec<(String, String)>) -> (mention: Result<MentionUri, MentionError>)
    ensures
        mention_result(mention) == skill_mention(pair_views(pairs@)),
{
    let ghost all = pair_views(pairs@);
    let mut i: usize = 0;
    while i < pairs.len()
        invariant
            i <= pairs@.len(),
            all == pair_views(pairs@),
            skill_name_problem(all, 0) == skill_name_problem(all, i as int),
        decreases pairs.len() - i,
    {
        let name = pairs[i].0.as_str();
        assert(all[i as int] == (pairs@[i as int].0@, pairs@[i as int].1@));
        let again = stood_before(pairs, i);
        if same_text(name, "name") {
            if again {
                return Err(plain(MentionErrorKind::DuplicateSkillName));
            }
        } else if same_text(name, "source") {
            if again {
                return Err(plain(MentionErrorKind::DuplicateSkillSource));
            }
        } else if same_text(name, "path") {
            if again {
                return Err(plain(MentionErrorKind::DuplicateSkillPath));
            }
        } else {
            return Err(plain(MentionErrorKind::InvalidQueryParameter));
        }
        i += 1;
    }
    let name = match query_param(pairs, "name") {
        Some(name) => name,
        None => return Err(plain(MentionErrorKind::MissingSkillName)),
    };
    let source = match query_param(pairs, "source") {
        Some(source) => source,
        None => return Err(plain(MentionErrorKind::MissingSkillSource)),
    };
    match query_param(pairs, "path") {
        Some(skill_file_path) => Ok(MentionUri::Skill { name, source, skill_file_path }),
        None => Err(plain(MentionErrorKind::MissingSkillPath)),
    }
}

/// The kinds of URLs of this application.
pub enum ZedPath {
    Thread,
    Rule,
    Diagnostics,
    PastedImage,
    Untitled,
    Symbol,
    File,
    Directory,
    Selection,
    Terminal,
    GitDiff,
    MergeConflict,
    Skill,
    StackReview,
    Unknown,
}

/// The kind of a URL of this application, by its path.
pub open spec fn zed_path(path: Seq<char>) -> ZedPath {
    if "/agent/thread/"@.is_prefix_of(path) {
        ZedPath::Thread
    } else if "/agent/rule/"@.is_prefix_of(path) {
        ZedPath::Rule
    } else if path == "/agent/diagnostics"@ {
        ZedPath::Diagnostics
    } else if "/agent/pasted-image"@.is_prefix_of(path) {
        ZedPath::PastedImage
    } else if "/agent/untitled-buffer"@.is_prefix_of(path) {
        ZedPath::Untitled
    } else if "/agent/symbol/"@.is_prefix_of(path) {
        ZedPath::Symbol
    } else if "/agent/file"@.is_prefix_of(path) {
        ZedPath::File
    } else if "/agent/directory"@.is_prefix_of(path) {
        ZedPath::Directory
    } else if "/agent/selection"@.is_prefix_of(path) {
        ZedPath::Selection
    } else if "/agent/terminal-selection"@.is_prefix_of(path) {
        ZedPath::Terminal
    } else if "/agent/git-diff"@.is_prefix_of(path) {
        ZedPath::GitDiff
    } else if "/agent/merge-conflict"@.is_prefix_of(path) {
        ZedPath::MergeConflict
    } else if "/agent/skill"@.is_prefix_of(path) {
        ZedPath::Skill
    } else if path == "/agent/stack-review"@ {
        ZedPath::StackReview
    } else {
        ZedPath::Unknown
    }
}

/// What a URL of this application mentions.
pub open spec fn zed_mention(input: Seq<char>, url: UrlView) -> Outcome {
    match zed_path(url.path) {
        ZedPath::Thread => match required_value(
            url.query,
            "name"@,
            MentionErrorKind::MissingThreadName,
        ) {
            Err(error) => Err(error),
            Ok(name) => Ok(
                MentionView::Thread { id: url.path.skip("/agent/thread/"@.len() as int), name },
            ),
        },
        ZedPath::Rule => rule_mention(url, url.path.skip("/agent/rule/"@.len() as int)),
        ZedPath::Diagnostics => diagnostics_mention(url.query, true, false),
        ZedPath::PastedImage => match value_or(url.query, "name"@, "Image"@) {
            Err(error) => Err(error),
            Ok(name) => Ok(MentionView::PastedImage { name }),
        },
        ZedPath::Untitled => untitled_mention(url),
        ZedPath::Symbol => symbol_mention(url, url.path.skip("/agent/symbol/"@.len() as int)),
        ZedPath::File => match required_value(
            url.query,
            "path"@,
            MentionErrorKind::MissingFilePath,
        ) {
            Err(error) => Err(error),
            Ok(abs_path) => Ok(MentionView::File { abs_path }),
        },
        ZedPath::Directory => match required_value(
            url.query,
            "path"@,
            MentionErrorKind::MissingDirectoryPath,
        ) {
            Err(error) => Err(error),
            Ok(abs_path) => Ok(MentionView::Directory { abs_path }),
        },
        ZedPath::Selection => selection_mention(url),
        ZedPath::Terminal => match value_or(url.query, "lines"@, "0"@) {
            Err(error) => Err(error),
            Ok(lines) => Ok(
                MentionView::TerminalSelection {
                    line_count: match u32_of_text(lines) {
                        Some(count) => count,
                        None => 0,
                    },
                },
            ),
        },
        ZedPath::GitDiff => match value_or(url.query, "base"@, "main"@) {
            Err(error) => Err(error),
            Ok(base_ref) => Ok(MentionView::GitDiff { base_ref }),
        },
        ZedPath::MergeConflict => match value_or(url.query, "path"@, ""@) {
            Err(error) => Err(error),
            Ok(file_path) => Ok(MentionView::MergeConflict { file_path }),
        },
        ZedPath::Skill => skill_mention(url.query),
        ZedPath::StackReview => review_mention(url),
        ZedPath::Unknown => Err(
            MentionErrorView { kind: MentionErrorKind::InvalidZedUrl, detail: input },
        ),
    }
}

fn read_zed_mention(input: &str, url: &UrlParts) -> (mention: Result<MentionUri, MentionError>)
    ensures
        mention_result(mention) == zed_mention(input@, url@),
{
    let path = url.path.as_str();
    match strip_prefix_text(path, "/agent/thread/") {
        Some(id) => {
            return match required_param(&url.query, "name", MentionErrorKind::MissingThreadName) {
                Err(error) => Err(error),
                Ok(name) => Ok(MentionUri::Thread { id: id.to_owned(), name }),
            };
        },
        None => {},
    }
    match strip_prefix_text(path, "/agent/rule/") {
        Some(rule_id) => {
            return match required_param(&url.query, "name", MentionErrorKind::MissingRuleName) {
                Err(error) => Err(error),
                Ok(name) => {
                    let uuid = if rule_id.unicode_len() == 0 {
                        PLACEHOLDER_RULE_ID.to_owned()
                    } else {
                        rule_id.to_owned()
                    };
                    Ok(MentionUri::Rule { id: RuleId::User(uuid), name })
                },
            };
        },
        None => {},
    }
    if same_text(path, "/agent/diagnostics") {
        return read_diagnostics(&url.query);
    }
    if starts_with_text(path, "/agent/pasted-image") {
        return match param_or(&url.query, "name", "Image") {
            Err(error) => Err(error),
            Ok(name) => Ok(MentionUri::PastedImage { name }),
        };
    }
    if starts_with_text(path, "/agent/untitled-buffer") {
        return read_untitled(url);
    }
    match strip_prefix_text(path, "/agent/symbol/") {
        Some(name) => return read_symbol(url, name),
        None => {},
    }
    if starts_with_text(path, "/agent/file") {
        return match required_param(&url.query, "path", MentionErrorKind::MissingFilePath) {
            Err(error) => Err(error),
            Ok(abs_path) => Ok(MentionUri::File { abs_path }),
        };
    }
    if starts_with_text(path, "/agent/directory") {
        return match required_param(&url.query, "path", MentionErrorKind::MissingDirectoryPath) {
            Err(error) => Err(error),
            Ok(abs_path) => Ok(MentionUri::Directory { abs_path }),
        };
    }
    if starts_with_text(path, "/agent/selection") {
        return read_selection(url);
    }
    if starts_with_text(path, "/agent/terminal-selection") {
        return match param_or(&url.query, "lines", "0") {
            Err(error) => Err(error),
            Ok(lines) => {
                let line_count: u32 = match parse_u32(lines.as_str()) {
                    Some(count) => count,
                    None => 0,
                };
                Ok(MentionUri::TerminalSelection { line_count })
            },
        };
    }
    if starts_with_text(path, "/agent/git-diff") {
        return match param_or(&url.query, "base", "main") {
            Err(error) => Err(error),
            Ok(base_ref) => Ok(MentionUri::GitDiff { base_ref }),
        };
    }
    if starts_with_text(path, "/agent/merge-conflict") {
        return match param_or(&url.query, "path", "") {
            Err(error) => Err(error),
            Ok(file_path) => Ok(MentionUri::MergeConflict { file_path }),
        };
    }
    if starts_with_text(path, "/agent/skill") {
        return read_skill(&url.query);
    }
    if same_text(path, "/agent/stack-review") {
        return parse_stack_review_uri(url);
    }
    Err(MentionError { kind: MentionErrorKind::InvalidZedUrl, detail: input.to_owned() })
}

/// What a URL mentions. `decoded` is what the path of a file's URL was decoded to, where it could
/// be.
pub open spec fn url_mention(
    input: Seq<char>,
    url: UrlView,
    decoded: Option<Seq<char>>,
    style: PathStyle,
) -> Outcome {
    if url.scheme == "file"@ {
        let path = match decoded {
            Some(path) => path,
            None => encoded_file_path(url.path, style),
        };
        file_mention(input, url, native_path(path, style))
    } else if url.scheme == "zed"@ {
        zed_mention(input, url)
    } else if url.scheme == "http"@ || url.scheme == "https"@ {
        Ok(MentionView::Fetch { url: url.text })
    } else {
        Err(MentionErrorView { kind: MentionErrorKind::UnrecognizedScheme, detail: url.scheme })
    }
}

/// What the path of a file's URL is decoded to.
pub open spec fn decoded_file_path(url: UrlView, style: PathStyle) -> Option<Seq<char>> {
    if url.scheme == "file"@ {
        percent_decoded(encoded_file_path(url.path, style))
    } else {
        None
    }
}

/// What a URL mentions, short of whether it is the one way to write it. `decoded` is what the
/// path of a file's URL was decoded to, where it could be.
pub fn mention_of_url(
    input: &str,
    url: &UrlParts,
    decoded: Option<String>,
    style: PathStyle,
) -> (mention: Result<MentionUri, MentionError>)
    ensures
        mention_result(mention) == url_mention(input@, url@, opt_string_view(decoded), style),
{
    let scheme = url.scheme.as_str();
    if same_text(scheme, "file") {
        let path = match decoded {
            Some(path) => path,
            None => encoded_path(url.path.as_str(), style).to_owned(),
        };
        read_file_mention(input, url, to_native_path(path, style))
    } else if same_text(scheme, "zed") {
        read_zed_mention(input, url)
    } else if same_text(scheme, "http") || same_text(scheme, "https") {
        Ok(MentionUri::Fetch { url: url.text.clone() })
    } else {
        Err(
            MentionError {
                kind: MentionErrorKind::UnrecognizedScheme,
                detail: url.scheme.clone(),
            },
        )
    }
}

/// A mention of a review counts only where it is written the one way that `to_uri` writes it.
pub open spec fn canonical(outcome: Outcome, input: Seq<char>) -> Outcome {
    match outcome {
        Ok(MentionView::StackReview(review)) => {
            let mention = MentionView::StackReview(review);
            if mention_uri_text(mention) != input {
                Err(plain_error(MentionErrorKind::NotCanonical))
            } else {
                Ok(mention)
            }
        },
        _ => outcome,
    }
}

/// What a text mentions. `position` is what the spelling of a bare path names.
pub open spec fn text_mention(input: Seq<char>, style: PathStyle, position: PathWithPosition) -> Outcome {
    let core = unquoted(input);
    if is_bare_path(core, style) {
        let (path, fragment) = path_and_fragment(core);
        match path_mention(path, fragment, position) {
            Some(mention) => Ok(mention),
            None => Err(
                MentionErrorView { kind: MentionErrorKind::InvalidAbsolutePath, detail: core },
            ),
        }
    } else {
        match url_parts(core) {
            Err(reason) => Err(
                MentionErrorView { kind: MentionErrorKind::InvalidUrl, detail: reason },
            ),
            Ok(url) => canonical(
                url_mention(core, url, decoded_file_path(url, style), style),
                core,
            ),
        }
    }
}

/// The path that a hyperlink's bare path spells: with its escapes decoded, where that is asked
/// for, and as the style spells it.
pub open spec fn is_hyperlink_path(
    path: Seq<char>,
    style: PathStyle,
    decode: bool,
    spelled: Seq<char>,
) -> bool {
    exists|decoded: Seq<char>|
        #![trigger native_path(decoded, style)]
        spelled == native_path(decoded, style) && (if decode {
            is_decoded_path(path, decoded)
        } else {
            decoded == path
        })
}

/// Whether decoding the escapes of a path gives `decoded`.
pub open spec fn is_decoded_path(path: Seq<char>, decoded: Seq<char>) -> bool {
    if valid_utf8(unescaped(encode_utf8(path))) {
        encode_utf8(decoded) == unescaped(encode_utf8(path))
    } else {
        decoded == path
    }
}

/// Whether `outcome` is what the target of a hyperlink mentions. `position` is what the spelling of
/// a bare path names.
pub open spec fn is_hyperlink_mention(
    input: Seq<char>,
    style: PathStyle,
    position: PathWithPosition,
    outcome: Outcome,
) -> bool {
    match bare_path_of(input, style) {
        None => outcome == text_mention(input, style, position),
        Some(target) => {
            let (path, fragment) = path_and_fragment(target);
            exists|spelled: Seq<char>|
                #![trigger is_hyperlink_path(path, style, true, spelled)]
                is_hyperlink_path(path, style, true, spelled) && outcome == match path_mention(
                    spelled,
                    fragment,
                    position,
                ) {
                    Some(mention) => Ok(mention),
                    None => Err(
                        MentionErrorView {
                            kind: MentionErrorKind::InvalidHyperlinkPath,
                            detail: input,
                        },
                    ),
                }
        },
    }
}

/// The path that a hyperlink's bare path spells.
pub fn normalize_path_mention(input: &str, style: PathStyle, decode: bool) -> (spelled: String)
    ensures
        is_hyperlink_path(input@, style, decode, spelled@),
{
    let decoded = if decode {
        match decode_path_escapes(input) {
            Some(decoded) => decoded,
            None => {
                proof {
                    vstd::utf8::encode_utf8_valid_utf8(input@);
                }
                input.to_owned()
            },
        }
    } else {
        input.to_owned()
    };
    proof {
        if decode {
            vstd::utf8::encode_utf8_valid_utf8(decoded@);
        }
        assert(native_path(decoded@, style) == native_path(decoded@, style));
    }
    to_native_path(decoded, style)
}

/// The text whose spelling names the position of a bare path.
pub fn position_text(input: &str, style: PathStyle) -> (text: Option<String>)
    ensures
        match text {
            Some(text) => is_bare_path(unquoted(input@), style) && text@ == path_and_fragment(
                unquoted(input@),
            ).0,
            None => !is_bare_path(unquoted(input@), style),
        },
{
    match bare_path_target(input, style) {
        Some(target) => Some(split_path_fragment(target).0.to_owned()),
        None => None,
    }
}

/// The text whose spelling names the position of a hyperlink's bare path.
pub fn hyperlink_position_text(input: &str, style: PathStyle, decode: bool) -> (text: Option<String>)
    ensures
        match text {
            Some(text) => is_bare_path(unquoted(input@), style) && is_hyperlink_path(
                path_and_fragment(unquoted(input@)).0,
                style,
                decode,
                text@,
            ),
            None => !is_bare_path(unquoted(input@), style),
        },
{
    match bare_path_target(input, style) {
        Some(target) => Some(normalize_path_mention(split_path_fragment(target).0, style, decode)),
        None => None,
    }
}

impl MentionUri {
    /// What a text mentions: a bare absolute path, taken as it is spelled, or a URL. `position`
    /// is what the spelling of [`position_text`] names; it counts for bare paths alone.
    pub fn parse(input: &str, path_style: PathStyle, position: &PathWithPosition) -> (mention: Result<
        Self,
        MentionError,
    >)
        ensures
            mention_result(mention) == text_mention(input@, path_style, *position),
    {
        let core = strip_backticks(input);
        if is_absolute(core, path_style) && !contains_text(core, "://") {
            let (path, fragment) = split_path_fragment(core);
            return match absolute_path_mention(path, fragment, position) {
                Some(mention) => Ok(mention),
                None => Err(
                    MentionError {
                        kind: MentionErrorKind::InvalidAbsolutePath,
                        detail: core.to_owned(),
                    },
                ),
            };
        }
        let url = match read_url(core) {
            Ok(url) => url,
            Err(reason) => {
                return Err(MentionError { kind: MentionErrorKind::InvalidUrl, detail: reason });
            },
        };
        let decoded = if same_text(url.scheme.as_str(), "file") {
            decode_percent(encoded_path(url.path.as_str(), path_style))
        } else {
            None
        };
        let mention = match mention_of_url(core, &url, decoded, path_style) {
            Ok(mention) => mention,
            Err(error) => return Err(error),
        };
        match &mention {
            MentionUri::StackReview { .. } => {
                let plan = mention.uri_plan();
                proof {
                    reveal_strlit("/agent/stack-review");
                }
                assert(plan@.query.len() == plan.query@.len());
                assert(5 <= plan.query@.len() < 0x1000);
                let text = write_url_with_query(
                    plan.base.as_str(),
                    plan.path.as_str(),
                    &plan.query,
                    None,
                );
                if !same_text(text.as_str(), core) {
                    return Err(plain(MentionErrorKind::NotCanonical));
                }
            },
            _ => {},
        }
        Ok(mention)
    }

    /// What the target of a hyperlink mentions. Unlike [`MentionUri::parse`], which keeps bare
    /// paths as they are, this decodes their escapes and spells them as `path_style` does.
    /// `position` is what the spelling of [`hyperlink_position_text`] names.
    pub fn parse_hyperlink(
        input: &str,
        path_style: PathStyle,
        position: &PathWithPosition,
    ) -> (mention: Result<Self, MentionError>)
        ensures
            is_hyperlink_mention(input@, path_style, *position, mention_result(mention)),
    {
        match bare_path_target(input, path_style) {
            None => MentionUri::parse(input, path_style, position),
            Some(target) => {
                let (path, fragment) = split_path_fragment(target);
                let spelled = normalize_path_mention(path, path_style, true);
                assert(is_hyperlink_path(path@, path_style, true, spelled@));
                match absolute_path_mention(spelled.as_str(), fragment, position) {
                    Some(mention) => Ok(mention),
                    None => Err(
                        MentionError {
                            kind: MentionErrorKind::InvalidHyperlinkPath,
                            detail: input.to_owned(),
                        },
                    ),
                }
            },
        }
    }

    /// What the target of a hyperlink mentions where its escapes are taken literally, as in the
    /// name of a file that holds one; nothing where that is what [`MentionUri::parse_hyperlink`]
    /// says anyway. `position` is what the spelling of [`hyperlink_position_text`] names.
    pub fn parse_hyperlink_literal(
        input: &str,
        path_style: PathStyle,
        position: &PathWithPosition,
    ) -> (mention: Option<Self>)
        ensures
            match bare_path_of(input@, path_style) {
                None => mention is None,
                Some(target) => {
                    let (path, fragment) = path_and_fragment(target);
                    let bytes = encode_utf8(path);
                    if unescaped(bytes) == bytes || !valid_utf8(unescaped(bytes)) {
                        mention is None
                    } else {
                        opt_mention_view(mention) == path_mention(
                            native_path(path, path_style),
                            fragment,
                            *position,
                        )
                    }
                },
            },
    {
        let target = match bare_path_target(input, path_style) {
            Some(target) => target,
            None => return None,
        };
        let (path, fragment) = split_path_fragment(target);
        match decode_path_escapes(path) {
            None => return None,
            Some(decoded) => {
                proof {
                    vstd::utf8::encode_utf8_valid_utf8(decoded@);
                    vstd::utf8::encode_utf8_decode_utf8(decoded@);
                    vstd::utf8::encode_utf8_decode_utf8(path@);
                }
            },
        }
        let spelled = to_native_path(path.to_owned(), path_style);
        absolute_path_mention(spelled.as_str(), fragment, position)
    }
}

} // verus!
