//! The URLs that stand for mentions.

use crate::decimal::{decimal_text, push_decimal};
use crate::mention::{
    mention_side_word, LineRange, MentionUri, MentionView, RuleId, RuleIdView,
    StackReviewView,
};
use crate::mention_url::{pair_views, pairs_len, url_at, url_with_query, MAX_URL_CHARS};
use crate::text::{ends_with_text, opt_string_view};
use vstd::prelude::*;
use vstd::string::*;

verus! {

type Pairs = Seq<(Seq<char>, Seq<char>)>;

/// What a mention's URL is written from.
#[derive(Clone, Debug, PartialEq, Eq)]
pub struct UriPlan {
    pub base: String,
    pub path: String,
    pub query: Vec<(String, String)>,
    pub fragment: Option<String>,
}

/// What a mention's URL is written from, as mathematical values.
#[verifier::ext_equal]
pub struct UriPlanView {
    pub base: Seq<char>,
    pub path: Seq<char>,
    pub query: Pairs,
    pub fragment: Option<Seq<char>>,
}

impl View for UriPlan {
    type V = UriPlanView;

    open spec fn view(&self) -> UriPlanView {
        UriPlanView {
            base: self.base@,
            path: self.path@,
            query: pair_views(self.query@),
            fragment: opt_string_view(self.fragment),
        }
    }
}

/// How a range of lines, counted from zero, is written in a fragment, where they are counted from
/// one.
pub open spec fn lines_fragment(range: LineRange) -> Seq<char> {
    "L"@ + decimal_text((range.start + 1) as nat) + ":"@ + decimal_text((range.end + 1) as nat)
}

/// A directory's path with a separator at its end.
pub open spec fn directory_path(path: Seq<char>) -> Seq<char> {
    if "/"@.is_suffix_of(path) || "\\"@.is_suffix_of(path) {
        path
    } else {
        path.push('/')
    }
}

/// The query of a selection: its column, counted from one.
pub open spec fn column_query(column: Option<u32>) -> Pairs {
    match column {
        Some(column) => seq![("column"@, decimal_text((column + 1) as nat))],
        None => Seq::empty(),
    }
}

/// The query of a mention of diagnostics: what differs from showing errors alone.
pub open spec fn diagnostics_query(include_errors: bool, include_warnings: bool) -> Pairs {
    let warnings: Pairs = if include_warnings {
        seq![("include_warnings"@, "true"@)]
    } else {
        Seq::empty()
    };
    if include_errors {
        warnings
    } else {
        warnings.push(("include_errors"@, "false"@))
    }
}

/// A name and a value, where there is a value.
pub open spec fn optional_pair(name: Seq<char>, value: Option<Seq<char>>) -> Pairs {
    match value {
        Some(value) => seq![(name, value)],
        None => Seq::empty(),
    }
}

/// The query of a mention of a review.
pub open spec fn review_query(review: StackReviewView) -> Pairs {
    seq![
        ("storage_key"@, review.storage_key),
        ("project"@, review.project_identity),
        ("base"@, review.base_oid),
        ("head"@, review.head_oid),
        ("side"@, mention_side_word(review.side)),
    ] + optional_pair("path"@, review.path) + (match review.line_range {
        Some(range) => seq![
            ("line_start"@, decimal_text(range.start as nat)),
            ("line_end"@, decimal_text(range.end as nat)),
        ],
        None => Seq::empty(),
    }) + optional_pair("selected"@, review.selected_record_id) + optional_pair(
        "root"@,
        review.root_record_id,
    )
}

/// The part of a rule's id that its URL shows.
pub open spec fn rule_segment(id: RuleIdView) -> Seq<char> {
    match id {
        RuleIdView::User(uuid) => uuid,
        RuleIdView::Other { user_uuid: Some(uuid), .. } => uuid,
        RuleIdView::Other { user_uuid: None, .. } => Seq::empty(),
    }
}

/// What the URL of a mention, other than of a page, is written from.
pub open spec fn uri_plan(mention: MentionView) -> UriPlanView {
    let file = "file:///"@;
    let zed = "zed:///"@;
    match mention {
        MentionView::File { abs_path } => UriPlanView {
            base: file,
            path: abs_path,
            query: Seq::empty(),
            fragment: None,
        },
        MentionView::PastedImage { name } => UriPlanView {
            base: zed,
            path: "/agent/pasted-image"@,
            query: seq![("name"@, name)],
            fragment: None,
        },
        MentionView::Directory { abs_path } => UriPlanView {
            base: file,
            path: directory_path(abs_path),
            query: Seq::empty(),
            fragment: None,
        },
        MentionView::Symbol { abs_path, name, line_range } => UriPlanView {
            base: file,
            path: abs_path,
            query: seq![("symbol"@, name)],
            fragment: Some(lines_fragment(line_range)),
        },
        MentionView::Selection { abs_path: Some(abs_path), line_range, column } => UriPlanView {
            base: file,
            path: abs_path,
            query: column_query(column),
            fragment: Some(lines_fragment(line_range)),
        },
        MentionView::Selection { abs_path: None, line_range, column } => UriPlanView {
            base: zed,
            path: "/agent/untitled-buffer"@,
            query: column_query(column),
            fragment: Some(lines_fragment(line_range)),
        },
        MentionView::Thread { id, name } => UriPlanView {
            base: zed,
            path: "/agent/thread/"@ + id,
            query: seq![("name"@, name)],
            fragment: None,
        },
        MentionView::Rule { id, name } => UriPlanView {
            base: zed,
            path: "/agent/rule/"@ + rule_segment(id),
            query: seq![("name"@, name)],
            fragment: None,
        },
        MentionView::Diagnostics { include_errors, include_warnings } => UriPlanView {
            base: zed,
            path: "/agent/diagnostics"@,
            query: diagnostics_query(include_errors, include_warnings),
            fragment: None,
        },
        MentionView::Fetch { url } => UriPlanView {
            base: url,
            path: Seq::empty(),
            query: Seq::empty(),
            fragment: None,
        },
        MentionView::TerminalSelection { line_count } => UriPlanView {
            base: zed,
            path: "/agent/terminal-selection"@,
            query: seq![("lines"@, decimal_text(line_count as nat))],
            fragment: None,
        },
        MentionView::GitDiff { base_ref } => UriPlanView {
            base: zed,
            path: "/agent/git-diff"@,
            query: seq![("base"@, base_ref)],
            fragment: None,
        },
        MentionView::MergeConflict { file_path } => UriPlanView {
            base: zed,
            path: "/agent/merge-conflict"@,
            query: seq![("path"@, file_path)],
            fragment: None,
        },
        MentionView::Skill { name, source, skill_file_path } => UriPlanView {
            base: zed,
            path: "/agent/skill"@,
            query: seq![("name"@, name), ("source"@, source), ("path"@, skill_file_path)],
            fragment: None,
        },
        MentionView::StackReview(review) => UriPlanView {
            base: zed,
            path: "/agent/stack-review"@,
            query: review_query(review),
            fragment: None,
        },
    }
}

/// Whether the lines and the column of a mention can be counted from one.
pub open spec fn lines_can_be_written(mention: MentionView) -> bool {
    match mention {
        MentionView::Symbol { line_range, .. } => line_range.start < u32::MAX && line_range.end
            < u32::MAX,
        MentionView::Selection { line_range, column, .. } => {
            &&& line_range.start < u32::MAX
            &&& line_range.end < u32::MAX
            &&& column matches Some(column) ==> column < u32::MAX
        },
        _ => true,
    }
}

/// How many characters the parts of a URL are written from that its query or, where it has one, its
/// fragment comes after.
pub open spec fn plan_len(plan: UriPlanView) -> nat {
    plan.path.len() + if plan.fragment is Some {
        pairs_len(plan.query)
    } else {
        0
    }
}

/// Whether a mention has a URL: its lines can be counted from one, and the places where the parts
/// of the URL begin can be, too. That of a review always can.
pub open spec fn has_uri(mention: MentionView) -> bool {
    lines_can_be_written(mention) && (mention is Fetch || plan_len(uri_plan(mention))
        <= MAX_URL_CHARS)
}

/// The URL of a mention.
pub open spec fn mention_uri_text(mention: MentionView) -> Seq<char> {
    let plan = uri_plan(mention);
    match mention {
        MentionView::Fetch { url } => url,
        _ => if plan.query.len() == 0 {
            url_at(plan.base, plan.path, plan.fragment)
        } else {
            url_with_query(plan.base, plan.path, plan.query, plan.fragment)
        },
    }
}

fn pair(name: &str, value: &str) -> (pair: (String, String))
    ensures
        pair.0@ == name@,
        pair.1@ == value@,
{
    (name.to_owned(), value.to_owned())
}

fn decimal(n: u64) -> (text: String)
    ensures
        text@ == decimal_text(n as nat),
{
    let mut text = String::new();
    push_decimal(&mut text, n);
    assert(text@ =~= decimal_text(n as nat));
    text
}

fn push_pair(query: &mut Vec<(String, String)>, name: &str, value: &str)
    ensures
        pair_views(final(query)@) == pair_views(old(query)@).push((name@, value@)),
{
    query.push(pair(name, value));
    assert(pair_views(query@) =~= pair_views(old(query)@).push((name@, value@)));
}

fn push_optional(query: &mut Vec<(String, String)>, name: &str, value: &Option<String>)
    ensures
        pair_views(final(query)@) == pair_views(old(query)@) + optional_pair(
            name@,
            opt_string_view(*value),
        ),
{
    match value {
        Some(value) => {
            push_pair(query, name, value.as_str());
            assert(pair_views(query@) =~= pair_views(old(query)@) + optional_pair(
                name@,
                Some(value@),
            ));
        },
        None => {
            assert(pair_views(query@) =~= pair_views(old(query)@) + optional_pair(name@, None));
        },
    }
}

fn lines_text(range: LineRange) -> (text: String)
    ensures
        text@ == lines_fragment(range),
{
    let mut text = "L".to_owned();
    push_decimal(&mut text, range.start as u64 + 1);
    text.append(":");
    push_decimal(&mut text, range.end as u64 + 1);
    text
}

fn no_query() -> (query: Vec<(String, String)>)
    ensures
        pair_views(query@) == Seq::<(Seq<char>, Seq<char>)>::empty(),
{
    let query: Vec<(String, String)> = Vec::new();
    assert(pair_views(query@) =~= Seq::<(Seq<char>, Seq<char>)>::empty());
    query
}

fn query_of_one(name: &str, value: &str) -> (query: Vec<(String, String)>)
    ensures
        pair_views(query@) == seq![(name@, value@)],
{
    let mut query = no_query();
    push_pair(&mut query, name, value);
    assert(pair_views(query@) =~= seq![(name@, value@)]);
    query
}

fn column_pairs(column: Option<u32>) -> (query: Vec<(String, String)>)
    ensures
        pair_views(query@) == column_query(column),
{
    match column {
        Some(column) => query_of_one("column", decimal(column as u64 + 1).as_str()),
        None => no_query(),
    }
}

impl MentionUri {
    /// What the mention's URL is written from.
    pub fn uri_plan(&self) -> (plan: UriPlan)
        requires
            !(self is Fetch),
        ensures
            plan@ == uri_plan(self@),
    {
        match self {
            MentionUri::File { abs_path } => UriPlan {
                base: "file:///".to_owned(),
                path: abs_path.clone(),
                query: no_query(),
                fragment: None,
            },
            MentionUri::PastedImage { name } => UriPlan {
                base: "zed:///".to_owned(),
                path: "/agent/pasted-image".to_owned(),
                query: query_of_one("name", name.as_str()),
                fragment: None,
            },
            MentionUri::Directory { abs_path } => {
                let mut path = abs_path.clone();
                if !ends_with_text(path.as_str(), "/") && !ends_with_text(path.as_str(), "\\") {
                    path.push('/');
                }
                UriPlan {
                    base: "file:///".to_owned(),
                    path,
                    query: no_query(),
                    fragment: None,
                }
            },
            MentionUri::Symbol { abs_path, name, line_range } => UriPlan {
                base: "file:///".to_owned(),
                path: abs_path.clone(),
                query: query_of_one("symbol", name.as_str()),
                fragment: Some(lines_text(*line_range)),
            },
            MentionUri::Selection { abs_path: Some(abs_path), line_range, column } => UriPlan {
                base: "file:///".to_owned(),
                path: abs_path.clone(),
                query: column_pairs(*column),
                fragment: Some(lines_text(*line_range)),
            },
            MentionUri::Selection { abs_path: None, line_range, column } => UriPlan {
                base: "zed:///".to_owned(),
                path: "/agent/untitled-buffer".to_owned(),
                query: column_pairs(*column),
                fragment: Some(lines_text(*line_range)),
            },
            MentionUri::Thread { id, name } => UriPlan {
                base: "zed:///".to_owned(),
                path: "/agent/thread/".to_owned().concat(id.as_str()),
                query: query_of_one("name", name.as_str()),
                fragment: None,
            },
            MentionUri::Rule { id, name } => {
                let path = match id {
                    RuleId::User(uuid) => "/agent/rule/".to_owned().concat(uuid.as_str()),
                    RuleId::Other { user_uuid: Some(uuid), .. } =>
                        "/agent/rule/".to_owned().concat(uuid.as_str()),
                    RuleId::Other { user_uuid: None, .. } => "/agent/rule/".to_owned(),
                };
                assert(path@ =~= "/agent/rule/"@ + rule_segment(id@));
                UriPlan {
                    base: "zed:///".to_owned(),
                    path,
                    query: query_of_one("name", name.as_str()),
                    fragment: None,
                }
            },
            MentionUri::Diagnostics { include_errors, include_warnings } => {
                let mut query = no_query();
                if *include_warnings {
                    query = query_of_one("include_warnings", "true");
                }
                if !*include_errors {
                    push_pair(&mut query, "include_errors", "false");
                }
                UriPlan {
                    base: "zed:///".to_owned(),
                    path: "/agent/diagnostics".to_owned(),
                    query,
                    fragment: None,
                }
            },
            MentionUri::Fetch { url } => UriPlan {
                base: url.clone(),
                path: String::new(),
                query: no_query(),
                fragment: None,
            },
            MentionUri::TerminalSelection { line_count } => UriPlan {
                base: "zed:///".to_owned(),
                path: "/agent/terminal-selection".to_owned(),
                query: query_of_one("lines", decimal(*line_count as u64).as_str()),
                fragment: None,
            },
            MentionUri::GitDiff { base_ref } => UriPlan {
                base: "zed:///".to_owned(),
                path: "/agent/git-diff".to_owned(),
                query: query_of_one("base", base_ref.as_str()),
                fragment: None,
            },
            MentionUri::MergeConflict { file_path } => UriPlan {
                base: "zed:///".to_owned(),
                path: "/agent/merge-conflict".to_owned(),
                query: query_of_one("path", file_path.as_str()),
                fragment: None,
            },
            MentionUri::Skill { name, source, skill_file_path } => {
                let mut query = query_of_one("name", name.as_str());
                push_pair(&mut query, "source", source.as_str());
                push_pair(&mut query, "path", skill_file_path.as_str());
                assert(pair_views(query@) =~= seq![
                    ("name"@, name@),
                    ("source"@, source@),
                    ("path"@, skill_file_path@),
                ]);
                UriPlan {
                    base: "zed:///".to_owned(),
                    path: "/agent/skill".to_owned(),
                    query,
                    fragment: None,
                }
            },
            MentionUri::StackReview {
                storage_key,
                project_identity,
                base_oid,
                head_oid,
                path,
                side,
                line_range,
                selected_record_id,
                root_record_id,
            } => {
                let mut query = query_of_one("storage_key", storage_key.as_str());
                push_pair(&mut query, "project", project_identity.as_str());
                push_pair(&mut query, "base", base_oid.as_str());
                push_pair(&mut query, "head", head_oid.as_str());
                push_pair(&mut query, "side", side.as_str());
                assert(pair_views(query@) =~= seq![
                    ("storage_key"@, storage_key@),
                    ("project"@, project_identity@),
                    ("base"@, base_oid@),
                    ("head"@, head_oid@),
                    ("side"@, mention_side_word(*side)),
                ]);
                push_optional(&mut query, "path", path);
                let ghost before = pair_views(query@);
                let ghost lines: Pairs = match *line_range {
                    Some(range) => seq![
                        ("line_start"@, decimal_text(range.start as nat)),
                        ("line_end"@, decimal_text(range.end as nat)),
                    ],
                    None => Seq::empty(),
                };
                match line_range {
                    Some(range) => {
                        push_pair(&mut query, "line_start", decimal(range.start as u64).as_str());
                        push_pair(&mut query, "line_end", decimal(range.end as u64).as_str());
                    },
                    None => {},
                }
                assert(pair_views(query@) =~= before + lines);
                push_optional(&mut query, "selected", selected_record_id);
                push_optional(&mut query, "root", root_record_id);
                UriPlan {
                    base: "zed:///".to_owned(),
                    path: "/agent/stack-review".to_owned(),
                    query,
                    fragment: None,
                }
            },
        }
    }
}

/// Whether a URL can be written from a plan.
pub fn plan_fits(plan: &UriPlan) -> (fits: bool)
    ensures
        fits == (plan_len(plan@) <= MAX_URL_CHARS),
{
    let ghost query = pair_views(plan.query@);
    let path_len: usize = plan.path.as_str().unicode_len();
    if path_len > MAX_URL_CHARS {
        return false;
    }
    if plan.fragment.is_none() {
        return true;
    }
    let mut left: usize = MAX_URL_CHARS - path_len;
    let mut i: usize = 0;
    assert(query.take(0) =~= Seq::<(Seq<char>, Seq<char>)>::empty());
    while i < plan.query.len()
        invariant
            i <= plan.query@.len(),
            query == pair_views(plan.query@),
            plan@.fragment is Some,
            left + plan@.path.len() + pairs_len(query.take(i as int)) == MAX_URL_CHARS,
        decreases plan.query.len() - i,
    {
        assert(query.take(i + 1).drop_last() =~= query.take(i as int));
        assert(query[i as int] == (plan.query@[i as int].0@, plan.query@[i as int].1@));
        proof {
            lemma_pairs_len_grows(query, i + 1);
        }
        let name_len: usize = plan.query[i].0.as_str().unicode_len();
        if name_len > left {
            return false;
        }
        let value_len: usize = plan.query[i].1.as_str().unicode_len();
        if value_len > left - name_len {
            return false;
        }
        left = left - name_len - value_len;
        i += 1;
    }
    assert(query.take(i as int) =~= query);
    true
}

proof fn lemma_pairs_len_grows(pairs: Pairs, k: int)
    requires
        0 <= k <= pairs.len(),
    ensures
        pairs_len(pairs.take(k)) <= pairs_len(pairs),
    decreases pairs.len() - k,
{
    if k == pairs.len() {
        assert(pairs.take(k) =~= pairs);
    } else {
        assert(pairs.take(k + 1).drop_last() =~= pairs.take(k));
        lemma_pairs_len_grows(pairs, k + 1);
    }
}

} // verus!
