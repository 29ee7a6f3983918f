//! How mentions are shown.

use crate::decimal::{decimal_text, push_decimal};
use crate::mention::{
    mention_side_word, LineRange, MentionUri, MentionView, StackReviewMentionSide,
};
use crate::mention_path::{file_name, file_name_of, path_end, path_suffix};
use crate::mention_uri::{has_uri, mention_uri_text};
use crate::text::{opt_string_view, opt_view};
use vstd::prelude::*;
use vstd::string::*;

verus! {

/// The text that is there, or another.
pub open spec fn or_text(text: Option<Seq<char>>, otherwise: Seq<char>) -> Seq<char> {
    match text {
        Some(text) => text,
        None => otherwise,
    }
}

/// How a selection is shown: the name of its file and its lines, counted from one.
pub open spec fn selection_label(path: Option<Seq<char>>, range: LineRange) -> Seq<char> {
    let name = match path {
        Some(path) => file_name_of(path),
        None => None,
    };
    or_text(name, "Untitled"@) + " ("@ + decimal_text((range.start + 1) as nat) + ":"@
        + decimal_text((range.end + 1) as nat) + ")"@
}

/// How a selection is shown: the name of its file and its lines, counted from one.
pub fn selection_name(path: Option<&str>, line_range: &LineRange) -> (label: String)
    ensures
        label@ == selection_label(opt_view(path), *line_range),
{
    let name = match path {
        Some(path) => file_name(path),
        None => None,
    };
    let mut label = match name {
        Some(name) => name.to_owned(),
        None => "Untitled".to_owned(),
    };
    label.append(" (");
    push_decimal(&mut label, line_range.start as u64 + 1);
    label.append(":");
    push_decimal(&mut label, line_range.end as u64 + 1);
    label.append(")");
    label
}

/// A range of lines, counted from zero, as what follows a path: `:5` or `:5-9`, counted from one.
pub open spec fn line_suffix(range: LineRange) -> Seq<char> {
    let start = ":"@ + decimal_text((range.start + 1) as nat);
    if range.start == range.end {
        start
    } else {
        start + "-"@ + decimal_text((range.end + 1) as nat)
    }
}

/// A range of lines, counted from zero, as what follows a path: `:5` or `:5-9`, counted from one.
pub fn line_range_suffix(line_range: &LineRange) -> (suffix: String)
    ensures
        suffix@ == line_suffix(*line_range),
{
    let mut suffix = ":".to_owned();
    push_decimal(&mut suffix, line_range.start as u64 + 1);
    if line_range.start != line_range.end {
        suffix.append("-");
        push_decimal(&mut suffix, line_range.end as u64 + 1);
    }
    suffix
}

/// How a mention of a review is shown.
pub open spec fn review_label(
    path: Option<Seq<char>>,
    side: StackReviewMentionSide,
    range: Option<LineRange>,
) -> Seq<char> {
    let name = match path {
        Some(path) => file_name_of(path),
        None => None,
    };
    let label = or_text(name, "Stack Review"@) + " ("@ + mention_side_word(side);
    match range {
        Some(range) => label + " "@ + decimal_text(range.start as nat) + "-"@ + decimal_text(
            range.end as nat,
        ) + ")"@,
        None => label + ")"@,
    }
}

/// The short name of a mention.
pub open spec fn mention_name(mention: MentionView) -> Seq<char> {
    match mention {
        MentionView::File { abs_path } => or_text(file_name_of(abs_path), ""@),
        MentionView::Directory { abs_path } => or_text(file_name_of(abs_path), ""@),
        MentionView::PastedImage { name } => name,
        MentionView::Symbol { name, .. } => name,
        MentionView::Thread { name, .. } => name,
        MentionView::Rule { name, .. } => name,
        MentionView::Diagnostics { .. } => "Diagnostics"@,
        MentionView::TerminalSelection { line_count } => if line_count == 1 {
            "Terminal (1 line)"@
        } else {
            "Terminal ("@ + decimal_text(line_count as nat) + " lines)"@
        },
        MentionView::GitDiff { base_ref } => "Branch Diff ("@ + base_ref + ")"@,
        MentionView::MergeConflict { file_path } => "Merge Conflict ("@ + or_text(
            file_name_of(file_path),
            ""@,
        ) + ")"@,
        MentionView::Selection { abs_path, line_range, .. } => selection_label(
            abs_path,
            line_range,
        ),
        MentionView::Fetch { url } => url,
        MentionView::Skill { name, .. } => name,
        MentionView::StackReview(review) => review_label(
            review.path,
            review.side,
            review.line_range,
        ),
    }
}

/// The name of a mention with `detail` levels of what tells it from others of the same name.
pub open spec fn detailed_name(mention: MentionView, detail: nat) -> Seq<char> {
    if detail == 0 {
        mention_name(mention)
    } else {
        match mention {
            MentionView::Skill { name, source, .. } => if source.len() == 0 {
                name + " (global)"@
            } else {
                name + " ("@ + source + ")"@
            },
            MentionView::File { abs_path } => path_end(abs_path, detail),
            MentionView::Directory { abs_path } => path_end(abs_path, detail),
            _ => mention_name(mention),
        }
    }
}

/// A path and lines, as a tooltip shows them.
pub open spec fn path_and_lines(path: Seq<char>, range: LineRange) -> Seq<char> {
    path + ":"@ + decimal_text(range.start as nat) + "-"@ + decimal_text(range.end as nat)
}

/// What a tooltip says of a mention.
pub open spec fn mention_tooltip(mention: MentionView) -> Option<Seq<char>> {
    match mention {
        MentionView::File { abs_path } => Some(abs_path),
        MentionView::Directory { abs_path } => Some(abs_path),
        MentionView::Symbol { abs_path, line_range, .. } => Some(
            path_and_lines(abs_path, line_range),
        ),
        MentionView::Selection { abs_path: Some(path), line_range, .. } => Some(
            path_and_lines(path, line_range),
        ),
        MentionView::Skill { skill_file_path, .. } => Some(skill_file_path),
        MentionView::StackReview(review) => Some(
            "Immutable Stack Review "@ + review.base_oid + "…"@ + review.head_oid + " · "@
                + mention_side_word(review.side) + (match review.path {
                Some(path) => " · "@ + path,
                None => Seq::empty(),
            }) + (match review.line_range {
                Some(range) => " · lines "@ + decimal_text(range.start as nat) + "-"@
                    + decimal_text(range.end as nat),
                None => Seq::empty(),
            }),
        ),
        _ => None,
    }
}

/// What stands for a mention.
#[derive(Clone, Copy, Debug, PartialEq, Eq, Structural)]
pub enum MentionIcon {
    /// The icon of the file's type, or that of files.
    File,
    Image,
    /// The icon of the folder, or that of folders.
    Folder,
    Code,
    Thread,
    Reader,
    Warning,
    Terminal,
    ToolWeb,
    GitBranch,
    GitMergeConflict,
    Sparkle,
}

/// A mention as a link in Markdown.
pub struct MentionLink<'a> {
    pub mention: &'a MentionUri,
}

impl<'a> MentionLink<'a> {
    /// The link.
    pub fn to_string(&self) -> (link: String)
        requires
            has_uri(self.mention@),
        ensures
            link@ == "[@"@ + mention_name(self.mention@) + "]("@ + mention_uri_text(self.mention@)
                + ")"@,
    {
        let name = self.mention.name();
        let uri = self.mention.to_uri();
        "[@".to_owned().concat(name.as_str()).concat("](").concat(uri.as_str()).concat(")")
    }
}

fn name_or_nothing(path: &str) -> (name: String)
    ensures
        name@ == or_text(file_name_of(path@), ""@),
{
    match file_name(path) {
        Some(name) => name.to_owned(),
        None => "".to_owned(),
    }
}

fn path_with_lines(path: &str, range: &LineRange) -> (text: String)
    ensures
        text@ == path_and_lines(path@, *range),
{
    let mut text = path.to_owned().concat(":");
    push_decimal(&mut text, range.start as u64);
    text.append("-");
    push_decimal(&mut text, range.end as u64);
    text
}

impl MentionUri {
    /// The absolute path that the mention refers to, if it refers to one.
    pub fn abs_path(&self) -> (path: Option<&str>)
        ensures
            opt_view(path) == match self@ {
                MentionView::File { abs_path } => Some(abs_path),
                MentionView::Directory { abs_path } => Some(abs_path),
                MentionView::Symbol { abs_path, .. } => Some(abs_path),
                MentionView::Selection { abs_path, .. } => abs_path,
                MentionView::Skill { skill_file_path, .. } => Some(skill_file_path),
                _ => None,
            },
    {
        match self {
            MentionUri::File { abs_path } => Some(abs_path.as_str()),
            MentionUri::Directory { abs_path } => Some(abs_path.as_str()),
            MentionUri::Symbol { abs_path, .. } => Some(abs_path.as_str()),
            MentionUri::Selection { abs_path, .. } => match abs_path {
                Some(path) => Some(path.as_str()),
                None => None,
            },
            MentionUri::Skill { skill_file_path, .. } => Some(skill_file_path.as_str()),
            _ => None,
        }
    }

    /// The short name of the mention.
    pub fn name(&self) -> (name: String)
        ensures
            name@ == mention_name(self@),
    {
        match self {
            MentionUri::File { abs_path } => name_or_nothing(abs_path.as_str()),
            MentionUri::Directory { abs_path } => name_or_nothing(abs_path.as_str()),
            MentionUri::PastedImage { name } => name.clone(),
            MentionUri::Symbol { name, .. } => name.clone(),
            MentionUri::Thread { name, .. } => name.clone(),
            MentionUri::Rule { name, .. } => name.clone(),
            MentionUri::Diagnostics { .. } => "Diagnostics".to_owned(),
            MentionUri::TerminalSelection { line_count } => {
                if *line_count == 1 {
                    "Terminal (1 line)".to_owned()
                } else {
                    let mut name = "Terminal (".to_owned();
                    push_decimal(&mut name, *line_count as u64);
                    name.concat(" lines)")
                }
            },
            MentionUri::GitDiff { base_ref } => "Branch Diff (".to_owned().concat(
                base_ref.as_str(),
            ).concat(")"),
            MentionUri::MergeConflict { file_path } => {
                let name = name_or_nothing(file_path.as_str());
                "Merge Conflict (".to_owned().concat(name.as_str()).concat(")")
            },
            MentionUri::Selection { abs_path, line_range, .. } => {
                let path = match abs_path {
                    Some(path) => Some(path.as_str()),
                    None => None,
                };
                selection_name(path, line_range)
            },
            MentionUri::Fetch { url } => url.clone(),
            MentionUri::Skill { name, .. } => name.clone(),
            MentionUri::StackReview { path, side, line_range, .. } => {
                let name = match path {
                    Some(path) => file_name(path.as_str()),
                    None => None,
                };
                let mut label = match name {
                    Some(name) => name.to_owned(),
                    None => "Stack Review".to_owned(),
                };
                label.append(" (");
                label.append(side.as_str());
                match line_range {
                    Some(range) => {
                        label.append(" ");
                        push_decimal(&mut label, range.start as u64);
                        label.append("-");
                        push_decimal(&mut label, range.end as u64);
                    },
                    None => {},
                }
                label.append(")");
                label
            },
        }
    }

    /// The name of the mention with `detail` levels of what tells it from others of the same
    /// name: names of the directories above a file, or the source of a skill.
    pub fn disambiguated_name(&self, detail: usize) -> (name: String)
        ensures
            name@ == detailed_name(self@, detail as nat),
    {
        if detail == 0 {
            return self.name();
        }
        match self {
            MentionUri::Skill { name, source, .. } => {
                if source.as_str().unicode_len() == 0 {
                    name.clone().concat(" (global)")
                } else {
                    name.clone().concat(" (").concat(source.as_str()).concat(")")
                }
            },
            MentionUri::File { abs_path } => path_suffix(abs_path.as_str(), detail),
            MentionUri::Directory { abs_path } => path_suffix(abs_path.as_str(), detail),
            _ => self.name(),
        }
    }

    /// What a tooltip says of the mention.
    pub fn tooltip_text(&self) -> (text: Option<String>)
        ensures
            opt_string_view(text) == mention_tooltip(self@),
    {
        match self {
            MentionUri::File { abs_path } => Some(abs_path.clone()),
            MentionUri::Directory { abs_path } => Some(abs_path.clone()),
            MentionUri::Symbol { abs_path, line_range, .. } => Some(
                path_with_lines(abs_path.as_str(), line_range),
            ),
            MentionUri::Selection { abs_path: Some(path), line_range, .. } => Some(
                path_with_lines(path.as_str(), line_range),
            ),
            MentionUri::Skill { skill_file_path, .. } => Some(skill_file_path.clone()),
            MentionUri::StackReview { base_oid, head_oid, path, side, line_range, .. } => {
                let mut label = "Immutable Stack Review ".to_owned();
                label.append(base_oid.as_str());
                label.append("…");
                label.append(head_oid.as_str());
                label.append(" · ");
                label.append(side.as_str());
                let ghost head = label@;
                let ghost path_part = match opt_string_view(*path) {
                    Some(path) => " · "@ + path,
                    None => Seq::empty(),
                };
                match path {
                    Some(path) => {
                        label.append(" · ");
                        label.append(path.as_str());
                    },
                    None => {},
                }
                assert(label@ =~= head + path_part);
                let ghost before = label@;
                let ghost lines_part = match *line_range {
                    Some(range) => " · lines "@ + decimal_text(range.start as nat) + "-"@
                        + decimal_text(range.end as nat),
                    None => Seq::empty(),
                };
                match line_range {
                    Some(range) => {
                        label.append(" · lines ");
                        push_decimal(&mut label, range.start as u64);
                        label.append("-");
                        push_decimal(&mut label, range.end as u64);
                    },
                    None => {},
                }
                assert(label@ =~= before + lines_part);
                Some(label)
            },
            _ => None,
        }
    }

    /// What stands for the mention.
    pub fn icon_path(&self) -> (icon: MentionIcon)
        ensures
            icon == match self@ {
                MentionView::File { .. } => MentionIcon::File,
                MentionView::PastedImage { .. } => MentionIcon::Image,
                MentionView::Directory { .. } => MentionIcon::Folder,
                MentionView::Symbol { .. } => MentionIcon::Code,
                MentionView::Thread { .. } => MentionIcon::Thread,
                MentionView::Rule { .. } => MentionIcon::Reader,
                MentionView::Diagnostics { .. } => MentionIcon::Warning,
                MentionView::TerminalSelection { .. } => MentionIcon::Terminal,
                MentionView::Selection { .. } => MentionIcon::Reader,
                MentionView::Fetch { .. } => MentionIcon::ToolWeb,
                MentionView::GitDiff { .. } => MentionIcon::GitBranch,
                MentionView::MergeConflict { .. } => MentionIcon::GitMergeConflict,
                MentionView::Skill { .. } => MentionIcon::Sparkle,
                MentionView::StackReview(_) => MentionIcon::GitBranch,
            },
    {
        match self {
            MentionUri::File { .. } => MentionIcon::File,
            MentionUri::PastedImage { .. } => MentionIcon::Image,
            MentionUri::Directory { .. } => MentionIcon::Folder,
            MentionUri::Symbol { .. } => MentionIcon::Code,
            MentionUri::Thread { .. } => MentionIcon::Thread,
            MentionUri::Rule { .. } => MentionIcon::Reader,
            MentionUri::Diagnostics { .. } => MentionIcon::Warning,
            MentionUri::TerminalSelection { .. } => MentionIcon::Terminal,
            MentionUri::Selection { .. } => MentionIcon::Reader,
            MentionUri::Fetch { .. } => MentionIcon::ToolWeb,
            MentionUri::GitDiff { .. } => MentionIcon::GitBranch,
            MentionUri::MergeConflict { .. } => MentionIcon::GitMergeConflict,
            MentionUri::Skill { .. } => MentionIcon::Sparkle,
            MentionUri::StackReview { .. } => MentionIcon::GitBranch,
        }
    }

    /// The mention as a link in Markdown.
    pub fn as_link<'a>(&'a self) -> (link: MentionLink<'a>)
        ensures
            *link.mention == *self,
    {
        MentionLink { mention: self }
    }
}

} // verus!
