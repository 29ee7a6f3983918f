//! The files that differ between two commits of a stack, and where their changes come from.

use crate::line_diff::{
    after_sides, before_sides, histogram_hunks, hunks_ascend, hunks_line_up, line_count,
    lines_added, lines_fit, lines_removed, stack_review_line_counts,
};
use crate::path_order::{lemma_path_le_total, lemma_path_le_transitive, path_le, path_not_after};
use crate::ranking::{is_ranking, positions, rank};
use crate::text::same_text;
use crate::text_map::TextMap;
use vstd::prelude::*;
use vstd::string::*;

verus! {

/// A commit on the first-parent line, with the paths that it touches.
#[derive(Clone, Debug, PartialEq, Eq)]
pub struct FirstParentCommit {
    pub oid: String,
    pub author_timestamp: i64,
    pub is_merge: bool,
    pub paths: Vec<String>,
}

/// How a path differs between two trees; `old` names what it held before.
#[derive(Clone, Debug, PartialEq, Eq)]
pub enum TreeDiffStatus {
    Added,
    Modified { old: String },
    Deleted { old: String },
}

/// A path that differs between two trees.
#[derive(Clone, Debug, PartialEq, Eq)]
pub struct TreeDiffEntry {
    pub path: String,
    pub status: TreeDiffStatus,
}

/// What a file holds at a revision.
#[derive(Clone, Debug, PartialEq, Eq)]
pub enum RevisionContent {
    Text(String),
    Binary,
    /// Something that is no file, such as a submodule.
    NonBlob(String),
    /// The contents could not be had, for this reason.
    Unavailable(String),
}

/// What is to be loaded of a path.
#[derive(Clone, Debug, PartialEq, Eq)]
pub struct StackReviewContentRequest {
    pub path: String,
    pub old_oid: Option<String>,
    pub load_new: bool,
}

/// What was loaded of a path.
#[derive(Debug, PartialEq, Eq)]
pub struct StackReviewContents {
    pub old: Option<RevisionContent>,
    pub new: Option<RevisionContent>,
}

#[derive(Clone, Copy, Debug, PartialEq, Eq, Structural)]
pub enum StackReviewFileStatus {
    Added,
    Modified,
    Deleted,
}

/// Which commits touched a file: ordinary ones, merges, both or none that are known.
#[derive(Clone, Copy, Debug, PartialEq, Eq, Structural)]
pub enum StackReviewFileProvenance {
    Direct,
    Merge,
    Mixed,
    Unknown,
}

#[derive(Clone, Copy, Debug, PartialEq, Eq, Structural)]
pub enum StackReviewContentKind {
    Text,
    Binary,
    NonBlob,
    Unavailable,
}

/// A file that differs between two commits.
#[derive(Debug, PartialEq, Eq)]
pub struct StackReviewFileDiff {
    pub path: String,
    pub status: StackReviewFileStatus,
    pub old_content: Option<RevisionContent>,
    pub new_content: Option<RevisionContent>,
    pub provenance: StackReviewFileProvenance,
    pub content_kind: StackReviewContentKind,
    pub additions: Option<u32>,
    pub deletions: Option<u32>,
}

/// How many files have each provenance.
#[derive(Debug, PartialEq, Eq)]
pub struct StackReviewProvenanceCounts {
    pub direct: usize,
    pub merge: usize,
    pub mixed: usize,
    pub unknown: usize,
}

impl Default for StackReviewProvenanceCounts {
    fn default() -> (counts: Self)
        ensures
            counts == (StackReviewProvenanceCounts { direct: 0, merge: 0, mixed: 0, unknown: 0 }),
    {
        StackReviewProvenanceCounts { direct: 0, merge: 0, mixed: 0, unknown: 0 }
    }
}

/// The files that differ between two commits.
#[derive(Debug, PartialEq, Eq)]
pub struct StackReviewDiff {
    pub base_ref: String,
    pub head_ref: String,
    pub files: Vec<StackReviewFileDiff>,
}

/// Not as many contents were loaded as were asked for.
#[derive(Clone, Copy, Debug, PartialEq, Eq, Structural)]
pub struct ContentCountMismatch;

impl ContentCountMismatch {
    /// The error in words.
    pub fn message(&self) -> (message: String)
        ensures
            message@ == "stack content count mismatch"@,
    {
        "stack content count mismatch".to_owned()
    }
}

/// Whether a commit touches a path.
pub open spec fn touches(commit: FirstParentCommit, path: Seq<char>) -> bool {
    exists|j: int| 0 <= j < commit.paths@.len() && (#[trigger] commit.paths@[j])@ == path
}

/// Whether one of some commits, a merge or an ordinary one, touches a path.
pub open spec fn touched(commits: Seq<FirstParentCommit>, path: Seq<char>, merge: bool) -> bool {
    exists|i: int|
        0 <= i < commits.len() && commits[i].is_merge == merge && touches(
            #[trigger] commits[i],
            path,
        )
}

/// Where the changes to a path come from.
pub open spec fn provenance_of(commits: Seq<FirstParentCommit>, path: Seq<char>) -> StackReviewFileProvenance {
    match (touched(commits, path, false), touched(commits, path, true)) {
        (true, false) => StackReviewFileProvenance::Direct,
        (false, true) => StackReviewFileProvenance::Merge,
        (true, true) => StackReviewFileProvenance::Mixed,
        (false, false) => StackReviewFileProvenance::Unknown,
    }
}

fn commit_touches(commit: &FirstParentCommit, path: &str) -> (touches_it: bool)
    ensures
        touches_it == touches(*commit, path@),
{
    let mut j: usize = 0;
    while j < commit.paths.len()
        invariant
            j <= commit.paths@.len(),
            forall|k: int| 0 <= k < j ==> (#[trigger] commit.paths@[k])@ != path@,
        decreases commit.paths.len() - j,
    {
        if same_text(commit.paths[j].as_str(), path) {
            return true;
        }
        j += 1;
    }
    false
}

/// Where the changes to a path come from.
pub fn file_provenance(commits: &Vec<FirstParentCommit>, path: &str) -> (provenance:
    StackReviewFileProvenance)
    ensures
        provenance == provenance_of(commits@, path@),
{
    let mut direct = false;
    let mut merge = false;
    let mut i: usize = 0;
    while i < commits.len()
        invariant
            i <= commits@.len(),
            direct == exists|k: int|
                0 <= k < i && !commits@[k].is_merge && touches(#[trigger] commits@[k], path@),
            merge == exists|k: int|
                0 <= k < i && commits@[k].is_merge && touches(#[trigger] commits@[k], path@),
        decreases commits.len() - i,
    {
        if commit_touches(&commits[i], path) {
            assert(touches(commits@[i as int], path@));
            if commits[i].is_merge {
                merge = true;
            } else {
                direct = true;
            }
        }
        i += 1;
    }
    match (direct, merge) {
        (true, false) => StackReviewFileProvenance::Direct,
        (false, true) => StackReviewFileProvenance::Merge,
        (true, true) => StackReviewFileProvenance::Mixed,
        (false, false) => StackReviewFileProvenance::Unknown,
    }
}

/// The paths that commits from a time on touch.
pub fn paths_since(commits: &Vec<FirstParentCommit>, author_timestamp: i64) -> (paths: TextMap<()>)
    ensures
        paths.wf(),
        forall|path: Seq<char>| #[trigger]
            paths@.contains_key(path) == exists|i: int|
                0 <= i < commits@.len() && commits@[i].author_timestamp >= author_timestamp
                    && touches(#[trigger] commits@[i], path),
{
    let mut paths: TextMap<()> = TextMap::new();
    let mut i: usize = 0;
    while i < commits.len()
        invariant
            i <= commits@.len(),
            paths.wf(),
            forall|path: Seq<char>| #[trigger]
                paths@.contains_key(path) == exists|k: int|
                    0 <= k < i && commits@[k].author_timestamp >= author_timestamp && touches(
                        #[trigger] commits@[k],
                        path,
                    ),
        decreases commits.len() - i,
    {
        let commit = &commits[i];
        let ghost before = paths@;
        if commit.author_timestamp >= author_timestamp {
            let mut j: usize = 0;
            while j < commit.paths.len()
                invariant
                    j <= commit.paths@.len(),
                    paths.wf(),
                    forall|path: Seq<char>| #[trigger]
                        paths@.contains_key(path) == (before.contains_key(path) || exists|k: int|
                            0 <= k < j && (#[trigger] commit.paths@[k])@ == path),
                decreases commit.paths.len() - j,
            {
                let ghost now = paths@;
                paths.insert(commit.paths[j].clone(), ());
                proof {
                    assert forall|path: Seq<char>| #[trigger]
                        paths@.contains_key(path) == (before.contains_key(path) || exists|k: int|
                            0 <= k < j + 1 && (#[trigger] commit.paths@[k])@ == path) by {
                        assert(paths@.contains_key(path) == (now.contains_key(path) || path
                            == commit.paths@[j as int]@));
                    }
                }
                j += 1;
            }
        }
        proof {
            assert forall|path: Seq<char>| #[trigger]
                paths@.contains_key(path) == exists|k: int|
                    0 <= k < i + 1 && commits@[k].author_timestamp >= author_timestamp && touches(
                        #[trigger] commits@[k],
                        path,
                    ) by {
                if commit.author_timestamp >= author_timestamp {
                    assert(paths@.contains_key(path) == (before.contains_key(path) || touches(
                        commits@[i as int],
                        path,
                    )));
                }
            }
        }
        i += 1;
    }
    paths
}

/// Whether a path belongs in a diff: it is among those asked for, where some are, and not only
/// merges touched it.
pub open spec fn in_diff(
    commits: Seq<FirstParentCommit>,
    included: Option<Map<Seq<char>, ()>>,
    path: Seq<char>,
) -> bool {
    &&& included matches Some(paths) ==> paths.contains_key(path)
    &&& provenance_of(commits, path) != StackReviewFileProvenance::Merge
}

/// The entries whose paths belong in the diff.
pub open spec fn entries_in_diff(
    entries: Seq<TreeDiffEntry>,
    commits: Seq<FirstParentCommit>,
    included: Option<Map<Seq<char>, ()>>,
) -> Seq<TreeDiffEntry>
    decreases entries.len(),
{
    if entries.len() == 0 {
        Seq::empty()
    } else {
        let before = entries_in_diff(entries.drop_last(), commits, included);
        if in_diff(commits, included, entries.last().path@) {
            before.push(entries.last())
        } else {
            before
        }
    }
}

/// Entries compared by their paths.
pub open spec fn entry_le(entries: Seq<TreeDiffEntry>) -> spec_fn(int, int) -> bool {
    |a: int, b: int| path_le(entries[a].path@, entries[b].path@)
}

/// `sorted` holds `entries` in the order of their paths.
pub open spec fn sorted_by_path(entries: Seq<TreeDiffEntry>, sorted: Seq<TreeDiffEntry>) -> bool {
    exists|order: Seq<int>| #[trigger]
        is_ranking(order, entries.len(), entry_le(entries)) && sorted == Seq::new(
            entries.len(),
            |i: int| entries[order[i]],
        )
}

impl TreeDiffEntry {
    /// A copy of the entry.
    pub fn copied(&self) -> (entry: Self)
        ensures
            entry == *self,
    {
        TreeDiffEntry {
            path: self.path.clone(),
            status: match &self.status {
                TreeDiffStatus::Added => TreeDiffStatus::Added,
                TreeDiffStatus::Modified { old } => TreeDiffStatus::Modified { old: old.clone() },
                TreeDiffStatus::Deleted { old } => TreeDiffStatus::Deleted { old: old.clone() },
            },
        }
    }
}

/// The map behind paths that may be absent.
pub open spec fn opt_paths_view(paths: Option<&TextMap<()>>) -> Option<Map<Seq<char>, ()>> {
    match paths {
        Some(paths) => Some(paths@),
        None => None,
    }
}

/// The entries of a tree diff that belong in the stack's diff, in the order of their paths.
pub fn plan_stack_diff(
    entries: &Vec<TreeDiffEntry>,
    commits: &Vec<FirstParentCommit>,
    included_paths: Option<&TextMap<()>>,
) -> (planned: Vec<TreeDiffEntry>)
    requires
        included_paths matches Some(paths) ==> paths.wf(),
    ensures
        sorted_by_path(
            entries_in_diff(entries@, commits@, opt_paths_view(included_paths)),
            planned@,
        ),
{
    let ghost included = opt_paths_view(included_paths);
    let mut kept: Vec<TreeDiffEntry> = Vec::new();
    let mut i: usize = 0;
    assert(entries@.take(0) =~= Seq::<TreeDiffEntry>::empty());
    while i < entries.len()
        invariant
            i <= entries@.len(),
            included == opt_paths_view(included_paths),
            included_paths matches Some(paths) ==> paths.wf(),
            kept@ == entries_in_diff(entries@.take(i as int), commits@, included),
        decreases entries.len() - i,
    {
        assert(entries@.take(i + 1).drop_last() =~= entries@.take(i as int));
        let path = entries[i].path.as_str();
        let wanted = match included_paths {
            Some(paths) => paths.get(path).is_some(),
            None => true,
        };
        if wanted {
            match file_provenance(commits, path) {
                StackReviewFileProvenance::Merge => {},
                _ => {
                    kept.push(entries[i].copied());
                },
            }
        }
        i += 1;
    }
    assert(entries@.take(i as int) =~= entries@);
    sort_by_path(&kept)
}

fn sort_by_path(entries: &Vec<TreeDiffEntry>) -> (sorted: Vec<TreeDiffEntry>)
    ensures
        sorted_by_path(entries@, sorted@),
{
    let ghost le = entry_le(entries@);
    let len: usize = entries.len();
    let not_after = |a: usize, b: usize| -> (answer: bool)
        requires
            a < entries@.len(),
            b < entries@.len(),
        ensures
            answer == path_le(entries@[a as int].path@, entries@[b as int].path@),
        { path_not_after(entries[a].path.as_str(), entries[b].path.as_str()) };
    proof {
        assert forall|a: int, b: int|
            #![trigger le(a, b)]
            0 <= a < len && 0 <= b < len implies le(a, b) || le(b, a) by {
            lemma_path_le_total(entries@[a].path@, entries@[b].path@);
        }
        assert forall|a: int, b: int, c: int|
            #![trigger le(a, b), le(b, c)]
            0 <= a < len && 0 <= b < len && 0 <= c < len && le(a, b) && le(b, c) implies le(
            a,
            c,
        ) by {
            lemma_path_le_transitive(entries@[a].path@, entries@[b].path@, entries@[c].path@);
        }
    }
    let order = rank(len, not_after, Ghost(le));
    let ghost places = positions(order@);
    let mut sorted: Vec<TreeDiffEntry> = Vec::new();
    let mut i: usize = 0;
    while i < order.len()
        invariant
            i <= order@.len(),
            sorted@.len() == i,
            order@.len() == entries@.len(),
            places == positions(order@),
            is_ranking(places, entries@.len(), le),
            forall|k: int| 0 <= k < i ==> #[trigger] sorted@[k] == entries@[places[k]],
        decreases order.len() - i,
    {
        assert(places[i as int] == order@[i as int] as int);
        sorted.push(entries[order[i]].copied());
        i += 1;
    }
    assert(sorted@ =~= Seq::new(entries@.len(), |i: int| entries@[places[i]]));
    sorted
}

/// What is to be loaded of an entry: what it held before, unless it is new, and what it holds
/// now, unless it is gone.
pub open spec fn content_request(entry: TreeDiffEntry) -> StackReviewContentRequest {
    StackReviewContentRequest {
        path: entry.path,
        old_oid: match entry.status {
            TreeDiffStatus::Added => None,
            TreeDiffStatus::Modified { old } => Some(old),
            TreeDiffStatus::Deleted { old } => Some(old),
        },
        load_new: !(entry.status is Deleted),
    }
}

/// What is to be loaded of each entry.
pub fn content_requests(entries: &Vec<TreeDiffEntry>) -> (requests: Vec<StackReviewContentRequest>)
    ensures
        requests@.len() == entries@.len(),
        forall|i: int|
            0 <= i < requests@.len() ==> #[trigger] requests@[i] == content_request(entries@[i]),
{
    let mut requests: Vec<StackReviewContentRequest> = Vec::new();
    let mut i: usize = 0;
    while i < entries.len()
        invariant
            i <= entries@.len(),
            requests@.len() == i,
            forall|k: int| 0 <= k < i ==> #[trigger] requests@[k] == content_request(entries@[k]),
        decreases entries.len() - i,
    {
        let entry = &entries[i];
        let old_oid = match &entry.status {
            TreeDiffStatus::Added => None,
            TreeDiffStatus::Modified { old } => Some(old.clone()),
            TreeDiffStatus::Deleted { old } => Some(old.clone()),
        };
        let load_new = match &entry.status {
            TreeDiffStatus::Deleted { .. } => false,
            _ => true,
        };
        requests.push(StackReviewContentRequest { path: entry.path.clone(), old_oid, load_new });
        i += 1;
    }
    requests
}

/// The kind of one side's contents.
pub open spec fn side_kind(content: Option<RevisionContent>) -> StackReviewContentKind {
    match content {
        Some(RevisionContent::Unavailable(_)) => StackReviewContentKind::Unavailable,
        Some(RevisionContent::NonBlob(_)) => StackReviewContentKind::NonBlob,
        Some(RevisionContent::Binary) => StackReviewContentKind::Binary,
        _ => StackReviewContentKind::Text,
    }
}

/// The kind of a file's contents: the least usable of its two sides.
pub open spec fn content_kind_of(
    old: Option<RevisionContent>,
    new: Option<RevisionContent>,
) -> StackReviewContentKind {
    let a = side_kind(old);
    let b = side_kind(new);
    if a is Unavailable || b is Unavailable {
        StackReviewContentKind::Unavailable
    } else if a is NonBlob || b is NonBlob {
        StackReviewContentKind::NonBlob
    } else if a is Binary || b is Binary {
        StackReviewContentKind::Binary
    } else {
        StackReviewContentKind::Text
    }
}

/// The text of one side; a side that is not there is empty.
pub open spec fn side_text(content: Option<RevisionContent>) -> Option<Seq<char>> {
    match content {
        Some(RevisionContent::Text(text)) => Some(text@),
        Some(_) => None,
        None => Some(Seq::empty()),
    }
}

/// The texts whose lines are counted: both sides', where there is a side and each is text.
pub open spec fn counted_texts(
    old: Option<RevisionContent>,
    new: Option<RevisionContent>,
) -> Option<(Seq<char>, Seq<char>)> {
    match (side_text(old), side_text(new)) {
        (Some(old_text), Some(new_text)) => if old is None && new is None {
            None
        } else {
            Some((old_text, new_text))
        },
        _ => None,
    }
}

/// The contents are short enough to be compared line by line, where they are compared.
pub open spec fn contents_fit(contents: StackReviewContents) -> bool {
    counted_texts(contents.old, contents.new) matches Some((old_text, new_text)) ==> lines_fit(
        old_text,
        new_text,
    )
}

/// The hunks between the contents run forward and leave lines that stand side by side, where the
/// contents are compared.
pub open spec fn contents_line_up(contents: StackReviewContents) -> bool {
    counted_texts(contents.old, contents.new) matches Some((old_text, new_text)) ==> {
        &&& hunks_ascend(histogram_hunks(old_text, new_text))
        &&& hunks_line_up(
            histogram_hunks(old_text, new_text),
            line_count(old_text) as int,
            line_count(new_text) as int,
        )
    }
}

/// What a diff says of a file.
pub open spec fn describes_file(
    file: StackReviewFileDiff,
    entry: TreeDiffEntry,
    contents: StackReviewContents,
    commits: Seq<FirstParentCommit>,
) -> bool {
    &&& file.path == entry.path
    &&& file.status == match entry.status {
        TreeDiffStatus::Added => StackReviewFileStatus::Added,
        TreeDiffStatus::Modified { .. } => StackReviewFileStatus::Modified,
        TreeDiffStatus::Deleted { .. } => StackReviewFileStatus::Deleted,
    }
    &&& file.old_content == contents.old
    &&& file.new_content == contents.new
    &&& file.provenance == provenance_of(commits, entry.path@)
    &&& file.content_kind == content_kind_of(contents.old, contents.new)
    &&& match counted_texts(contents.old, contents.new) {
        Some((old_text, new_text)) => {
            &&& file.additions matches Some(n) && n == lines_added(
                histogram_hunks(old_text, new_text),
            )
            &&& file.deletions matches Some(n) && n == lines_removed(
                histogram_hunks(old_text, new_text),
            )
        },
        None => file.additions is None && file.deletions is None,
    }
}

/// How a file's counts of changed lines hang together with what it held before and holds now:
/// what is added is what the new sides of the line diff's hunks hold, what is deleted is what
/// their old sides hold, and together they make up the difference in length. A new file only adds
/// lines, all of its own; one that is gone only deletes them.
pub open spec fn counts_changed_lines(
    additions: Option<u32>,
    deletions: Option<u32>,
    old: Option<RevisionContent>,
    new: Option<RevisionContent>,
) -> bool {
    match (old, new) {
        (Some(RevisionContent::Text(old_text)), Some(RevisionContent::Text(new_text))) => {
            let hunks = histogram_hunks(old_text@, new_text@);
            &&& additions is Some && deletions is Some
            &&& additions->0 == after_sides(hunks)
            &&& deletions->0 == before_sides(hunks)
            &&& additions->0 - deletions->0 == line_count(new_text@) - line_count(old_text@)
            &&& additions->0 <= line_count(new_text@)
            &&& deletions->0 <= line_count(old_text@)
        },
        (None, Some(RevisionContent::Text(new_text))) => {
            &&& additions is Some && additions->0 == line_count(new_text@)
            &&& deletions == Some(0u32)
        },
        (Some(RevisionContent::Text(old_text)), None) => {
            &&& additions == Some(0u32)
            &&& deletions is Some && deletions->0 == line_count(old_text@)
        },
        _ => additions is None && deletions is None,
    }
}

fn kind_of_side(content: &Option<RevisionContent>) -> (kind: StackReviewContentKind)
    ensures
        kind == side_kind(*content),
{
    match content {
        Some(RevisionContent::Unavailable(_)) => StackReviewContentKind::Unavailable,
        Some(RevisionContent::NonBlob(_)) => StackReviewContentKind::NonBlob,
        Some(RevisionContent::Binary) => StackReviewContentKind::Binary,
        _ => StackReviewContentKind::Text,
    }
}

fn text_of_side(content: &Option<RevisionContent>) -> (text: Option<&str>)
    ensures
        crate::text::opt_view(text) == side_text(*content),
{
    match content {
        Some(RevisionContent::Text(text)) => Some(text.as_str()),
        Some(_) => None,
        None => {
            proof {
                reveal_strlit("");
            }
            assert(""@ =~= Seq::<char>::empty());
            Some("")
        },
    }
}

/// What a diff says of a file.
pub fn describe_file(
    entry: &TreeDiffEntry,
    contents: StackReviewContents,
    commits: &Vec<FirstParentCommit>,
) -> (file: StackReviewFileDiff)
    requires
        contents_fit(contents),
    ensures
        describes_file(file, *entry, contents, commits@),
        counts_changed_lines(file.additions, file.deletions, contents.old, contents.new),
        contents_line_up(contents),
{
    let status = match &entry.status {
        TreeDiffStatus::Added => StackReviewFileStatus::Added,
        TreeDiffStatus::Modified { .. } => StackReviewFileStatus::Modified,
        TreeDiffStatus::Deleted { .. } => StackReviewFileStatus::Deleted,
    };
    let old_kind = kind_of_side(&contents.old);
    let new_kind = kind_of_side(&contents.new);
    let content_kind = if old_kind == StackReviewContentKind::Unavailable || new_kind
        == StackReviewContentKind::Unavailable {
        StackReviewContentKind::Unavailable
    } else if old_kind == StackReviewContentKind::NonBlob || new_kind
        == StackReviewContentKind::NonBlob {
        StackReviewContentKind::NonBlob
    } else if old_kind == StackReviewContentKind::Binary || new_kind
        == StackReviewContentKind::Binary {
        StackReviewContentKind::Binary
    } else {
        StackReviewContentKind::Text
    };
    let absent = contents.old.is_none() && contents.new.is_none();
    let (additions, deletions) = match (
        text_of_side(&contents.old),
        text_of_side(&contents.new),
    ) {
        (Some(old_text), Some(new_text)) => {
            if absent {
                (None, None)
            } else {
                let counts = stack_review_line_counts(old_text, new_text);
                (Some(counts.0), Some(counts.1))
            }
        },
        _ => (None, None),
    };
    StackReviewFileDiff {
        path: entry.path.clone(),
        status,
        provenance: file_provenance(commits, entry.path.as_str()),
        content_kind,
        additions,
        deletions,
        old_content: contents.old,
        new_content: contents.new,
    }
}

/// The diff that planned entries and their contents make up. Fails where there are not as many
/// contents as entries.
pub fn assemble_stack_diff(
    base_ref: &str,
    head_ref: &str,
    entries: &Vec<TreeDiffEntry>,
    contents: Vec<StackReviewContents>,
    commits: &Vec<FirstParentCommit>,
) -> (diff: Result<StackReviewDiff, ContentCountMismatch>)
    requires
        forall|i: int| 0 <= i < contents@.len() ==> contents_fit(#[trigger] contents@[i]),
    ensures
        match diff {
            Ok(diff) => {
                &&& contents@.len() == entries@.len()
                &&& diff.base_ref@ == base_ref@
                &&& diff.head_ref@ == head_ref@
                &&& diff.files@.len() == entries@.len()
                &&& forall|i: int|
                    0 <= i < entries@.len() ==> describes_file(
                        #[trigger] diff.files@[i],
                        entries@[i],
                        contents@[i],
                        commits@,
                    )
                &&& forall|i: int|
                    0 <= i < entries@.len() ==> counts_changed_lines(
                        (#[trigger] diff.files@[i]).additions,
                        diff.files@[i].deletions,
                        contents@[i].old,
                        contents@[i].new,
                    )
                &&& forall|i: int|
                    0 <= i < contents@.len() ==> contents_line_up(#[trigger] contents@[i])
            },
            Err(_) => contents@.len() != entries@.len(),
        },
{
    if contents.len() != entries.len() {
        return Err(ContentCountMismatch);
    }
    let ghost all = contents@;
    let mut files: Vec<StackReviewFileDiff> = Vec::new();
    for loaded in it: contents
        invariant
            it.seq() == all,
            all.len() == entries@.len(),
            files@.len() == it.index(),
            forall|i: int| 0 <= i < all.len() ==> contents_fit(#[trigger] all[i]),
            forall|i: int|
                0 <= i < files@.len() ==> describes_file(
                    #[trigger] files@[i],
                    entries@[i],
                    all[i],
                    commits@,
                ),
            forall|i: int|
                0 <= i < files@.len() ==> counts_changed_lines(
                    (#[trigger] files@[i]).additions,
                    files@[i].deletions,
                    all[i].old,
                    all[i].new,
                ),
            forall|i: int| 0 <= i < files@.len() ==> contents_line_up(#[trigger] all[i]),
    {
        let i: usize = files.len();
        assert(contents_fit(all[i as int]));
        files.push(describe_file(&entries[i], loaded, commits));
    }
    Ok(StackReviewDiff { base_ref: base_ref.to_owned(), head_ref: head_ref.to_owned(), files })
}

/// How many of some files have a provenance.
pub open spec fn files_with(
    files: Seq<StackReviewFileDiff>,
    provenance: StackReviewFileProvenance,
) -> nat
    decreases files.len(),
{
    if files.len() == 0 {
        0
    } else {
        files_with(files.drop_last(), provenance) + (if files.last().provenance == provenance {
            1nat
        } else {
            0nat
        })
    }
}

impl StackReviewDiff {
    /// The file at a path.
    pub fn file(&self, path: &str) -> (file: Option<&StackReviewFileDiff>)
        ensures
            match file {
                Some(file) => exists|i: int|
                    0 <= i < self.files@.len() && #[trigger] self.files@[i] == *file && file.path@
                        == path@ && forall|k: int|
                        0 <= k < i ==> (#[trigger] self.files@[k]).path@ != path@,
                None => forall|k: int|
                    0 <= k < self.files@.len() ==> (#[trigger] self.files@[k]).path@ != path@,
            },
    {
        let mut i: usize = 0;
        while i < self.files.len()
            invariant
                i <= self.files@.len(),
                forall|k: int| 0 <= k < i ==> (#[trigger] self.files@[k]).path@ != path@,
            decreases self.files.len() - i,
        {
            if same_text(self.files[i].path.as_str(), path) {
                assert(self.files@[i as int].path@ == path@);
                return Some(&self.files[i]);
            }
            i += 1;
        }
        None
    }

    /// How many files have each provenance.
    pub fn provenance_counts(&self) -> (counts: StackReviewProvenanceCounts)
        ensures
            counts.direct == files_with(self.files@, StackReviewFileProvenance::Direct),
            counts.merge == files_with(self.files@, StackReviewFileProvenance::Merge),
            counts.mixed == files_with(self.files@, StackReviewFileProvenance::Mixed),
            counts.unknown == files_with(self.files@, StackReviewFileProvenance::Unknown),
            counts.direct + counts.merge + counts.mixed + counts.unknown == self.files@.len(),
    {
        let mut counts = StackReviewProvenanceCounts::default();
        let mut i: usize = 0;
        assert(self.files@.take(0) =~= Seq::<StackReviewFileDiff>::empty());
        while i < self.files.len()
            invariant
                i <= self.files@.len(),
                counts.direct == files_with(
                    self.files@.take(i as int),
                    StackReviewFileProvenance::Direct,
                ),
                counts.merge == files_with(
                    self.files@.take(i as int),
                    StackReviewFileProvenance::Merge,
                ),
                counts.mixed == files_with(
                    self.files@.take(i as int),
                    StackReviewFileProvenance::Mixed,
                ),
                counts.unknown == files_with(
                    self.files@.take(i as int),
                    StackReviewFileProvenance::Unknown,
                ),
                counts.direct + counts.merge + counts.mixed + counts.unknown == i,
            decreases self.files.len() - i,
        {
            assert(self.files@.take(i + 1).drop_last() =~= self.files@.take(i as int));
            match self.files[i].provenance {
                StackReviewFileProvenance::Direct => counts.direct += 1,
                StackReviewFileProvenance::Merge => counts.merge += 1,
                StackReviewFileProvenance::Mixed => counts.mixed += 1,
                StackReviewFileProvenance::Unknown => counts.unknown += 1,
            }
            i += 1;
        }
        assert(self.files@.take(i as int) =~= self.files@);
        counts
    }
}

/// A file that only merges touched is not in a planned diff, and every other file that is asked
/// for is.
pub proof fn planned_diff_excludes_merge_only_files(
    entries: Seq<TreeDiffEntry>,
    commits: Seq<FirstParentCommit>,
    included: Option<Map<Seq<char>, ()>>,
    planned: Seq<TreeDiffEntry>,
    entry: TreeDiffEntry,
)
    requires
        sorted_by_path(entries_in_diff(entries, commits, included), planned),
    ensures
        planned.contains(entry) == (entries.contains(entry) && in_diff(
            commits,
            included,
            entry.path@,
        )),
{
    let kept = entries_in_diff(entries, commits, included);
    lemma_entries_in_diff(entries, commits, included, entry);
    let order = choose|order: Seq<int>| #[trigger]
        is_ranking(order, kept.len(), entry_le(kept)) && planned == Seq::new(
            kept.len(),
            |i: int| kept[order[i]],
        );
    if planned.contains(entry) {
        let i = choose|i: int| 0 <= i < planned.len() && planned[i] == entry;
        assert(kept[order[i]] == entry);
        assert(kept.contains(entry));
    }
    if kept.contains(entry) {
        let k = choose|k: int| 0 <= k < kept.len() && kept[k] == entry;
        crate::ranking::lemma_ranking_covers(order, kept.len(), entry_le(kept), k);
        let i = choose|i: int| 0 <= i < order.len() && order[i] == k;
        assert(planned[i] == entry);
    }
}

proof fn lemma_entries_in_diff(
    entries: Seq<TreeDiffEntry>,
    commits: Seq<FirstParentCommit>,
    included: Option<Map<Seq<char>, ()>>,
    entry: TreeDiffEntry,
)
    ensures
        entries_in_diff(entries, commits, included).contains(entry) == (entries.contains(entry)
            && in_diff(commits, included, entry.path@)),
    decreases entries.len(),
{
    if entries.len() > 0 {
        let rest = entries.drop_last();
        let last = entries.last();
        lemma_entries_in_diff(rest, commits, included, entry);
        let before = entries_in_diff(rest, commits, included);
        let now = entries_in_diff(entries, commits, included);
        assert(entries.contains(entry) == (rest.contains(entry) || entry == last)) by {
            if rest.contains(entry) {
                let i = choose|i: int| 0 <= i < rest.len() && rest[i] == entry;
                assert(entries[i] == entry);
            }
            if entry == last {
                assert(entries[entries.len() - 1] == entry);
            }
            if entries.contains(entry) {
                let i = choose|i: int| 0 <= i < entries.len() && entries[i] == entry;
                if i < rest.len() {
                    assert(rest[i] == entry);
                }
            }
        }
        if in_diff(commits, included, last.path@) {
            if before.contains(entry) {
                let i = choose|i: int| 0 <= i < before.len() && before[i] == entry;
                assert(now[i] == entry);
            }
            if entry == last {
                assert(now[before.len() as int] == entry);
            }
            if now.contains(entry) {
                let i = choose|i: int| 0 <= i < now.len() && now[i] == entry;
                if i < before.len() {
                    assert(before[i] == entry);
                }
            }
        }
    }
}

/// Whether `base` is where a review of what happened since a time begins: at the head where every
/// commit is older, at the base where the first one is not, and else at the commit before the first
/// that is not.
pub open spec fn begins_since(
    base: Seq<char>,
    base_ref: Seq<char>,
    head_ref: Seq<char>,
    commits: Seq<FirstParentCommit>,
    author_timestamp: i64,
) -> bool {
    &&& (forall|k: int|
        0 <= k < commits.len() ==> (#[trigger] commits[k]).author_timestamp < author_timestamp)
        ==> base == head_ref
    &&& commits.len() > 0 && commits[0].author_timestamp >= author_timestamp ==> base == base_ref
    &&& forall|k: int|
        0 < k < commits.len() && (#[trigger] commits[k]).author_timestamp >= author_timestamp && (
        forall|j: int| 0 <= j < k ==> (#[trigger] commits[j]).author_timestamp < author_timestamp)
            ==> base == commits[k - 1].oid@
}

/// Where a review of what happened since a time begins: below the first commit of that time or
/// later, or at the head where there is none.
pub fn time_checkpoint_base(
    base_ref: &str,
    head_ref: &str,
    commits: &Vec<FirstParentCommit>,
    author_timestamp: i64,
) -> (base: String)
    ensures
        exists|at: int|
            #![trigger is_first_since(commits@, author_timestamp, at)]
            is_first_since(commits@, author_timestamp, at) && base@ == (if at == commits@.len() {
                head_ref@
            } else if at == 0 {
                base_ref@
            } else {
                commits@[at - 1].oid@
            }),
        begins_since(base@, base_ref@, head_ref@, commits@, author_timestamp),
{
    let mut at: usize = 0;
    while at < commits.len()
        invariant
            at <= commits@.len(),
            forall|k: int|
                0 <= k < at ==> (#[trigger] commits@[k]).author_timestamp < author_timestamp,
        decreases commits.len() - at,
    {
        if commits[at].author_timestamp >= author_timestamp {
            assert(is_first_since(commits@, author_timestamp, at as int));
            if at == 0 {
                return base_ref.to_owned();
            }
            return commits[at - 1].oid.clone();
        }
        at += 1;
    }
    assert(is_first_since(commits@, author_timestamp, at as int));
    head_ref.to_owned()
}

/// Whether `at` is the position of the first commit from a time on, or the number of commits
/// where there is none.
pub open spec fn is_first_since(
    commits: Seq<FirstParentCommit>,
    author_timestamp: i64,
    at: int,
) -> bool {
    &&& 0 <= at <= commits.len()
    &&& forall|k: int| 0 <= k < at ==> (#[trigger] commits[k]).author_timestamp < author_timestamp
    &&& at < commits.len() ==> commits[at].author_timestamp >= author_timestamp
}

/// Why no commit of the range stands for a candidate.
#[derive(Clone, Debug, PartialEq, Eq)]
pub enum CommitBoundaryError {
    NoEquivalent(String),
    SeveralEquivalents(String),
}

/// What a boundary's error says.
pub open spec fn boundary_message(error: CommitBoundaryError) -> Seq<char> {
    match error {
        CommitBoundaryError::NoEquivalent(candidate) => "commit boundary "@ + candidate@
            + " is not within the selected range and has no patch-equivalent rewritten commit"@,
        CommitBoundaryError::SeveralEquivalents(candidate) => "commit boundary "@ + candidate@
            + " has multiple patch-equivalent commits in the selected range"@,
    }
}

impl CommitBoundaryError {
    /// The error in words.
    pub fn message(&self) -> (message: String)
        ensures
            message@ == boundary_message(*self),
    {
        match self {
            CommitBoundaryError::NoEquivalent(candidate) =>
                "commit boundary ".to_owned().concat(candidate.as_str()).concat(
                " is not within the selected range and has no patch-equivalent rewritten commit",
            ),
            CommitBoundaryError::SeveralEquivalents(candidate) =>
                "commit boundary ".to_owned().concat(candidate.as_str()).concat(
                " has multiple patch-equivalent commits in the selected range",
            ),
        }
    }
}

/// What to do about a candidate for a boundary.
#[derive(Clone, Debug, PartialEq, Eq)]
pub enum CommitBoundaryStep {
    /// The candidate itself is the boundary.
    Boundary(String),
    /// Look for commits of the range that make the same change.
    FindEquivalents,
}

/// A candidate that lies between the range's base and its head is the boundary itself.
pub fn direct_commit_boundary(
    candidate_oid: &str,
    base_is_ancestor: bool,
    is_ancestor_of_head: bool,
) -> (step: CommitBoundaryStep)
    ensures
        match step {
            CommitBoundaryStep::Boundary(oid) => base_is_ancestor && is_ancestor_of_head && oid@
                == candidate_oid@,
            CommitBoundaryStep::FindEquivalents => !(base_is_ancestor && is_ancestor_of_head),
        },
{
    if base_is_ancestor && is_ancestor_of_head {
        CommitBoundaryStep::Boundary(candidate_oid.to_owned())
    } else {
        CommitBoundaryStep::FindEquivalents
    }
}

/// The one commit of the range that makes the candidate's change.
pub fn equivalent_commit_boundary(candidate_oid: &str, equivalent_commits: &Vec<String>) -> (boundary:
    Result<String, CommitBoundaryError>)
    ensures
        match boundary {
            Ok(oid) => equivalent_commits@.len() == 1 && oid == equivalent_commits@[0],
            Err(CommitBoundaryError::NoEquivalent(candidate)) => equivalent_commits@.len() == 0
                && candidate@ == candidate_oid@,
            Err(CommitBoundaryError::SeveralEquivalents(candidate)) => equivalent_commits@.len() > 1
                && candidate@ == candidate_oid@,
        },
{
    if equivalent_commits.len() == 1 {
        Ok(equivalent_commits[0].clone())
    } else if equivalent_commits.len() == 0 {
        Err(CommitBoundaryError::NoEquivalent(candidate_oid.to_owned()))
    } else {
        Err(CommitBoundaryError::SeveralEquivalents(candidate_oid.to_owned()))
    }
}

} // verus!
