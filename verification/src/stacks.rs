//! Stacks of branches: their file, and what their branches resolve to.

use crate::debug_text::{debug_quoted, quote_for_debug};
use crate::decimal::{decimal_text, push_decimal};
use crate::text::same_text;
use crate::text_map::TextMap;
use vstd::prelude::*;
use vstd::string::*;

verus! {

pub const SUPPORTED_SCHEMA_VERSION: u32 = 1;

pub const CURRENT_MANIFEST_SCHEMA_VERSION: u32 = 1;

/// What is wrong with a file of stacks, or with what is asked of it.
#[derive(Clone, Debug, PartialEq, Eq)]
pub enum StackError {
    UnsupportedSchema(u32),
    UnsupportedManifest(u32),
    NotInStack(String),
    InSeveralStacks(String, usize),
    MissingBranch(String),
}

/// What a stack's error says.
pub open spec fn stack_message(error: StackError) -> Seq<char> {
    match error {
        StackError::UnsupportedSchema(version) => "unsupported gh-stack schema version "@
            + decimal_text(version as nat),
        StackError::UnsupportedManifest(version) => "unsupported current-manifest schema "@
            + decimal_text(version as nat),
        StackError::NotInStack(branch) => "branch "@ + debug_quoted(branch@)
            + " is not part of a local stack"@,
        StackError::InSeveralStacks(branch, count) => "branch "@ + debug_quoted(branch@)
            + " belongs to "@ + decimal_text(count as nat) + " local stacks"@,
        StackError::MissingBranch(branch) => "missing local branch "@ + debug_quoted(branch@),
    }
}

impl StackError {
    /// The error in words.
    pub fn message(&self) -> (message: String)
        ensures
            message@ == stack_message(*self),
    {
        match self {
            StackError::UnsupportedSchema(version) => {
                let mut message = "unsupported gh-stack schema version ".to_owned();
                push_decimal(&mut message, *version as u64);
                message
            },
            StackError::UnsupportedManifest(version) => {
                let mut message = "unsupported current-manifest schema ".to_owned();
                push_decimal(&mut message, *version as u64);
                message
            },
            StackError::NotInStack(branch) => {
                let quoted = quote_for_debug(branch.as_str());
                "branch ".to_owned().concat(quoted.as_str()).concat(
                    " is not part of a local stack",
                )
            },
            StackError::InSeveralStacks(branch, count) => {
                let quoted = quote_for_debug(branch.as_str());
                let mut message = "branch ".to_owned().concat(quoted.as_str()).concat(
                    " belongs to ",
                );
                push_decimal(&mut message, *count as u64);
                message.concat(" local stacks")
            },
            StackError::MissingBranch(branch) => {
                let quoted = quote_for_debug(branch.as_str());
                "missing local branch ".to_owned().concat(quoted.as_str())
            },
        }
    }
}

/// What tools outside find a review's files by.
#[derive(Clone, Debug, PartialEq, Eq)]
pub struct StackReviewCurrentManifest {
    pub schema_version: u32,
    pub repository: String,
    pub base_oid: String,
    pub head_oid: String,
    pub review_state_path: String,
    pub comments_path: String,
    pub github_comments_path: String,
    pub layers: Vec<u32>,
}

impl StackReviewCurrentManifest {
    /// A manifest of the schema that is written.
    pub fn new(
        repository: String,
        base_oid: String,
        head_oid: String,
        review_state_path: String,
        comments_path: String,
        github_comments_path: String,
        layers: Vec<u32>,
    ) -> (manifest: Self)
        ensures
            manifest == (StackReviewCurrentManifest {
                schema_version: CURRENT_MANIFEST_SCHEMA_VERSION,
                repository,
                base_oid,
                head_oid,
                review_state_path,
                comments_path,
                github_comments_path,
                layers,
            }),
    {
        StackReviewCurrentManifest {
            schema_version: CURRENT_MANIFEST_SCHEMA_VERSION,
            repository,
            base_oid,
            head_oid,
            review_state_path,
            comments_path,
            github_comments_path,
            layers,
        }
    }

    /// The manifest as it was read, where its schema is known.
    pub fn supported(self) -> (manifest: Result<Self, StackError>)
        ensures
            match manifest {
                Ok(manifest) => manifest == self && self.schema_version
                    == CURRENT_MANIFEST_SCHEMA_VERSION,
                Err(error) => self.schema_version != CURRENT_MANIFEST_SCHEMA_VERSION && error
                    == StackError::UnsupportedManifest(self.schema_version),
            },
    {
        if self.schema_version != CURRENT_MANIFEST_SCHEMA_VERSION {
            Err(StackError::UnsupportedManifest(self.schema_version))
        } else {
            Ok(self)
        }
    }
}

/// A file of stacks.
#[derive(Debug, PartialEq, Eq)]
pub struct StackFile {
    pub schema_version: u32,
    pub repository: Option<String>,
    pub stacks: Vec<Stack>,
}

/// Branches, each based on the one before it, the first on the trunk.
#[derive(Debug, PartialEq, Eq)]
pub struct Stack {
    pub id: Option<String>,
    pub number: Option<u32>,
    pub trunk: BranchRef,
    pub branches: Vec<BranchRef>,
}

/// A branch of a stack.
#[derive(Debug, PartialEq, Eq)]
pub struct BranchRef {
    pub branch: String,
    pub head: Option<String>,
    pub base: Option<String>,
    pub pull_request: Option<PullRequestRef>,
}

/// The pull request of a branch.
#[derive(Debug, PartialEq, Eq)]
pub struct PullRequestRef {
    pub number: u32,
    pub id: Option<String>,
    pub url: Option<String>,
    pub merged: bool,
}

/// A branch with the commit at its head.
#[derive(Clone, Debug, PartialEq, Eq)]
pub struct ResolvedStackBranch {
    pub branch: String,
    pub oid: String,
    pub pull_request_number: Option<u32>,
}

impl ResolvedStackBranch {
    /// A copy of the branch.
    pub fn copied(&self) -> (branch: Self)
        ensures
            branch == *self,
    {
        ResolvedStackBranch {
            branch: self.branch.clone(),
            oid: self.oid.clone(),
            pull_request_number: self.pull_request_number,
        }
    }
}

/// A branch of a stack with the one that it is based on.
#[derive(Clone, Debug, PartialEq, Eq)]
pub struct ResolvedStackLayer {
    pub base: ResolvedStackBranch,
    pub head: ResolvedStackBranch,
}

/// A stack with the commits at the heads of its branches.
#[derive(Clone, Debug, PartialEq, Eq)]
pub struct StackSnapshot {
    pub number: Option<u32>,
    pub trunk: ResolvedStackBranch,
    pub layers: Vec<ResolvedStackLayer>,
}

/// The branch at a boundary of a snapshot: the trunk, then the head of each layer.
pub open spec fn boundary_of(snapshot: StackSnapshot, index: int) -> Option<ResolvedStackBranch> {
    if index == 0 {
        Some(snapshot.trunk)
    } else if 0 < index <= snapshot.layers@.len() {
        Some(snapshot.layers@[index - 1].head)
    } else {
        None
    }
}

impl StackSnapshot {
    /// The branch at a boundary: the trunk, then the head of each layer.
    pub fn boundary(&self, index: usize) -> (branch: Option<&ResolvedStackBranch>)
        ensures
            match branch {
                Some(branch) => boundary_of(*self, index as int) == Some(*branch),
                None => boundary_of(*self, index as int) is None,
            },
    {
        if index == 0 {
            Some(&self.trunk)
        } else if index - 1 < self.layers.len() {
            Some(&self.layers[index - 1].head)
        } else {
            None
        }
    }

    /// The commits at two boundaries, the lower one first.
    pub fn refs_between(&self, from: usize, to: usize) -> (refs: Option<(&str, &str)>)
        ensures
            match refs {
                Some((base, head)) => {
                    &&& from < to <= self.layers@.len()
                    &&& base@ == boundary_of(*self, from as int)->0.oid@
                    &&& head@ == boundary_of(*self, to as int)->0.oid@
                    &&& from == 0 ==> base@ == self.trunk.oid@
                    &&& from > 0 ==> base@ == self.layers@[from - 1].head.oid@
                    &&& head@ == self.layers@[to - 1].head.oid@
                },
                None => from >= to || to > self.layers@.len(),
            },
    {
        if from >= to {
            return None;
        }
        match (self.boundary(from), self.boundary(to)) {
            (Some(base), Some(head)) => Some((base.oid.as_str(), head.oid.as_str())),
            _ => None,
        }
    }
}

/// Whether a stack has this branch, or is based on it.
pub open spec fn stack_contains(stack: Stack, branch: Seq<char>) -> bool {
    stack.trunk.branch@ == branch || exists|i: int|
        0 <= i < stack.branches@.len() && (#[trigger] stack.branches@[i]).branch@ == branch
}

/// How many of some stacks have this branch.
pub open spec fn stacks_with(stacks: Seq<Stack>, branch: Seq<char>) -> nat
    decreases stacks.len(),
{
    if stacks.len() == 0 {
        0
    } else {
        stacks_with(stacks.drop_last(), branch) + (if stack_contains(stacks.last(), branch) {
            1nat
        } else {
            0nat
        })
    }
}

impl StackFile {
    /// The file as it was read, where its schema is known.
    pub fn supported(self) -> (file: Result<Self, StackError>)
        ensures
            match file {
                Ok(file) => file == self && self.schema_version == SUPPORTED_SCHEMA_VERSION,
                Err(error) => self.schema_version != SUPPORTED_SCHEMA_VERSION && error
                    == StackError::UnsupportedSchema(self.schema_version),
            },
    {
        if self.schema_version != SUPPORTED_SCHEMA_VERSION {
            Err(StackError::UnsupportedSchema(self.schema_version))
        } else {
            Ok(self)
        }
    }

    /// The one stack that has this branch.
    pub fn stack_for_branch(&self, branch: &str) -> (stack: Result<&Stack, StackError>)
        ensures
            match stack {
                Ok(stack) => {
                    &&& stacks_with(self.stacks@, branch@) == 1
                    &&& stack_contains(*stack, branch@)
                    &&& self.stacks@.contains(*stack)
                },
                Err(StackError::NotInStack(name)) => stacks_with(self.stacks@, branch@) == 0
                    && name@ == branch@,
                Err(StackError::InSeveralStacks(name, count)) => count > 1 && stacks_with(
                    self.stacks@,
                    branch@,
                ) == count && name@ == branch@,
                Err(_) => false,
            },
    {
        let mut count: usize = 0;
        let mut found: usize = 0;
        let mut i: usize = 0;
        assert(self.stacks@.take(0) =~= Seq::<Stack>::empty());
        while i < self.stacks.len()
            invariant
                i <= self.stacks@.len(),
                count <= i,
                count == stacks_with(self.stacks@.take(i as int), branch@),
                count > 0 ==> found < self.stacks@.len() && stack_contains(
                    self.stacks@[found as int],
                    branch@,
                ),
            decreases self.stacks.len() - i,
        {
            assert(self.stacks@.take(i + 1).drop_last() =~= self.stacks@.take(i as int));
            if self.stacks[i].contains(branch) {
                count += 1;
                found = i;
            }
            i += 1;
        }
        assert(self.stacks@.take(i as int) =~= self.stacks@);
        if count == 1 {
            Ok(&self.stacks[found])
        } else if count == 0 {
            Err(StackError::NotInStack(branch.to_owned()))
        } else {
            Err(StackError::InSeveralStacks(branch.to_owned(), count))
        }
    }
}

/// What a branch resolves to, where its head is known.
pub open spec fn resolved_branch(branch: BranchRef, heads: Map<Seq<char>, String>) -> Option<
    ResolvedStackBranch,
> {
    if heads.contains_key(branch.branch@) {
        Some(
            ResolvedStackBranch {
                branch: branch.branch,
                oid: heads[branch.branch@],
                pull_request_number: match branch.pull_request {
                    Some(pull_request) => Some(pull_request.number),
                    None => None,
                },
            },
        )
    } else {
        None
    }
}

/// The branch below the branch at position `index` of a stack.
pub open spec fn branch_below(stack: Stack, index: int) -> BranchRef {
    if index == 0 {
        stack.trunk
    } else {
        stack.branches@[index - 1]
    }
}

/// The first of a stack's branches, from the trunk up, whose head is not known.
pub open spec fn first_missing(stack: Stack, heads: Map<Seq<char>, String>, name: Seq<char>) -> bool {
    exists|index: int|
        0 <= index <= stack.branches@.len() && (#[trigger] branch_below(stack, index)).branch@
            == name && !heads.contains_key(name) && forall|lower: int|
            0 <= lower < index ==> heads.contains_key(
                (#[trigger] branch_below(stack, lower)).branch@,
            )
}

impl Stack {
    /// Whether the stack has this branch, or is based on it.
    pub fn contains(&self, branch: &str) -> (contains: bool)
        ensures
            contains == stack_contains(*self, branch@),
    {
        if same_text(self.trunk.branch.as_str(), branch) {
            return true;
        }
        self.position(branch).is_some()
    }

    /// The position of the first branch with this name.
    fn position(&self, branch: &str) -> (found: Option<usize>)
        ensures
            match found {
                Some(at) => {
                    &&& at < self.branches@.len()
                    &&& self.branches@[at as int].branch@ == branch@
                    &&& forall|k: int|
                        0 <= k < at ==> (#[trigger] self.branches@[k]).branch@ != branch@
                },
                None => forall|k: int|
                    0 <= k < self.branches@.len() ==> (#[trigger] self.branches@[k]).branch@
                        != branch@,
            },
    {
        let mut at: usize = 0;
        while at < self.branches.len()
            invariant
                at <= self.branches@.len(),
                forall|k: int| 0 <= k < at ==> (#[trigger] self.branches@[k]).branch@ != branch@,
            decreases self.branches.len() - at,
        {
            if same_text(self.branches[at].branch.as_str(), branch) {
                return Some(at);
            }
            at += 1;
        }
        None
    }

    /// The name of the branch that this one is based on; the trunk has none.
    pub fn base_branch_for(&self, branch: &str) -> (base: Option<&str>)
        ensures
            match base {
                Some(base) => exists|at: int|
                    0 <= at < self.branches@.len() && (#[trigger] self.branches@[at]).branch@
                        == branch@ && (forall|k: int|
                        0 <= k < at ==> (#[trigger] self.branches@[k]).branch@ != branch@) && base@
                        == branch_below(*self, at).branch@ && base@ == (if at == 0 {
                        self.trunk.branch@
                    } else {
                        self.branches@[at - 1].branch@
                    }),
                None => forall|k: int|
                    0 <= k < self.branches@.len() ==> (#[trigger] self.branches@[k]).branch@
                        != branch@,
            },
    {
        match self.position(branch) {
            None => None,
            Some(at) => {
                assert(self.branches@[at as int].branch@ == branch@);
                if at == 0 {
                    Some(self.trunk.branch.as_str())
                } else {
                    Some(self.branches[at - 1].branch.as_str())
                }
            },
        }
    }

    /// The stack with the commits that `branch_heads` gives for its branches.
    pub fn resolve(&self, branch_heads: &TextMap<String>) -> (snapshot: Result<
        StackSnapshot,
        StackError,
    >)
        requires
            branch_heads.wf(),
        ensures
            match snapshot {
                Ok(snapshot) => {
                    &&& snapshot.number == self.number
                    &&& resolved_branch(self.trunk, branch_heads@) == Some(snapshot.trunk)
                    &&& snapshot.layers@.len() == self.branches@.len()
                    &&& forall|i: int|
                        0 <= i < self.branches@.len() ==> resolved_branch(
                            branch_below(*self, i),
                            branch_heads@,
                        ) == Some((#[trigger] snapshot.layers@[i]).base) && resolved_branch(
                            self.branches@[i],
                            branch_heads@,
                        ) == Some(snapshot.layers@[i].head)
                },
                Err(StackError::MissingBranch(name)) => first_missing(
                    *self,
                    branch_heads@,
                    name@,
                ),
                Err(_) => false,
            },
    {
        assert(branch_below(*self, 0) == self.trunk);
        let trunk = match resolve_branch(&self.trunk, branch_heads) {
            Ok(trunk) => trunk,
            Err(error) => return Err(error),
        };
        let mut base = trunk.copied();
        let mut layers: Vec<ResolvedStackLayer> = Vec::new();
        let mut i: usize = 0;
        while i < self.branches.len()
            invariant
                i <= self.branches@.len(),
                branch_heads.wf(),
                layers@.len() == i,
                resolved_branch(self.trunk, branch_heads@) == Some(trunk),
                resolved_branch(branch_below(*self, i as int), branch_heads@) == Some(base),
                forall|k: int|
                    0 <= k < i ==> resolved_branch(branch_below(*self, k), branch_heads@) == Some(
                        (#[trigger] layers@[k]).base,
                    ) && resolved_branch(self.branches@[k], branch_heads@) == Some(layers@[k].head),
            decreases self.branches.len() - i,
        {
            assert(branch_below(*self, i + 1) == self.branches@[i as int]);
            let head = match resolve_branch(&self.branches[i], branch_heads) {
                Ok(head) => head,
                Err(error) => {
                    proof {
                        assert forall|lower: int| 0 <= lower < i + 1 implies branch_heads@.contains_key(
                            (#[trigger] branch_below(*self, lower)).branch@,
                        ) by {
                            if lower < i {
                                assert(resolved_branch(branch_below(*self, lower), branch_heads@)
                                    == Some(layers@[lower].base));
                            }
                        }
                    }
                    return Err(error);
                },
            };
            layers.push(ResolvedStackLayer { base, head: head.copied() });
            base = head;
            i += 1;
        }
        Ok(StackSnapshot { number: self.number, trunk, layers })
    }
}

fn resolve_branch(branch: &BranchRef, branch_heads: &TextMap<String>) -> (resolved: Result<
    ResolvedStackBranch,
    StackError,
>)
    requires
        branch_heads.wf(),
    ensures
        match resolved {
            Ok(resolved) => resolved_branch(*branch, branch_heads@) == Some(resolved),
            Err(StackError::MissingBranch(name)) => name == branch.branch
                && !branch_heads@.contains_key(name@),
            Err(_) => false,
        },
{
    match branch_heads.get(branch.branch.as_str()) {
        None => Err(StackError::MissingBranch(branch.branch.clone())),
        Some(oid) => Ok(
            ResolvedStackBranch {
                branch: branch.branch.clone(),
                oid: oid.clone(),
                pull_request_number: match &branch.pull_request {
                    Some(pull_request) => Some(pull_request.number),
                    None => None,
                },
            },
        ),
    }
}

/// Whether each layer of a snapshot is based on the one below it.
pub open spec fn layers_are_chained(snapshot: StackSnapshot) -> bool {
    forall|i: int|
        0 <= i < snapshot.layers@.len() ==> boundary_of(snapshot, i) == Some(
            (#[trigger] snapshot.layers@[i]).base,
        ) && boundary_of(snapshot, i + 1) == Some(snapshot.layers@[i].head)
}

/// A stack resolves to a snapshot in which each layer lies between two neighbouring boundaries.
pub proof fn resolved_layers_are_chained(
    stack: Stack,
    heads: Map<Seq<char>, String>,
    snapshot: StackSnapshot,
)
    requires
        resolved_branch(stack.trunk, heads) == Some(snapshot.trunk),
        snapshot.layers@.len() == stack.branches@.len(),
        forall|i: int|
            0 <= i < stack.branches@.len() ==> resolved_branch(branch_below(stack, i), heads)
                == Some((#[trigger] snapshot.layers@[i]).base) && resolved_branch(
                stack.branches@[i],
                heads,
            ) == Some(snapshot.layers@[i].head),
    ensures
        layers_are_chained(snapshot),
{
    assert forall|i: int| 0 <= i < snapshot.layers@.len() implies boundary_of(snapshot, i) == Some(
        (#[trigger] snapshot.layers@[i]).base,
    ) && boundary_of(snapshot, i + 1) == Some(snapshot.layers@[i].head) by {
        if i > 0 {
            assert(resolved_branch(stack.branches@[i - 1], heads) == Some(
                snapshot.layers@[i - 1].head,
            ));
        }
    }
}

/// Whether a layer's branch holds the commits of the one that it is based on.
#[derive(Clone, Debug, PartialEq, Eq)]
pub struct StackLayerAncestry {
    pub base_branch: String,
    pub head_branch: String,
    pub is_ancestor: bool,
}

/// What the answers, one to each layer, say of whether its base's commit is an ancestor of its
/// head's.
pub fn stack_ancestry(snapshot: &StackSnapshot, answers: &Vec<bool>) -> (ancestry: Vec<
    StackLayerAncestry,
>)
    requires
        answers@.len() == snapshot.layers@.len(),
    ensures
        ancestry@.len() == snapshot.layers@.len(),
        forall|i: int|
            0 <= i < ancestry@.len() ==> #[trigger] ancestry@[i] == (StackLayerAncestry {
                base_branch: snapshot.layers@[i].base.branch,
                head_branch: snapshot.layers@[i].head.branch,
                is_ancestor: answers@[i],
            }),
{
    let mut ancestry: Vec<StackLayerAncestry> = Vec::new();
    let mut i: usize = 0;
    while i < snapshot.layers.len()
        invariant
            i <= snapshot.layers@.len(),
            answers@.len() == snapshot.layers@.len(),
            ancestry@.len() == i,
            forall|k: int|
                0 <= k < i ==> #[trigger] ancestry@[k] == (StackLayerAncestry {
                    base_branch: snapshot.layers@[k].base.branch,
                    head_branch: snapshot.layers@[k].head.branch,
                    is_ancestor: answers@[k],
                }),
        decreases snapshot.layers.len() - i,
    {
        let layer = &snapshot.layers[i];
        ancestry.push(
            StackLayerAncestry {
                base_branch: layer.base.branch.clone(),
                head_branch: layer.head.branch.clone(),
                is_ancestor: answers[i],
            },
        );
        i += 1;
    }
    ancestry
}

} // verus!
