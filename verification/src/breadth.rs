//! What hangs below a node of a forest, level by level.

use crate::forest::{
    climb, lemma_climb_add, lemma_reaches_self, lemma_reaches_step, links_of, links_ok, reaches,
};
use crate::preorder::{children, children_below, lemma_children_below};
use crate::ranking::positions;
use vstd::prelude::*;

verus! {

/// `root` and, step by step, the children of the node that comes next, `n` times.
pub open spec fn breadth(links: Seq<Option<int>>, root: int, n: nat) -> Seq<int>
    decreases n,
{
    if n == 0 {
        seq![root]
    } else {
        let members = breadth(links, root, (n - 1) as nat);
        if n - 1 < members.len() {
            members + children(links, members[n - 1])
        } else {
            members
        }
    }
}

/// `root` and all that hangs below it, level by level and in increasing order below each node.
pub open spec fn below_by_level(links: Seq<Option<int>>, root: int) -> Seq<int> {
    breadth(links, root, links.len())
}

proof fn lemma_children_distinct(links: Seq<Option<int>>, parent: int, to: int)
    requires
        0 <= to <= links.len(),
    ensures
        children_below(links, parent, to).no_duplicates(),
    decreases to,
{
    if to > 0 {
        lemma_children_distinct(links, parent, to - 1);
        lemma_children_below(links, parent, to - 1);
        let before = children_below(links, parent, to - 1);
        if links[to - 1] == Some(parent) {
            let now = before.push(to - 1);
            assert forall|i: int, j: int|
                0 <= i < now.len() && 0 <= j < now.len() && i != j implies now[i] != now[j] by {
                if i < before.len() {
                    assert(before.contains(before[i]));
                }
                if j < before.len() {
                    assert(before.contains(before[j]));
                }
            }
        }
    }
}

/// What holds after every step: no node comes twice; a node after the first hangs below one that
/// was passed; and what hangs below one that was passed is there.
spec fn spreads(links: Seq<Option<int>>, root: int, n: nat, members: Seq<int>) -> bool {
    &&& members.len() > 0
    &&& members[0] == root
    &&& members.no_duplicates()
    &&& forall|i: int| 0 <= i < members.len() ==> 0 <= #[trigger] members[i] < links.len()
    &&& forall|i: int|
        0 < i < members.len() ==> exists|p: int|
            0 <= p < members.len() && p < n && links[#[trigger] members[i]] == Some(
                #[trigger] members[p],
            )
    &&& forall|p: int, k: int|
        #![trigger members[p], links[k]]
        0 <= p < members.len() && p < n && 0 <= k < links.len() && links[k] == Some(members[p])
            ==> members.contains(k)
    &&& forall|i: int| 0 <= i < members.len() ==> reaches(links, #[trigger] members[i], root)
}

proof fn lemma_spreads(links: Seq<Option<int>>, root: int, n: nat)
    requires
        links_ok(links),
        0 <= root < links.len(),
        links[root] is None,
    ensures
        spreads(links, root, n, breadth(links, root, n)),
    decreases n,
{
    let now = breadth(links, root, n);
    if n == 0 {
        lemma_reaches_self(links, root);
    } else {
        let m = (n - 1) as nat;
        lemma_spreads(links, root, m);
        let before = breadth(links, root, m);
        if m < before.len() {
            let parent = before[m as int];
            let added = children(links, parent);
            lemma_children_below(links, parent, links.len() as int);
            lemma_children_distinct(links, parent, links.len() as int);
            assert(now == before + added);
            assert forall|i: int| 0 <= i < added.len() implies links[#[trigger] added[i]] == Some(
                parent,
            ) && 0 <= added[i] < links.len() by {
                assert(added.contains(added[i]));
            }
            assert forall|i: int, j: int|
                0 <= i < before.len() && 0 <= j < added.len() implies #[trigger] before[i]
                != #[trigger] added[j] by {
                if before[i] == added[j] && i > 0 {
                    let p = choose|p: int|
                        0 <= p < before.len() && p < m && links[before[i]] == Some(
                            #[trigger] before[p],
                        );
                    assert(before[p] == before[m as int]);
                }
            }
            assert forall|i: int, j: int|
                0 <= i < now.len() && 0 <= j < now.len() && i != j implies now[i] != now[j] by {
                if i < before.len() && j >= before.len() {
                    assert(now[j] == added[j - before.len()]);
                } else if j < before.len() && i >= before.len() {
                    assert(now[i] == added[i - before.len()]);
                } else if i >= before.len() {
                    assert(now[i] == added[i - before.len()]);
                    assert(now[j] == added[j - before.len()]);
                }
            }
            assert forall|i: int| 0 <= i < now.len() implies 0 <= #[trigger] now[i]
                < links.len() by {
                if i >= before.len() {
                    assert(now[i] == added[i - before.len()]);
                }
            }
            assert forall|i: int| 0 < i < now.len() implies exists|p: int|
                0 <= p < now.len() && p < n && links[#[trigger] now[i]] == Some(#[trigger] now[p]) by {
                if i < before.len() {
                    let p = choose|p: int|
                        0 <= p < before.len() && p < m && links[before[i]] == Some(
                            #[trigger] before[p],
                        );
                    assert(now[p] == before[p]);
                } else {
                    assert(now[i] == added[i - before.len()]);
                    assert(now[m as int] == parent);
                }
            }
            assert forall|p: int, k: int|
                #![trigger now[p], links[k]]
                0 <= p < now.len() && p < n && 0 <= k < links.len() && links[k] == Some(
                    now[p],
                ) implies now.contains(k) by {
                if p < m {
                    assert(now[p] == before[p]);
                    assert(before.contains(k));
                    let i = choose|i: int| 0 <= i < before.len() && before[i] == k;
                    assert(now[i] == k);
                } else {
                    assert(added.contains(k));
                    let i = choose|i: int| 0 <= i < added.len() && added[i] == k;
                    assert(now[before.len() + i] == k);
                }
            }
            assert forall|i: int| 0 <= i < now.len() implies reaches(
                links,
                #[trigger] now[i],
                root,
            ) by {
                if i >= before.len() {
                    assert(now[i] == added[i - before.len()]);
                    lemma_reaches_step(links, now[i], parent, root);
                } else {
                    assert(now[i] == before[i]);
                }
            }
        } else {
            assert(now == before);
            assert forall|i: int| 0 < i < now.len() implies exists|p: int|
                0 <= p < now.len() && p < n && links[#[trigger] now[i]] == Some(#[trigger] now[p]) by {
                let p = choose|p: int|
                    0 <= p < before.len() && p < m && links[before[i]] == Some(#[trigger] before[p]);
                assert(now[p] == before[p]);
            }
        }
    }
}

proof fn lemma_members_fit(links: Seq<Option<int>>, members: Seq<int>)
    requires
        members.no_duplicates(),
        forall|i: int| 0 <= i < members.len() ==> 0 <= #[trigger] members[i] < links.len(),
    ensures
        members.len() <= links.len(),
{
    let range = vstd::set_lib::set_int_range(0, links.len() as int);
    vstd::set_lib::lemma_int_range(0, links.len() as int);
    members.unique_seq_to_set();
    assert(members.to_set().subset_of(range)) by {
        assert forall|x: int| members.to_set().contains(x) implies range.contains(x) by {
            let i = choose|i: int| 0 <= i < members.len() && members[i] == x;
            assert(0 <= members[i] < links.len());
        }
    }
    vstd::set_lib::lemma_len_subset(members.to_set(), range);
}

proof fn lemma_below_all(links: Seq<Option<int>>, root: int, k: int, n: nat)
    requires
        links_ok(links),
        0 <= root < links.len(),
        links[root] is None,
        0 <= k < links.len(),
        climb(links, k, n) == Some(root),
    ensures
        below_by_level(links, root).contains(k),
    decreases n,
{
    let members = below_by_level(links, root);
    lemma_spreads(links, root, links.len());
    lemma_members_fit(links, members);
    if n == 0 {
        assert(members[0] == k);
    } else {
        if links[k] is None {
            assert(climb(links, k, 1) is None) by {
                reveal_with_fuel(climb, 2);
            }
            crate::forest::lemma_top_reaches(links, k, root);
            assert(members[0] == k);
        } else {
            let parent = links[k]->0;
            assert(climb(links, k, 1) == Some(parent)) by {
                reveal_with_fuel(climb, 2);
            }
            lemma_climb_add(links, k, 1, (n - 1) as nat);
            lemma_below_all(links, root, parent, (n - 1) as nat);
            let p = choose|p: int| 0 <= p < members.len() && members[p] == parent;
            assert(links[k] == Some(members[p]));
        }
    }
}

/// Below a root stands, each once, all that leads up to it, and nothing else.
pub proof fn lemma_below_by_level(links: Seq<Option<int>>, root: int)
    requires
        links_ok(links),
        0 <= root < links.len(),
        links[root] is None,
    ensures
        below_by_level(links, root).no_duplicates(),
        forall|k: int| #[trigger]
            below_by_level(links, root).contains(k) == (0 <= k < links.len() && reaches(
                links,
                k,
                root,
            )),
{
    let members = below_by_level(links, root);
    lemma_spreads(links, root, links.len());
    assert forall|k: int| #[trigger] members.contains(k) == (0 <= k < links.len() && reaches(
        links,
        k,
        root,
    )) by {
        if members.contains(k) {
            let i = choose|i: int| 0 <= i < members.len() && members[i] == k;
            assert(reaches(links, members[i], root));
        }
        if 0 <= k < links.len() && reaches(links, k, root) {
            let n = choose|n: nat| #[trigger] climb(links, k, n) == Some(root);
            lemma_below_all(links, root, k, n);
        }
    }
}

proof fn lemma_breadth_settles(links: Seq<Option<int>>, root: int, n: nat, m: nat)
    requires
        n <= m,
        breadth(links, root, n).len() <= n,
    ensures
        breadth(links, root, m) == breadth(links, root, n),
    decreases m,
{
    if n < m {
        lemma_breadth_settles(links, root, n, (m - 1) as nat);
    }
}

/// A root and all that hangs below it, level by level.
pub fn breadth_first(parents: &Vec<Option<usize>>, root: usize) -> (members: Vec<usize>)
    requires
        links_ok(links_of(parents@)),
        root < parents@.len(),
        parents@[root as int] is None,
    ensures
        positions(members@) == below_by_level(links_of(parents@), root as int),
        forall|i: int| 0 <= i < members@.len() ==> #[trigger] members@[i] < parents@.len(),
{
    let ghost links = links_of(parents@);
    let mut members: Vec<usize> = Vec::new();
    members.push(root);
    let mut next: usize = 0;
    proof {
        assert(positions(members@) =~= seq![root as int]);
        lemma_spreads(links, root as int, 0);
    }
    while next < members.len()
        invariant
            links == links_of(parents@),
            links_ok(links),
            root < parents@.len(),
            links[root as int] is None,
            next <= members@.len(),
            positions(members@) == breadth(links, root as int, next as nat),
            forall|i: int| 0 <= i < members@.len() ==> #[trigger] members@[i] < parents@.len(),
        decreases parents@.len() - next,
    {
        let ghost before = positions(members@);
        let node: usize = members[next];
        proof {
            lemma_spreads(links, root as int, next as nat);
            lemma_members_fit(links, before);
            assert(before[next as int] == node as int);
        }
        let mut k: usize = 0;
        while k < parents.len()
            invariant
                k <= parents@.len(),
                links == links_of(parents@),
                positions(members@) == before + children_below(links, node as int, k as int),
                forall|i: int| 0 <= i < members@.len() ==> #[trigger] members@[i] < parents@.len(),
            decreases parents.len() - k,
        {
            let below = match parents[k] {
                Some(parent) => parent == node,
                None => false,
            };
            if below {
                proof {
                    assert(links[k as int] == Some(node as int));
                    assert(positions(members@.push(k)) =~= positions(members@).push(k as int));
                    assert(before + children_below(links, node as int, k as int).push(k as int)
                        =~= (before + children_below(links, node as int, k as int)).push(k as int));
                }
                members.push(k);
            }
            k += 1;
        }
        assert(next + 1 <= members@.len()) by {
            assert(positions(members@).len() >= before.len());
        }
        next += 1;
    }
    proof {
        let settled = breadth(links, root as int, next as nat);
        lemma_spreads(links, root as int, next as nat);
        lemma_members_fit(links, settled);
        assert(settled.len() == members@.len());
        lemma_breadth_settles(links, root as int, next as nat, links.len());
    }
    members
}

} // verus!
