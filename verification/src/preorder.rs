//! The nodes of a forest in depth-first order, parents before their children and siblings in
//! increasing order.

use crate::forest::{
    climb, has_top, lemma_reaches_self, lemma_reaches_step, links_of, links_ok, on_cycle, reaches,
};
use vstd::prelude::*;

verus! {

/// The children of `parent` among the first `to` nodes, in increasing order.
pub open spec fn children_below(links: Seq<Option<int>>, parent: int, to: int) -> Seq<int>
    decreases to,
{
    if to <= 0 {
        Seq::empty()
    } else if links[to - 1] == Some(parent) {
        children_below(links, parent, to - 1).push(to - 1)
    } else {
        children_below(links, parent, to - 1)
    }
}

/// The children of `parent`, in increasing order.
pub open spec fn children(links: Seq<Option<int>>, parent: int) -> Seq<int> {
    children_below(links, parent, links.len() as int)
}

/// The depth of a child of a node at `depth`, where no depth exceeds `limit`.
pub open spec fn depth_below(depth: nat, limit: nat) -> nat {
    if depth < limit {
        depth + 1
    } else {
        limit
    }
}

/// `nodes`, all at one depth.
pub open spec fn at_depth(nodes: Seq<int>, depth: nat) -> Seq<(int, nat)> {
    nodes.map_values(|node: int| (node, depth))
}

/// How many of the first `len` nodes are not in `seen`.
pub open spec fn unseen(len: nat, seen: Set<int>) -> nat {
    vstd::set_lib::set_int_range(0, len as int).difference(seen).len()
}

/// The depth-first listing of what hangs below the nodes in `pending`, each with its depth,
/// without the nodes in `seen` and what only they lead to.
pub open spec fn listing(
    links: Seq<Option<int>>,
    limit: nat,
    pending: Seq<(int, nat)>,
    seen: Set<int>,
) -> Seq<(int, nat)>
    decreases unseen(links.len(), seen), pending.len(),
    via listing_decreases
{
    if pending.len() == 0 {
        Seq::empty()
    } else {
        let (node, depth) = pending[0];
        let rest = pending.drop_first();
        if seen.contains(node) || !(0 <= node < links.len()) {
            listing(links, limit, rest, seen)
        } else {
            seq![(node, depth)] + listing(
                links,
                limit,
                at_depth(children(links, node), depth_below(depth, limit)) + rest,
                seen.insert(node),
            )
        }
    }
}

#[via_fn]
proof fn listing_decreases(
    links: Seq<Option<int>>,
    limit: nat,
    pending: Seq<(int, nat)>,
    seen: Set<int>,
) {
    if pending.len() > 0 {
        let (node, _) = pending[0];
        if !(seen.contains(node) || !(0 <= node < links.len())) {
            lemma_unseen_drops(links.len(), seen, node);
        }
    }
}

proof fn lemma_unseen_drops(len: nat, seen: Set<int>, node: int)
    requires
        0 <= node < len,
        !seen.contains(node),
    ensures
        unseen(len, seen.insert(node)) < unseen(len, seen),
{
    let range = vstd::set_lib::set_int_range(0, len as int);
    vstd::set_lib::lemma_int_range(0, len as int);
    assert(range.difference(seen.insert(node)) =~= range.difference(seen).remove(node));
    assert(range.difference(seen).contains(node));
}

/// The children of a node are the nodes that it is the parent of.
pub proof fn lemma_children_below(links: Seq<Option<int>>, parent: int, to: int)
    requires
        0 <= to <= links.len(),
    ensures
        forall|node: int|
            #![trigger children_below(links, parent, to).contains(node)]
            children_below(links, parent, to).contains(node) == (0 <= node < to && links[node]
                == Some(parent)),
    decreases to,
{
    if to > 0 {
        lemma_children_below(links, parent, to - 1);
        let before = children_below(links, parent, to - 1);
        assert forall|node: int|
            #![trigger children_below(links, parent, to).contains(node)]
            children_below(links, parent, to).contains(node) == (0 <= node < to && links[node]
                == Some(parent)) by {
            if links[to - 1] == Some(parent) {
                let all = before.push(to - 1);
                if before.contains(node) {
                    let i = choose|i: int| 0 <= i < before.len() && before[i] == node;
                    assert(all[i] == node);
                }
                if node == to - 1 {
                    assert(all[before.len() as int] == node);
                }
                if all.contains(node) {
                    let i = choose|i: int| 0 <= i < all.len() && all[i] == node;
                    if i < before.len() {
                        assert(before[i] == node);
                    }
                }
            }
        }
    }
}

/// Whether `node` is listed, at whatever depth.
pub open spec fn lists(entries: Seq<(int, nat)>, node: int) -> bool {
    exists|i: int| 0 <= i < entries.len() && (#[trigger] entries[i]).0 == node
}

/// No node is listed twice.
pub open spec fn lists_once(entries: Seq<(int, nat)>) -> bool {
    forall|i: int, j: int|
        0 <= i < j < entries.len() ==> (#[trigger] entries[i]).0 != (#[trigger] entries[j]).0
}

proof fn lemma_lists_append(a: Seq<(int, nat)>, b: Seq<(int, nat)>, node: int)
    ensures
        lists(a + b, node) == (lists(a, node) || lists(b, node)),
{
    if lists(a, node) {
        let i = choose|i: int| 0 <= i < a.len() && (#[trigger] a[i]).0 == node;
        assert((a + b)[i].0 == node);
    }
    if lists(b, node) {
        let i = choose|i: int| 0 <= i < b.len() && (#[trigger] b[i]).0 == node;
        assert((a + b)[a.len() + i].0 == node);
    }
    if lists(a + b, node) {
        let i = choose|i: int| 0 <= i < (a + b).len() && (#[trigger] (a + b)[i]).0 == node;
        if i < a.len() {
            assert(a[i].0 == node);
        } else {
            assert(b[i - a.len()].0 == node);
        }
    }
}

proof fn lemma_lists_at_depth(nodes: Seq<int>, depth: nat, node: int)
    ensures
        lists(at_depth(nodes, depth), node) == nodes.contains(node),
{
    let entries = at_depth(nodes, depth);
    if nodes.contains(node) {
        let i = choose|i: int| 0 <= i < nodes.len() && nodes[i] == node;
        assert(entries[i].0 == node);
    }
    if lists(entries, node) {
        let i = choose|i: int| 0 <= i < entries.len() && (#[trigger] entries[i]).0 == node;
        assert(nodes[i] == node);
    }
}

/// A listing holds nodes only, each once, and none that was seen; it holds what was pending and,
/// with a node, its children; and each of its nodes hangs below one that was pending.
pub proof fn lemma_listing(
    links: Seq<Option<int>>,
    limit: nat,
    pending: Seq<(int, nat)>,
    seen: Set<int>,
)
    requires
        links_ok(links),
    ensures
        lists_once(listing(links, limit, pending, seen)),
        forall|node: int| #[trigger]
            lists(listing(links, limit, pending, seen), node) ==> 0 <= node < links.len()
                && !seen.contains(node),
        forall|node: int|
            #![trigger lists(pending, node)]
            lists(pending, node) && 0 <= node < links.len() ==> seen.contains(node) || lists(
                listing(links, limit, pending, seen),
                node,
            ),
        forall|parent: int, node: int|
            #![trigger lists(listing(links, limit, pending, seen), parent), links[node]]
            lists(listing(links, limit, pending, seen), parent) && 0 <= node < links.len()
                && links[node] == Some(parent) ==> seen.contains(node) || lists(
                listing(links, limit, pending, seen),
                node,
            ),
        forall|node: int| #[trigger]
            lists(listing(links, limit, pending, seen), node) ==> exists|from: int|
                #[trigger] lists(pending, from) && reaches(links, node, from),
    decreases unseen(links.len(), seen), pending.len(),
{
    let whole = listing(links, limit, pending, seen);
    if pending.len() == 0 {
        assert(whole =~= Seq::<(int, nat)>::empty());
    } else {
        let (node, depth) = pending[0];
        let rest = pending.drop_first();
        assert(pending =~= seq![(node, depth)] + rest);
        assert(seq![(node, depth)][0].0 == node);
        assert forall|other: int|
            #![trigger lists(pending, other)]
            lists(pending, other) == (other == node || lists(rest, other)) by {
            lemma_lists_append(seq![(node, depth)], rest, other);
        }
        if seen.contains(node) || !(0 <= node < links.len()) {
            lemma_listing(links, limit, rest, seen);
            assert forall|x: int| #[trigger] lists(whole, x) implies exists|from: int| #[trigger]
                lists(pending, from) && reaches(links, x, from) by {
                let from = choose|from: int| #[trigger] lists(rest, from) && reaches(links, x, from);
                assert(lists(pending, from));
            }
        } else {
            lemma_unseen_drops(links.len(), seen, node);
            let below = at_depth(children(links, node), depth_below(depth, limit));
            let next = below + rest;
            let marked = seen.insert(node);
            lemma_listing(links, limit, next, marked);
            let tail = listing(links, limit, next, marked);
            assert(whole =~= seq![(node, depth)] + tail);
            assert forall|x: int| #[trigger] lists(whole, x) == (x == node || lists(tail, x)) by {
                lemma_lists_append(seq![(node, depth)], tail, x);
            }
            assert forall|x: int|
                #![trigger lists(next, x)]
                lists(next, x) == (children(links, node).contains(x) || lists(rest, x)) by {
                lemma_lists_append(below, rest, x);
                lemma_lists_at_depth(children(links, node), depth_below(depth, limit), x);
            }
            lemma_children_below(links, node, links.len() as int);
            assert forall|i: int, j: int| 0 <= i < j < whole.len() implies (#[trigger] whole[i]).0
                != (#[trigger] whole[j]).0 by {
                assert(whole[j] == tail[j - 1]);
                assert(lists(tail, whole[j].0));
                if i > 0 {
                    assert(whole[i] == tail[i - 1]);
                }
            }
            assert forall|x: int|
                #![trigger lists(pending, x)]
                lists(pending, x) && 0 <= x < links.len() implies seen.contains(x) || lists(
                whole,
                x,
            ) by {
                if x != node {
                    assert(lists(next, x));
                    assert(lists(whole, x) == (x == node || lists(tail, x)));
                } else {
                    assert(lists(whole, x));
                }
            }
            assert forall|parent: int, x: int|
                #![trigger lists(whole, parent), links[x]]
                lists(whole, parent) && 0 <= x < links.len() && links[x] == Some(
                    parent,
                ) implies seen.contains(x) || lists(whole, x) by {
                if parent == node {
                    assert(children(links, node).contains(x));
                    assert(lists(next, x));
                } else {
                    assert(lists(tail, parent));
                }
                assert(lists(whole, x) == (x == node || lists(tail, x)));
            }
            assert forall|x: int| #[trigger] lists(whole, x) implies exists|from: int| #[trigger]
                lists(pending, from) && reaches(links, x, from) by {
                if x == node {
                    lemma_reaches_self(links, node);
                    assert(lists(pending, node));
                } else {
                    assert(lists(tail, x));
                    let from = choose|from: int| #[trigger]
                        lists(next, from) && reaches(links, x, from);
                    if lists(rest, from) {
                        assert(lists(pending, from));
                    } else {
                        assert(children(links, node).contains(from));
                        lemma_reaches_self(links, node);
                        lemma_reaches_step(links, from, node, node);
                        crate::forest::lemma_reaches_transitive(links, x, from, node);
                        assert(lists(pending, node));
                    }
                }
            }
        }
    }
}

/// A listing from nothing seen holds exactly what hangs below the nodes that were pending.
pub proof fn lemma_listing_reaches(
    links: Seq<Option<int>>,
    limit: nat,
    pending: Seq<(int, nat)>,
    node: int,
)
    requires
        links_ok(links),
        0 <= node < links.len(),
        forall|from: int| #[trigger] lists(pending, from) ==> 0 <= from < links.len(),
    ensures
        lists(listing(links, limit, pending, Set::empty()), node) == (exists|from: int| #[trigger]
            lists(pending, from) && reaches(links, node, from)),
{
    lemma_listing(links, limit, pending, Set::empty());
    if exists|from: int| #[trigger] lists(pending, from) && reaches(links, node, from) {
        let from = choose|from: int| #[trigger] lists(pending, from) && reaches(links, node, from);
        let n = choose|n: nat| #[trigger] climb(links, node, n) == Some(from);
        lemma_listed_below(links, limit, pending, node, from, n);
    }
}

proof fn lemma_listed_below(
    links: Seq<Option<int>>,
    limit: nat,
    pending: Seq<(int, nat)>,
    node: int,
    from: int,
    n: nat,
)
    requires
        links_ok(links),
        0 <= node < links.len(),
        lists(pending, from),
        0 <= from < links.len(),
        climb(links, node, n) == Some(from),
    ensures
        lists(listing(links, limit, pending, Set::empty()), node),
    decreases n,
{
    lemma_listing(links, limit, pending, Set::empty());
    if n > 0 {
        assert(links[node] is Some) by {
            if links[node] is None {
                crate::forest::lemma_top_reaches(links, node, from);
                assert(climb(links, node, 1) is None) by {
                    reveal_with_fuel(climb, 2);
                }
                lemma_climb_stays_none(links, node, 1, n);
            }
        }
        let parent = links[node]->0;
        assert(climb(links, node, 1) == Some(parent)) by {
            reveal_with_fuel(climb, 2);
        }
        crate::forest::lemma_climb_add(links, node, 1, (n - 1) as nat);
        lemma_listed_below(links, limit, pending, parent, from, (n - 1) as nat);
    }
}

proof fn lemma_climb_stays_none(links: Seq<Option<int>>, k: int, n: nat, m: nat)
    requires
        n <= m,
        climb(links, k, n) is None,
    ensures
        climb(links, k, m) is None,
    decreases m,
{
    if n < m {
        lemma_climb_stays_none(links, k, n, (m - 1) as nat);
    }
}

/// The nodes that are listed.
pub open spec fn listed_nodes(entries: Seq<(int, nat)>) -> Set<int> {
    entries.map_values(|entry: (int, nat)| entry.0).to_set()
}

/// What is pending first is listed first, and what it leads to is not listed again.
pub proof fn lemma_listing_append(
    links: Seq<Option<int>>,
    limit: nat,
    first: Seq<(int, nat)>,
    second: Seq<(int, nat)>,
    seen: Set<int>,
)
    ensures
        listing(links, limit, first + second, seen) == listing(links, limit, first, seen) + listing(
            links,
            limit,
            second,
            seen.union(listed_nodes(listing(links, limit, first, seen))),
        ),
    decreases unseen(links.len(), seen), first.len(),
{
    let upper = listing(links, limit, first, seen);
    let marked = seen.union(listed_nodes(upper));
    if first.len() == 0 {
        assert(first + second =~= second);
        assert(upper =~= Seq::empty());
        assert(listed_nodes(upper) =~= Set::empty()) by {
            assert forall|x: int| !listed_nodes(upper).contains(x) by {
                if listed_nodes(upper).contains(x) {
                    let nodes = upper.map_values(|entry: (int, nat)| entry.0);
                    let i = choose|i: int| 0 <= i < nodes.len() && nodes[i] == x;
                }
            }
        }
        assert(marked =~= seen);
        assert(listing(links, limit, first + second, seen) =~= upper + listing(
            links,
            limit,
            second,
            marked,
        ));
    } else {
        let (node, depth) = first[0];
        let rest = first.drop_first();
        assert((first + second).drop_first() =~= rest + second);
        assert((first + second)[0] == first[0]);
        if seen.contains(node) || !(0 <= node < links.len()) {
            lemma_listing_append(links, limit, rest, second, seen);
        } else {
            lemma_unseen_drops(links.len(), seen, node);
            let below = at_depth(children(links, node), depth_below(depth, limit));
            let next = below + rest;
            let tail = listing(links, limit, next, seen.insert(node));
            lemma_listing_append(links, limit, next, second, seen.insert(node));
            assert(below + (rest + second) =~= next + second);
            assert(upper =~= seq![(node, depth)] + tail);
            assert(seen.insert(node).union(listed_nodes(tail)) =~= marked) by {
                let nodes = upper.map_values(|entry: (int, nat)| entry.0);
                let below_nodes = tail.map_values(|entry: (int, nat)| entry.0);
                assert forall|x: int|
                    listed_nodes(upper).contains(x) == (x == node || listed_nodes(tail).contains(
                        x,
                    )) by {
                    if listed_nodes(upper).contains(x) {
                        let i = choose|i: int| 0 <= i < nodes.len() && nodes[i] == x;
                        if i > 0 {
                            assert(below_nodes[i - 1] == x);
                        }
                    }
                    if x == node {
                        assert(nodes[0] == x);
                    }
                    if listed_nodes(tail).contains(x) {
                        let i = choose|i: int| 0 <= i < below_nodes.len() && below_nodes[i] == x;
                        assert(nodes[i + 1] == x);
                    }
                }
            }
            assert(listing(links, limit, first + second, seen) =~= upper + listing(
                links,
                limit,
                second,
                marked,
            ));
        }
    }
}

/// What a listed entry's depth comes from: it was pending at it, or it is that of a child of
/// another listed entry.
pub proof fn lemma_listing_depth(
    links: Seq<Option<int>>,
    limit: nat,
    pending: Seq<(int, nat)>,
    seen: Set<int>,
    i: int,
)
    requires
        0 <= i < listing(links, limit, pending, seen).len(),
    ensures
        ({
            let whole = listing(links, limit, pending, seen);
            ||| pending.contains(whole[i])
            ||| exists|j: int|
                0 <= j < i && links[whole[i].0] == Some((#[trigger] whole[j]).0) && whole[i].1
                    == depth_below(whole[j].1, limit)
        }),
    decreases unseen(links.len(), seen), pending.len(),
{
    let whole = listing(links, limit, pending, seen);
    if pending.len() > 0 {
        let (node, depth) = pending[0];
        let rest = pending.drop_first();
        assert(pending =~= seq![(node, depth)] + rest);
        if seen.contains(node) || !(0 <= node < links.len()) {
            lemma_listing_depth(links, limit, rest, seen, i);
            if rest.contains(whole[i]) {
                let r = choose|r: int| 0 <= r < rest.len() && rest[r] == whole[i];
                assert(pending[r + 1] == whole[i]);
            }
        } else {
            lemma_unseen_drops(links.len(), seen, node);
            let below = at_depth(children(links, node), depth_below(depth, limit));
            let next = below + rest;
            let tail = listing(links, limit, next, seen.insert(node));
            assert(whole =~= seq![(node, depth)] + tail);
            if i == 0 {
                assert(pending[0] == whole[0]);
            } else {
                assert(whole[i] == tail[i - 1]);
                lemma_listing_depth(links, limit, next, seen.insert(node), i - 1);
                if next.contains(tail[i - 1]) {
                    let r = choose|r: int| 0 <= r < next.len() && next[r] == tail[i - 1];
                    if r < below.len() {
                        assert(below[r] == (children(links, node)[r], depth_below(depth, limit)));
                        assert(children(links, node).contains(whole[i].0));
                        lemma_children_below(links, node, links.len() as int);
                        assert(whole[0].0 == node);
                    } else {
                        assert(rest[r - below.len()] == whole[i]);
                        assert(pending[r - below.len() + 1] == whole[i]);
                    }
                } else {
                    let j = choose|j: int|
                        0 <= j < i - 1 && links[tail[i - 1].0] == Some((#[trigger] tail[j]).0)
                            && tail[i - 1].1 == depth_below(tail[j].1, limit);
                    assert(whole[j + 1] == tail[j]);
                }
            }
        }
    }
}

/// Whether `x` is listed before `y`.
pub open spec fn precedes(entries: Seq<(int, nat)>, x: int, y: int) -> bool {
    exists|i: int, j: int|
        0 <= i < j < entries.len() && (#[trigger] entries[i]).0 == x && (#[trigger] entries[j]).0
            == y
}

/// The listing at the place of a node that is listed: what comes before it, its depth, what was
/// still pending, and what was seen once it was listed.
proof fn lemma_listing_split(
    links: Seq<Option<int>>,
    limit: nat,
    pending: Seq<(int, nat)>,
    seen: Set<int>,
    node: int,
) -> (split: (Seq<(int, nat)>, nat, Seq<(int, nat)>, Set<int>))
    requires
        lists(listing(links, limit, pending, seen), node),
    ensures
        ({
            let (prefix, depth, rest, marked) = split;
            &&& listing(links, limit, pending, seen) == prefix + (seq![(node, depth)] + listing(
                links,
                limit,
                at_depth(children(links, node), depth_below(depth, limit)) + rest,
                marked,
            ))
            &&& forall|n: int| #[trigger]
                marked.contains(n) == (seen.contains(n) || lists(prefix, n) || n == node)
        }),
    decreases unseen(links.len(), seen), pending.len(),
{
    let whole = listing(links, limit, pending, seen);
    let at = choose|i: int| 0 <= i < whole.len() && (#[trigger] whole[i]).0 == node;
    let (first, depth) = pending[0];
    let rest = pending.drop_first();
    if seen.contains(first) || !(0 <= first < links.len()) {
        lemma_listing_split(links, limit, rest, seen, node)
    } else {
        lemma_unseen_drops(links.len(), seen, first);
        let next = at_depth(children(links, first), depth_below(depth, limit)) + rest;
        let tail = listing(links, limit, next, seen.insert(first));
        assert(whole =~= seq![(first, depth)] + tail);
        let none = Seq::<(int, nat)>::empty();
        if first == node {
            assert(whole =~= none + (seq![(node, depth)] + tail));
            assert forall|n: int| #[trigger]
                seen.insert(first).contains(n) == (seen.contains(n) || lists(none, n) || n
                    == node) by {}
            (none, depth, rest, seen.insert(first))
        } else {
            assert(at > 0);
            assert(tail[at - 1].0 == node);
            let (prefix, below, left, marked) = lemma_listing_split(
                links,
                limit,
                next,
                seen.insert(first),
                node,
            );
            let longer = seq![(first, depth)] + prefix;
            let after = seq![(node, below)] + listing(
                links,
                limit,
                at_depth(children(links, node), depth_below(below, limit)) + left,
                marked,
            );
            assert(seq![(first, depth)] + (prefix + after) =~= longer + after);
            assert forall|n: int| #[trigger]
                marked.contains(n) == (seen.contains(n) || lists(longer, n) || n == node) by {
                lemma_lists_append(seq![(first, depth)], prefix, n);
                assert(seq![(first, depth)][0].0 == first);
                if lists(seq![(first, depth)], n) {
                    let i = choose|i: int|
                        0 <= i < seq![(first, depth)].len() && (#[trigger] seq![(first, depth)][i]).0
                            == n;
                    assert(i == 0);
                }
            }
            (longer, below, left, marked)
        }
    }
}

/// Of two nodes that are pending, the first is listed first, unless something before the second
/// leads to it.
proof fn lemma_pending_in_order(
    links: Seq<Option<int>>,
    limit: nat,
    pending: Seq<(int, nat)>,
    seen: Set<int>,
    a: int,
    b: int,
)
    requires
        links_ok(links),
        0 <= a < b < pending.len(),
        0 <= pending[a].0 < links.len(),
        0 <= pending[b].0 < links.len(),
        !seen.contains(pending[a].0),
        !seen.contains(pending[b].0),
        forall|c: int| 0 <= c < b ==> !reaches(links, pending[b].0, (#[trigger] pending[c]).0),
    ensures
        precedes(listing(links, limit, pending, seen), pending[a].0, pending[b].0),
    decreases unseen(links.len(), seen), pending.len(),
{
    let whole = listing(links, limit, pending, seen);
    let x = pending[a].0;
    let y = pending[b].0;
    let (node, depth) = pending[0];
    let rest = pending.drop_first();
    lemma_reaches_self(links, y);
    assert(x != y) by {
        assert(!reaches(links, y, pending[a].0));
    }
    assert(node != y) by {
        assert(!reaches(links, y, pending[0].0));
    }
    assert forall|c: int| 0 <= c < rest.len() implies #[trigger] rest[c] == pending[c + 1] by {}
    if seen.contains(node) || !(0 <= node < links.len()) {
        assert(a > 0);
        assert forall|c: int| 0 <= c < b - 1 implies !reaches(
            links,
            rest[b - 1].0,
            (#[trigger] rest[c]).0,
        ) by {
            assert(!reaches(links, y, pending[c + 1].0));
        }
        lemma_pending_in_order(links, limit, rest, seen, a - 1, b - 1);
    } else {
        lemma_unseen_drops(links.len(), seen, node);
        let below = at_depth(children(links, node), depth_below(depth, limit));
        let next = below + rest;
        let marked = seen.insert(node);
        let tail = listing(links, limit, next, marked);
        assert(whole =~= seq![(node, depth)] + tail);
        let shift = below.len() - 1;
        assert(next[b + shift] == pending[b]);
        if a == 0 {
            assert(lists(next, y)) by {
                assert(next[b + shift].0 == y);
            }
            lemma_listing(links, limit, next, marked);
            assert(lists(tail, y));
            let j = choose|j: int| 0 <= j < tail.len() && (#[trigger] tail[j]).0 == y;
            assert(whole[0].0 == x);
            assert(whole[j + 1].0 == y);
        } else if node == x {
            assert(lists(next, y)) by {
                assert(next[b + shift].0 == y);
            }
            lemma_listing(links, limit, next, marked);
            assert(lists(tail, y));
            let j = choose|j: int| 0 <= j < tail.len() && (#[trigger] tail[j]).0 == y;
            assert(whole[0].0 == x);
            assert(whole[j + 1].0 == y);
        } else {
            assert(next[a + shift] == pending[a]);
            assert forall|c: int| 0 <= c < b + shift implies !reaches(
                links,
                next[b + shift].0,
                (#[trigger] next[c]).0,
            ) by {
                if c < below.len() {
                    let child = children(links, node)[c];
                    assert(next[c].0 == child);
                    lemma_children_below(links, node, links.len() as int);
                    assert(children(links, node).contains(child));
                    if reaches(links, y, child) {
                        lemma_reaches_self(links, node);
                        lemma_reaches_step(links, child, node, node);
                        crate::forest::lemma_reaches_transitive(links, y, child, node);
                        assert(!reaches(links, y, pending[0].0));
                    }
                } else {
                    assert(next[c] == pending[c - shift]);
                    assert(!reaches(links, y, pending[c - shift].0));
                }
            }
            lemma_pending_in_order(links, limit, next, marked, a + shift, b + shift);
            let (i, j) = choose|i: int, j: int|
                0 <= i < j < tail.len() && (#[trigger] tail[i]).0 == x && (#[trigger] tail[j]).0
                    == y;
            assert(whole[i + 1].0 == x);
            assert(whole[j + 1].0 == y);
        }
    }
}

proof fn lemma_children_ascend(links: Seq<Option<int>>, parent: int, to: int)
    requires
        0 <= to <= links.len(),
    ensures
        forall|i: int, j: int|
            #![trigger children_below(links, parent, to)[i], children_below(links, parent, to)[j]]
            0 <= i < j < children_below(links, parent, to).len() ==> children_below(
                links,
                parent,
                to,
            )[i] < children_below(links, parent, to)[j],
    decreases to,
{
    if to > 0 {
        lemma_children_ascend(links, parent, to - 1);
        lemma_children_below(links, parent, to - 1);
        let before = children_below(links, parent, to - 1);
        let now = children_below(links, parent, to);
        if links[to - 1] == Some(parent) {
            assert forall|i: int, j: int|
                #![trigger now[i], now[j]]
                0 <= i < j < now.len() implies now[i] < now[j] by {
                assert(now[i] == before[i]);
                assert(before.contains(before[i]));
                if j < before.len() {
                    assert(now[j] == before[j]);
                }
            }
        }
    }
}

/// Below a node from which following parents ends, children are listed in increasing order, if
/// what was pending has no parents.
pub proof fn lemma_siblings_in_order(
    links: Seq<Option<int>>,
    limit: nat,
    pending: Seq<(int, nat)>,
    parent: int,
    x: int,
    y: int,
)
    requires
        links_ok(links),
        0 <= x < y < links.len(),
        links[x] == Some(parent),
        links[y] == Some(parent),
        has_top(links, parent),
        forall|n: int| #[trigger] lists(pending, n) ==> links[n] is None,
        lists(listing(links, limit, pending, Set::empty()), parent),
    ensures
        precedes(listing(links, limit, pending, Set::empty()), x, y),
{
    let whole = listing(links, limit, pending, Set::empty());
    let (prefix, depth, rest, marked) = lemma_listing_split(
        links,
        limit,
        pending,
        Set::empty(),
        parent,
    );
    let below = at_depth(children(links, parent), depth_below(depth, limit));
    let next = below + rest;
    let tail = listing(links, limit, next, marked);
    assert(whole[prefix.len() as int] == (parent, depth));
    lemma_listing(links, limit, pending, Set::empty());
    crate::forest::lemma_top_excludes_cycle(links, parent, parent);
    lemma_reaches_self(links, parent);
    assert forall|child: int| #[trigger] links[child] == Some(parent) && 0 <= child
        < links.len() implies !marked.contains(child) by {
        if child == parent {
            assert(climb(links, parent, 1) == Some(parent)) by {
                reveal_with_fuel(climb, 2);
            }
            assert(on_cycle(links, parent));
        }
        if lists(prefix, child) {
            let i = choose|i: int| 0 <= i < prefix.len() && (#[trigger] prefix[i]).0 == child;
            assert(whole[i] == prefix[i]);
            lemma_listing_depth(links, limit, pending, Set::empty(), i);
            if pending.contains(whole[i]) {
                let k = choose|k: int| 0 <= k < pending.len() && pending[k] == whole[i];
                assert(pending[k].0 == child);
                assert(lists(pending, child));
            } else {
                let j = choose|j: int|
                    0 <= j < i && links[whole[i].0] == Some((#[trigger] whole[j]).0) && whole[i].1
                        == depth_below(whole[j].1, limit);
                assert(whole[j].0 == parent);
                assert(whole[j].0 != whole[prefix.len() as int].0);
            }
        }
    }
    assert(!marked.contains(x)) by {
        assert(links[x] == Some(parent));
    }
    assert(!marked.contains(y)) by {
        assert(links[y] == Some(parent));
    }
    lemma_children_below(links, parent, links.len() as int);
    lemma_children_ascend(links, parent, links.len() as int);
    let list = children(links, parent);
    assert(list.contains(x));
    assert(list.contains(y));
    let a = choose|a: int| 0 <= a < list.len() && list[a] == x;
    let b = choose|b: int| 0 <= b < list.len() && list[b] == y;
    assert(a < b) by {
        if b < a {
            assert(list[b] < list[a]);
        }
    }
    assert(next[a].0 == x);
    assert(next[b].0 == y);
    assert forall|c: int| 0 <= c < b implies !reaches(links, next[b].0, (#[trigger] next[c]).0) by {
        let child = list[c];
        assert(next[c].0 == child);
        assert(list.contains(child));
        assert(list[c] < list[b]);
        if reaches(links, y, child) {
            lemma_reaches_step(links, y, parent, child);
            let n = choose|n: nat| #[trigger] climb(links, parent, n) == Some(child);
            assert(climb(links, child, 1) == Some(parent)) by {
                reveal_with_fuel(climb, 2);
            }
            crate::forest::lemma_climb_add(links, parent, n, 1);
            assert(climb(links, parent, n + 1) == Some(parent));
            assert(on_cycle(links, parent));
        }
    }
    lemma_pending_in_order(links, limit, next, marked, a, b);
    let (i, j) = choose|i: int, j: int|
        0 <= i < j < tail.len() && (#[trigger] tail[i]).0 == x && (#[trigger] tail[j]).0 == y;
    assert(whole[prefix.len() + 1 + i] == tail[i]);
    assert(whole[prefix.len() + 1 + j] == tail[j]);
}

/// The entries of a vector, as nodes and depths.
pub open spec fn entries_of(entries: Seq<(usize, usize)>) -> Seq<(int, nat)> {
    entries.map_values(|entry: (usize, usize)| (entry.0 as int, entry.1 as nat))
}

/// The nodes in `nodes` as entries at depth zero.
pub open spec fn roots_of(nodes: Seq<usize>) -> Seq<(int, nat)> {
    nodes.map_values(|node: usize| (node as int, 0nat))
}

/// The entries of a stack, the last pushed first.
spec fn stack_entries(stack: Seq<(usize, usize)>) -> Seq<(int, nat)> {
    entries_of(stack).reverse()
}

proof fn lemma_stack_push(stack: Seq<(usize, usize)>, entry: (usize, usize))
    ensures
        stack_entries(stack.push(entry)) == seq![(entry.0 as int, entry.1 as nat)] + stack_entries(
            stack,
        ),
{
    assert(stack_entries(stack.push(entry)) =~= seq![(entry.0 as int, entry.1 as nat)]
        + stack_entries(stack));
}

/// Pushes the children of `node` so that the first of them comes off the stack first.
fn push_children(
    parents: &Vec<Option<usize>>,
    node: usize,
    depth: usize,
    stack: &mut Vec<(usize, usize)>,
)
    requires
        node < parents@.len(),
        links_ok(links_of(parents@)),
    ensures
        stack_entries(final(stack)@) == at_depth(
            children(links_of(parents@), node as int),
            depth as nat,
        ) + stack_entries(old(stack)@),
{
    let ghost links = links_of(parents@);
    let ghost before = stack_entries(stack@);
    let ghost all = children(links, node as int);
    let mut to: usize = parents.len();
    assert(at_depth(Seq::empty(), depth as nat) + before =~= before);
    assert(all =~= children_below(links, node as int, to as int) + Seq::<int>::empty());
    let ghost mut pushed = Seq::<int>::empty();
    while to > 0
        invariant
            to <= parents@.len(),
            links == links_of(parents@),
            all == children(links, node as int),
            all == children_below(links, node as int, to as int) + pushed,
            stack_entries(stack@) == at_depth(pushed, depth as nat) + before,
        decreases to,
    {
        to -= 1;
        let is_child = match parents[to] {
            Some(parent) => parent == node,
            None => false,
        };
        assert(links[to as int] == match parents@[to as int] {
            Some(parent) => Some(parent as int),
            None => None::<int>,
        });
        if is_child {
            proof {
                lemma_stack_push(stack@, (to, depth));
                let earlier = children_below(links, node as int, to as int);
                assert(all =~= earlier + (seq![to as int] + pushed));
                assert(at_depth(seq![to as int] + pushed, depth as nat) + before =~= seq![
                    (to as int, depth as nat),
                ] + (at_depth(pushed, depth as nat) + before));
                pushed = seq![to as int] + pushed;
            }
            stack.push((to, depth));
        }
    }
    assert(all =~= pushed);
}

/// What hangs below `roots`, in depth-first order, each node with its depth, which stops growing
/// at `limit`.
pub fn preorder(parents: &Vec<Option<usize>>, roots: &Vec<usize>, limit: usize) -> (entries: Vec<
    (usize, usize),
>)
    requires
        links_ok(links_of(parents@)),
        forall|i: int| 0 <= i < roots@.len() ==> #[trigger] roots@[i] < parents@.len(),
    ensures
        entries_of(entries@) == listing(
            links_of(parents@),
            limit as nat,
            roots_of(roots@),
            Set::empty(),
        ),
        forall|i: int| 0 <= i < entries@.len() ==> (#[trigger] entries@[i]).0 < parents@.len(),
{
    let ghost links = links_of(parents@);
    let mut stack: Vec<(usize, usize)> = Vec::new();
    let mut i: usize = roots.len();
    assert(stack_entries(stack@) =~= roots_of(roots@).skip(i as int));
    while i > 0
        invariant
            i <= roots@.len(),
            stack_entries(stack@) == roots_of(roots@).skip(i as int),
        decreases i,
    {
        i -= 1;
        proof {
            lemma_stack_push(stack@, (roots@[i as int], 0));
            assert(roots_of(roots@).skip(i as int) =~= seq![(roots@[i as int] as int, 0nat)]
                + roots_of(roots@).skip(i + 1));
        }
        stack.push((roots[i], 0));
    }
    assert(stack_entries(stack@) =~= roots_of(roots@));
    let mut seen: Vec<bool> = Vec::new();
    let mut k: usize = 0;
    while k < parents.len()
        invariant
            k <= parents@.len(),
            seen@.len() == k,
            forall|j: int| 0 <= j < k ==> !seen@[j],
        decreases parents.len() - k,
    {
        seen.push(false);
        k += 1;
    }
    let mut entries: Vec<(usize, usize)> = Vec::new();
    let ghost mut marked: Set<int> = Set::empty();
    let ghost total = listing(links, limit as nat, roots_of(roots@), Set::empty());
    assert(entries_of(entries@) =~= Seq::<(int, nat)>::empty());
    assert(total =~= entries_of(entries@) + listing(
        links,
        limit as nat,
        stack_entries(stack@),
        marked,
    ));
    loop
        invariant
            links == links_of(parents@),
            links_ok(links),
            seen@.len() == parents@.len(),
            forall|j: int| 0 <= j < seen@.len() ==> seen@[j] == marked.contains(j),
            total == entries_of(entries@) + listing(
                links,
                limit as nat,
                stack_entries(stack@),
                marked,
            ),
            total == listing(links, limit as nat, roots_of(roots@), Set::empty()),
            forall|i: int| 0 <= i < entries@.len() ==> (#[trigger] entries@[i]).0 < parents@.len(),
        decreases unseen(parents@.len(), marked), stack@.len(),
    {
        let ghost pending = stack_entries(stack@);
        let ghost before = stack@;
        match stack.pop() {
            None => {
                assert(pending =~= Seq::<(int, nat)>::empty());
                assert(total =~= entries_of(entries@));
                return entries;
            },
            Some((node, depth)) => {
                proof {
                    assert(before =~= stack@.push((node, depth)));
                    lemma_stack_push(stack@, (node, depth));
                    assert(pending.drop_first() =~= stack_entries(stack@));
                }
                if node < parents.len() && !seen[node] {
                    let ghost rest = stack_entries(stack@);
                    let below: usize = if depth < limit {
                        depth + 1
                    } else {
                        limit
                    };
                    proof {
                        lemma_unseen_drops(parents@.len(), marked, node as int);
                        assert(entries_of(entries@.push((node, depth))) =~= entries_of(entries@)
                            + seq![(node as int, depth as nat)]);
                        let tail = listing(
                            links,
                            limit as nat,
                            at_depth(children(links, node as int), below as nat) + rest,
                            marked.insert(node as int),
                        );
                        assert(total =~= entries_of(entries@) + (seq![(node as int, depth as nat)]
                            + tail));
                        assert(total =~= entries_of(entries@.push((node, depth))) + tail);
                        marked = marked.insert(node as int);
                    }
                    seen.set(node, true);
                    entries.push((node, depth));
                    push_children(parents, node, below, &mut stack);
                }
            },
        }
    }
}

} // verus!
