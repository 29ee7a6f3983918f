//! Nodes that each point to at most one parent.
//!
//! Node `k` of `links` has the parent `links[k]`. Following parents from a node either ends at a
//! node without one, its top, or runs into a cycle.

use vstd::prelude::*;

verus! {

/// Every parent is a node.
pub open spec fn links_ok(links: Seq<Option<int>>) -> bool {
    forall|k: int| #![trigger links[k]]
        0 <= k < links.len() ==> match links[k] {
            Some(parent) => 0 <= parent < links.len(),
            None => true,
        }
}

/// The links that a vector of indices holds.
pub open spec fn links_of(parents: Seq<Option<usize>>) -> Seq<Option<int>> {
    Seq::new(
        parents.len(),
        |k: int|
            match parents[k] {
                Some(parent) => Some(parent as int),
                None => None,
            },
    )
}

/// The node `n` steps above `k`.
pub open spec fn climb(links: Seq<Option<int>>, k: int, n: nat) -> Option<int>
    decreases n,
{
    if n == 0 {
        Some(k)
    } else {
        match climb(links, k, (n - 1) as nat) {
            Some(below) => links[below],
            None => None,
        }
    }
}

/// Whether `to` is `from` or one of its ancestors.
pub open spec fn reaches(links: Seq<Option<int>>, from: int, to: int) -> bool {
    exists|n: nat| #[trigger] climb(links, from, n) == Some(to)
}

/// Whether following parents from `k` ends at `top`.
pub open spec fn ends_at(links: Seq<Option<int>>, k: int, top: int) -> bool {
    reaches(links, k, top) && links[top] is None
}

/// Whether following parents from `k` ends at all.
pub open spec fn has_top(links: Seq<Option<int>>, k: int) -> bool {
    exists|top: int| ends_at(links, k, top)
}

/// The node without a parent above `k`.
pub open spec fn top_of(links: Seq<Option<int>>, k: int) -> int {
    choose|top: int| ends_at(links, k, top)
}

/// Whether `k` is its own ancestor.
pub open spec fn on_cycle(links: Seq<Option<int>>, k: int) -> bool {
    exists|n: nat| n > 0 && #[trigger] climb(links, k, n) == Some(k)
}

/// Whether `member` lies on the cycle that following parents from `k` runs into.
pub open spec fn cycle_member(links: Seq<Option<int>>, k: int, member: int) -> bool {
    reaches(links, k, member) && on_cycle(links, member)
}

pub proof fn lemma_climb_add(links: Seq<Option<int>>, k: int, a: nat, b: nat)
    requires
        climb(links, k, a) is Some,
    ensures
        climb(links, k, a + b) == climb(links, climb(links, k, a)->0, b),
    decreases b,
{
    if b > 0 {
        lemma_climb_add(links, k, a, (b - 1) as nat);
    }
}

pub proof fn lemma_climb_in_range(links: Seq<Option<int>>, k: int, n: nat)
    requires
        links_ok(links),
        0 <= k < links.len(),
    ensures
        climb(links, k, n) matches Some(x) ==> 0 <= x < links.len(),
    decreases n,
{
    if n > 0 {
        lemma_climb_in_range(links, k, (n - 1) as nat);
    }
}

/// Reaching is transitive.
pub proof fn lemma_reaches_transitive(links: Seq<Option<int>>, a: int, b: int, c: int)
    requires
        reaches(links, a, b),
        reaches(links, b, c),
    ensures
        reaches(links, a, c),
{
    let n = choose|n: nat| #[trigger] climb(links, a, n) == Some(b);
    let m = choose|m: nat| #[trigger] climb(links, b, m) == Some(c);
    lemma_climb_add(links, a, n, m);
    assert(climb(links, a, n + m) == Some(c));
}

pub proof fn lemma_reaches_self(links: Seq<Option<int>>, k: int)
    ensures
        reaches(links, k, k),
{
    assert(climb(links, k, 0) == Some(k));
}

/// What a node reaches is itself or what its parent reaches.
pub proof fn lemma_reaches_step(links: Seq<Option<int>>, k: int, parent: int, to: int)
    requires
        links[k] == Some(parent),
    ensures
        reaches(links, k, to) == (to == k || reaches(links, parent, to)),
{
    assert(climb(links, k, 1) == Some(parent)) by {
        reveal_with_fuel(climb, 2);
    }
    lemma_reaches_self(links, k);
    if reaches(links, k, to) {
        let n = choose|n: nat| #[trigger] climb(links, k, n) == Some(to);
        if n > 0 {
            lemma_climb_add(links, k, 1, (n - 1) as nat);
            assert(climb(links, parent, (n - 1) as nat) == Some(to));
        }
    }
    if reaches(links, parent, to) {
        lemma_reaches_transitive(links, k, parent, to);
    }
}

/// A top has no ancestor but itself.
pub proof fn lemma_top_reaches(links: Seq<Option<int>>, top: int, to: int)
    requires
        links[top] is None,
        reaches(links, top, to),
    ensures
        to == top,
{
    let n = choose|n: nat| #[trigger] climb(links, top, n) == Some(to);
    if n > 0 {
        lemma_top_climb(links, top, n);
    }
}

proof fn lemma_top_climb(links: Seq<Option<int>>, top: int, n: nat)
    requires
        links[top] is None,
        n > 0,
    ensures
        climb(links, top, n) is None,
    decreases n,
{
    if n > 1 {
        lemma_top_climb(links, top, (n - 1) as nat);
    } else {
        reveal_with_fuel(climb, 2);
    }
}

/// Of two nodes that `k` reaches, one reaches the other.
pub proof fn lemma_reaches_linear(links: Seq<Option<int>>, k: int, a: int, b: int)
    requires
        reaches(links, k, a),
        reaches(links, k, b),
    ensures
        reaches(links, a, b) || reaches(links, b, a),
{
    let n = choose|n: nat| #[trigger] climb(links, k, n) == Some(a);
    let m = choose|m: nat| #[trigger] climb(links, k, m) == Some(b);
    if n <= m {
        lemma_climb_add(links, k, n, (m - n) as nat);
        assert(climb(links, a, (m - n) as nat) == Some(b));
    } else {
        lemma_climb_add(links, k, m, (n - m) as nat);
        assert(climb(links, b, (n - m) as nat) == Some(a));
    }
}

/// There is at most one top above a node.
pub proof fn lemma_top_unique(links: Seq<Option<int>>, k: int, top: int)
    requires
        ends_at(links, k, top),
    ensures
        has_top(links, k),
        top_of(links, k) == top,
        forall|other: int| ends_at(links, k, other) ==> other == top,
{
    assert forall|other: int| ends_at(links, k, other) implies other == top by {
        lemma_reaches_linear(links, k, top, other);
        if reaches(links, top, other) {
            lemma_top_reaches(links, top, other);
        } else {
            lemma_top_reaches(links, other, top);
        }
    }
}

/// A node that has a top reaches no cycle.
pub proof fn lemma_top_excludes_cycle(links: Seq<Option<int>>, k: int, member: int)
    requires
        has_top(links, k),
    ensures
        !cycle_member(links, k, member),
{
    if cycle_member(links, k, member) {
        let top = top_of(links, k);
        lemma_reaches_linear(links, k, top, member);
        let n = choose|n: nat| n > 0 && #[trigger] climb(links, member, n) == Some(member);
        if reaches(links, top, member) {
            lemma_top_reaches(links, top, member);
            lemma_top_climb(links, top, n);
        } else {
            let m = choose|m: nat| #[trigger] climb(links, member, m) == Some(top);
            lemma_cycle_repeats(links, member, n, m);
        }
    }
}

/// Past a node on a cycle every step up has a parent.
proof fn lemma_cycle_repeats(links: Seq<Option<int>>, k: int, period: nat, n: nat)
    requires
        period > 0,
        climb(links, k, period) == Some(k),
    ensures
        climb(links, k, n) matches Some(x) && links[x] is Some,
    decreases n,
{
    if n >= period {
        lemma_climb_add(links, k, period, (n - period) as nat);
        lemma_cycle_repeats(links, k, period, (n - period) as nat);
    } else {
        lemma_climb_defined_below(links, k, n + 1, period);
    }
}

/// Where a later step is defined, an earlier one is.
proof fn lemma_climb_defined_below(links: Seq<Option<int>>, k: int, n: nat, m: nat)
    requires
        n <= m,
        climb(links, k, m) is Some,
    ensures
        climb(links, k, n) is Some,
    decreases m - n,
{
    if n < m {
        lemma_climb_defined_below(links, k, n, (m - 1) as nat);
    }
}

/// A node shares its top and its cycle with its parent.
pub proof fn lemma_parent_shares_end(links: Seq<Option<int>>, k: int, parent: int)
    requires
        links[k] == Some(parent),
    ensures
        forall|top: int| ends_at(links, k, top) == ends_at(links, parent, top),
        has_top(links, k) == has_top(links, parent),
        has_top(links, k) ==> top_of(links, k) == top_of(links, parent),
        forall|member: int| cycle_member(links, k, member) == cycle_member(links, parent, member),
{
    assert forall|top: int| ends_at(links, k, top) == ends_at(links, parent, top) by {
        lemma_reaches_step(links, k, parent, top);
    }
    if has_top(links, k) {
        let top = top_of(links, k);
        assert(ends_at(links, k, top));
        assert(ends_at(links, parent, top));
        lemma_top_unique(links, parent, top);
    }
    if has_top(links, parent) {
        let top = top_of(links, parent);
        assert(ends_at(links, parent, top));
        assert(ends_at(links, k, top));
    }
    assert forall|member: int|
        cycle_member(links, k, member) == cycle_member(links, parent, member) by {
        lemma_reaches_step(links, k, parent, member);
        if member == k && on_cycle(links, k) {
            let n = choose|n: nat| n > 0 && #[trigger] climb(links, k, n) == Some(k);
            assert(climb(links, k, 1) == Some(parent)) by {
                reveal_with_fuel(climb, 2);
            }
            lemma_climb_add(links, k, 1, (n - 1) as nat);
            assert(climb(links, parent, (n - 1) as nat) == Some(k));
        }
    }
}

proof fn lemma_no_top_climbs(links: Seq<Option<int>>, k: int, n: nat)
    requires
        !has_top(links, k),
    ensures
        climb(links, k, n) is Some,
    decreases n,
{
    if n > 0 {
        lemma_no_top_climbs(links, k, (n - 1) as nat);
        let below = climb(links, k, (n - 1) as nat)->0;
        if links[below] is None {
            assert(reaches(links, k, below));
            assert(ends_at(links, k, below));
        }
    }
}

/// Where following parents does not end, it runs into a cycle.
pub proof fn lemma_no_top_has_cycle(links: Seq<Option<int>>, k: int)
    requires
        links_ok(links),
        0 <= k < links.len(),
        !has_top(links, k),
    ensures
        exists|member: int| cycle_member(links, k, member),
{
    let trail = Seq::new(links.len() + 1, |i: int| climb(links, k, i as nat)->0);
    assert forall|i: int| 0 <= i < trail.len() implies climb(links, k, i as nat) == Some(
        #[trigger] trail[i],
    ) && 0 <= trail[i] < links.len() by {
        lemma_no_top_climbs(links, k, i as nat);
        lemma_climb_in_range(links, k, i as nat);
    }
    if trail.no_duplicates() {
        trail.unique_seq_to_set();
        let range = vstd::set_lib::set_int_range(0, links.len() as int);
        vstd::set_lib::lemma_int_range(0, links.len() as int);
        assert(trail.to_set().subset_of(range)) by {
            assert forall|x: int| trail.to_set().contains(x) implies range.contains(x) by {
                let i = choose|i: int| 0 <= i < trail.len() && trail[i] == x;
                assert(0 <= trail[i] < links.len());
            }
        }
        vstd::set_lib::lemma_len_subset(trail.to_set(), range);
    }
    let (i, j) = choose|i: int, j: int|
        0 <= i < trail.len() && 0 <= j < trail.len() && i != j && trail[i] == trail[j];
    let low = if i < j {
        i
    } else {
        j
    };
    let high = if i < j {
        j
    } else {
        i
    };
    let member = trail[low];
    assert(climb(links, k, low as nat) == Some(member));
    assert(climb(links, k, high as nat) == Some(trail[high]));
    lemma_climb_add(links, k, low as nat, (high - low) as nat);
    assert(climb(links, member, (high - low) as nat) == Some(member));
    assert(reaches(links, k, member));
    assert(cycle_member(links, k, member));
}

/// How following parents from a node goes.
pub enum Ascent {
    /// It ends at this node, which has no parent.
    Top(usize),
    /// It runs into this cycle.
    Cycle(Vec<usize>),
}

/// Every step above `start` lies on the trail, past position `entry` once it is past it.
proof fn lemma_trail_repeats(
    links: Seq<Option<int>>,
    trail: Seq<usize>,
    start: int,
    entry: int,
    n: nat,
)
    requires
        0 <= entry < trail.len(),
        forall|i: int| 0 <= i < trail.len() ==> climb(links, start, i as nat) == Some(
            #[trigger] trail[i] as int,
        ),
        climb(links, start, trail.len()) == Some(trail[entry] as int),
    ensures
        exists|i: int|
            0 <= i < trail.len() && climb(links, start, n) == Some(#[trigger] trail[i] as int) && (n
                >= entry ==> i >= entry),
    decreases n,
{
    if n < trail.len() {
        assert(climb(links, start, n) == Some(trail[n as int] as int));
    } else {
        lemma_trail_repeats(links, trail, start, entry, (n - 1) as nat);
        let i = choose|i: int|
            0 <= i < trail.len() && climb(links, start, (n - 1) as nat) == Some(
                #[trigger] trail[i] as int,
            ) && (n - 1 >= entry ==> i >= entry);
        if i + 1 < trail.len() {
            assert(climb(links, start, (i + 1) as nat) == Some(trail[i + 1] as int));
            assert(climb(links, start, i as nat) == Some(trail[i] as int));
            assert(climb(links, start, n) == Some(trail[i + 1] as int));
        } else {
            assert(climb(links, start, i as nat) == Some(trail[i] as int));
            assert(climb(links, start, n) == Some(trail[entry] as int));
        }
    }
}

/// What repeats is met again as late as one likes.
proof fn lemma_met_late(links: Seq<Option<int>>, start: int, x: int, n: nat, period: nat, late: nat)
    requires
        climb(links, start, n) == Some(x),
        period > 0,
        climb(links, x, period) == Some(x),
    ensures
        exists|m: nat| m >= late && #[trigger] climb(links, start, m) == Some(x),
    decreases (if n < late { late - n } else { 0 }),
{
    if n < late {
        lemma_climb_add(links, start, n, period);
        lemma_met_late(links, start, x, n + period, period, late);
    }
}

proof fn lemma_ascent_cycle(
    links: Seq<Option<int>>,
    trail: Seq<usize>,
    start: int,
    entry: int,
)
    requires
        links_ok(links),
        0 <= entry < trail.len(),
        forall|i: int| 0 <= i < trail.len() ==> climb(links, start, i as nat) == Some(
            #[trigger] trail[i] as int,
        ),
        forall|i: int| 0 <= i < trail.len() ==> links[#[trigger] trail[i] as int] is Some,
        climb(links, start, trail.len()) == Some(trail[entry] as int),
    ensures
        !has_top(links, start),
        forall|member: int|
            cycle_member(links, start, member) == (exists|i: int|
                entry <= i < trail.len() && #[trigger] trail[i] == member),
{
    if has_top(links, start) {
        let top = top_of(links, start);
        assert(ends_at(links, start, top));
        let n = choose|n: nat| #[trigger] climb(links, start, n) == Some(top);
        lemma_trail_repeats(links, trail, start, entry, n);
    }
    assert forall|member: int|
        cycle_member(links, start, member) == (exists|i: int|
            entry <= i < trail.len() && #[trigger] trail[i] == member) by {
        if cycle_member(links, start, member) {
            let n = choose|n: nat| #[trigger] climb(links, start, n) == Some(member);
            let period = choose|m: nat|
                m > 0 && #[trigger] climb(links, member, m) == Some(member);
            lemma_met_late(links, start, member, n, period, entry as nat);
            let m = choose|m: nat| m >= entry && #[trigger] climb(links, start, m) == Some(member);
            lemma_trail_repeats(links, trail, start, entry, m);
        }
        if exists|i: int| entry <= i < trail.len() && #[trigger] trail[i] == member {
            let i = choose|i: int| entry <= i < trail.len() && #[trigger] trail[i] == member;
            assert(climb(links, start, i as nat) == Some(member));
            let period = (trail.len() - entry) as nat;
            lemma_climb_add(links, start, i as nat, period);
            lemma_climb_add(links, start, trail.len(), (i - entry) as nat);
            assert(climb(links, start, entry as nat) == Some(trail[entry] as int));
            lemma_climb_add(links, start, entry as nat, (i - entry) as nat);
            assert(i + period == trail.len() + (i - entry));
            assert(entry + (i - entry) == i);
            assert(climb(links, member, period) == Some(member));
        }
    }
}

/// A trail of different nodes is no longer than there are nodes.
proof fn lemma_trail_fits(trail: Seq<usize>, len: nat)
    requires
        trail.no_duplicates(),
        forall|i: int| 0 <= i < trail.len() ==> #[trigger] trail[i] < len,
    ensures
        trail.len() <= len,
{
    let ints = trail.map_values(|x: usize| x as int);
    assert(ints.no_duplicates());
    ints.unique_seq_to_set();
    let range = vstd::set_lib::set_int_range(0, len as int);
    vstd::set_lib::lemma_int_range(0, len as int);
    assert(ints.to_set().subset_of(range)) by {
        assert forall|x: int| ints.to_set().contains(x) implies range.contains(x) by {
            let i = choose|i: int| 0 <= i < ints.len() && ints[i] == x;
            assert(ints[i] == trail[i] as int);
        }
    }
    vstd::set_lib::lemma_len_subset(ints.to_set(), range);
}

fn position_in(trail: &Vec<usize>, node: usize) -> (found: Option<usize>)
    ensures
        match found {
            Some(at) => at < trail@.len() && trail@[at as int] == node,
            None => !trail@.contains(node),
        },
{
    let mut at: usize = 0;
    while at < trail.len()
        invariant
            at <= trail@.len(),
            forall|k: int| 0 <= k < at ==> trail@[k] != node,
        decreases trail.len() - at,
    {
        if trail[at] == node {
            return Some(at);
        }
        at += 1;
    }
    None
}

/// Follows parents from `start`.
pub fn ascend(parents: &Vec<Option<usize>>, start: usize) -> (ascent: Ascent)
    requires
        links_ok(links_of(parents@)),
        start < parents@.len(),
    ensures
        match ascent {
            Ascent::Top(top) => top < parents@.len() && has_top(links_of(parents@), start as int)
                && top == top_of(links_of(parents@), start as int)
                && ends_at(links_of(parents@), start as int, top as int),
            Ascent::Cycle(members) => {
                &&& !has_top(links_of(parents@), start as int)
                &&& members@.len() > 0
                &&& forall|i: int| 0 <= i < members@.len() ==> #[trigger] members@[i] < parents@.len()
                &&& forall|member: int|
                    cycle_member(links_of(parents@), start as int, member) == (exists|i: int|
                        0 <= i < members@.len() && #[trigger] members@[i] == member)
            },
        },
{
    let ghost links = links_of(parents@);
    let mut trail: Vec<usize> = Vec::new();
    let mut node: usize = start;
    loop
        invariant
            links == links_of(parents@),
            links_ok(links),
            start < parents@.len(),
            node < parents@.len(),
            climb(links, start as int, trail@.len()) == Some(node as int),
            forall|i: int| 0 <= i < trail@.len() ==> climb(links, start as int, i as nat) == Some(
                #[trigger] trail@[i] as int,
            ),
            forall|i: int| 0 <= i < trail@.len() ==> links[#[trigger] trail@[i] as int] is Some,
            forall|i: int| 0 <= i < trail@.len() ==> #[trigger] trail@[i] < parents@.len(),
            trail@.no_duplicates(),
        decreases parents@.len() - trail@.len(),
    {
        match position_in(&trail, node) {
            Some(entry) => {
                proof {
                    lemma_ascent_cycle(links, trail@, start as int, entry as int);
                }
                let mut members: Vec<usize> = Vec::new();
                let mut i: usize = entry;
                while i < trail.len()
                    invariant
                        entry <= i <= trail@.len(),
                        members@ == trail@.subrange(entry as int, i as int),
                    decreases trail.len() - i,
                {
                    members.push(trail[i]);
                    i += 1;
                }
                proof {
                    assert(members@ == trail@.skip(entry as int));
                    assert forall|i: int| 0 <= i < members@.len() implies #[trigger] members@[i]
                        < parents@.len() by {
                        assert(members@[i] == trail@[i + entry]);
                    }
                    assert forall|member: int|
                        cycle_member(links, start as int, member) == (exists|i: int|
                            0 <= i < members@.len() && #[trigger] members@[i] == member) by {
                        if exists|i: int| entry <= i < trail@.len() && #[trigger] trail@[i] == member {
                            let i = choose|i: int|
                                entry <= i < trail@.len() && #[trigger] trail@[i] == member;
                            assert(members@[i - entry] == member);
                        }
                        if exists|i: int| 0 <= i < members@.len() && #[trigger] members@[i] == member {
                            let i = choose|i: int|
                                0 <= i < members@.len() && #[trigger] members@[i] == member;
                            assert(trail@[i + entry] == member);
                        }
                    }
                }
                return Ascent::Cycle(members);
            },
            None => {},
        }
        assert(links[node as int] == match parents@[node as int] {
            Some(parent) => Some(parent as int),
            None => None::<int>,
        });
        match parents[node] {
            None => {
                proof {
                    assert(reaches(links, start as int, node as int));
                    assert(ends_at(links, start as int, node as int));
                    lemma_top_unique(links, start as int, node as int);
                }
                return Ascent::Top(node);
            },
            Some(parent) => {
                let ghost before = trail@;
                trail.push(node);
                proof {
                    assert forall|i: int| 0 <= i < trail@.len() implies climb(
                        links,
                        start as int,
                        i as nat,
                    ) == Some(#[trigger] trail@[i] as int) by {
                        if i < before.len() {
                            assert(trail@[i] == before[i]);
                        }
                    }
                    assert forall|i: int| 0 <= i < trail@.len() implies links[#[trigger] trail@[i] as int] is Some by {
                        if i < before.len() {
                            assert(trail@[i] == before[i]);
                        }
                    }
                    assert(climb(links, start as int, trail@.len()) == links[node as int]);
                    lemma_trail_fits(trail@, parents@.len());
                }
                node = parent;
            },
        }
    }
}

} // verus!
