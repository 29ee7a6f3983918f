//! How many lines a change adds and removes.

use crate::text::chars_of;
use vstd::prelude::*;

verus! {

/// A run of lines that was replaced by another.
#[derive(Clone, Copy, Debug, PartialEq, Eq, Structural)]
pub struct LineHunk {
    pub before_start: u32,
    pub before_end: u32,
    pub after_start: u32,
    pub after_end: u32,
}

/// How many lines a text has; what follows the last line break counts where there is any.
pub open spec fn line_count(s: Seq<char>) -> nat
    decreases s.len(),
{
    if s.len() == 0 {
        0
    } else if s.len() == 1 || s[s.len() - 2] == '\n' {
        line_count(s.drop_last()) + 1
    } else {
        line_count(s.drop_last())
    }
}

/// Whether two texts are short enough to be compared line by line.
pub open spec fn lines_fit(old_text: Seq<char>, new_text: Seq<char>) -> bool {
    line_count(old_text) + line_count(new_text) < i32::MAX
}

/// The hunks of the line diff that the `imara-diff` crate computes with its histogram algorithm.
pub uninterp spec fn histogram_hunks(old_text: Seq<char>, new_text: Seq<char>) -> Seq<LineHunk>;

/// Hunks whose ranges run forward and lie one behind the other, on both sides.
pub open spec fn hunks_ascend(hunks: Seq<LineHunk>) -> bool {
    &&& forall|i: int|
        0 <= i < hunks.len() ==> (#[trigger] hunks[i]).before_start <= hunks[i].before_end
            && hunks[i].after_start <= hunks[i].after_end
    &&& forall|i: int, j: int|
        #![trigger hunks[i], hunks[j]]
        0 <= i < j < hunks.len() ==> hunks[i].before_end <= hunks[j].before_start
            && hunks[i].after_end <= hunks[j].after_start
}

/// The lines outside the hunks stand side by side: as many come before each hunk in the old text
/// as in the new one, and as many behind the last.
pub open spec fn hunks_line_up(hunks: Seq<LineHunk>, old_lines: int, new_lines: int) -> bool {
    &&& hunks.len() == 0 ==> old_lines == new_lines
    &&& hunks.len() > 0 ==> {
        &&& hunks[0].before_start == hunks[0].after_start
        &&& 0 <= old_lines - hunks.last().before_end == new_lines - hunks.last().after_end
    }
    &&& forall|i: int|
        0 < i < hunks.len() ==> (#[trigger] hunks[i]).before_start - hunks[i - 1].before_end
            == hunks[i].after_start - hunks[i - 1].after_end
}

/// Calls [`imara_diff::Diff::compute`] with `Algorithm::Histogram` on the lines of both texts and
/// lists its hunks, which the crate yields in monotonically increasing order. Every line outside
/// them is one that the two texts share, so those stand side by side. Which lines the hunks take
/// in depends on the texts alone and is left to the crate. It takes fewer than `i32::MAX` lines.
#[verifier::external_body]
pub(crate) fn compute_histogram_hunks(old_text: &str, new_text: &str) -> (hunks: Vec<LineHunk>)
    requires
        lines_fit(old_text@, new_text@),
    ensures
        hunks@ == histogram_hunks(old_text@, new_text@),
        hunks_ascend(hunks@),
        hunks_line_up(hunks@, line_count(old_text@) as int, line_count(new_text@) as int),
{
    let before = imara_diff::sources::lines(old_text);
    let after = imara_diff::sources::lines(new_text);
    let input = imara_diff::InternedInput::new(before, after);
    imara_diff::Diff::compute(imara_diff::Algorithm::Histogram, &input)
        .hunks()
        .map(|hunk| LineHunk {
            before_start: hunk.before.start,
            before_end: hunk.before.end,
            after_start: hunk.after.start,
            after_end: hunk.after.end,
        })
        .collect()
}

/// How many lines some hunks add.
pub open spec fn lines_added(hunks: Seq<LineHunk>) -> int
    decreases hunks.len(),
{
    if hunks.len() == 0 {
        0
    } else {
        lines_added(hunks.drop_last()) + (hunks.last().after_end - hunks.last().after_start)
    }
}

/// How many lines some hunks remove.
pub open spec fn lines_removed(hunks: Seq<LineHunk>) -> int
    decreases hunks.len(),
{
    if hunks.len() == 0 {
        0
    } else {
        lines_removed(hunks.drop_last()) + (hunks.last().before_end - hunks.last().before_start)
    }
}

proof fn lemma_hunks_take(hunks: Seq<LineHunk>, n: int)
    requires
        hunks_ascend(hunks),
        0 <= n <= hunks.len(),
    ensures
        hunks_ascend(hunks.take(n)),
{
    let some = hunks.take(n);
    assert forall|i: int| 0 <= i < some.len() implies (#[trigger] some[i]).before_start
        <= some[i].before_end && some[i].after_start <= some[i].after_end by {
        assert(some[i] == hunks[i]);
    }
    assert forall|i: int, j: int|
        #![trigger some[i], some[j]]
        0 <= i < j < some.len() implies some[i].before_end <= some[j].before_start
        && some[i].after_end <= some[j].after_start by {
        assert(some[i] == hunks[i]);
        assert(some[j] == hunks[j]);
    }
}

/// What hunks that lie one behind the other take in ends where the last one does.
proof fn lemma_lines_fit(hunks: Seq<LineHunk>)
    requires
        hunks_ascend(hunks),
    ensures
        hunks.len() == 0 ==> lines_added(hunks) == 0 && lines_removed(hunks) == 0,
        hunks.len() > 0 ==> 0 <= lines_added(hunks) <= hunks.last().after_end && 0 <= lines_removed(
            hunks,
        ) <= hunks.last().before_end,
    decreases hunks.len(),
{
    if hunks.len() > 0 {
        let before = hunks.drop_last();
        lemma_hunks_take(hunks, hunks.len() - 1);
        assert(hunks.take(hunks.len() - 1) =~= before);
        lemma_lines_fit(before);
        assert(hunks[hunks.len() - 1].after_start <= hunks[hunks.len() - 1].after_end);
        if before.len() > 0 {
            assert(before.last() == hunks[hunks.len() - 2]);
            assert(hunks[hunks.len() - 2].after_end <= hunks[hunks.len() - 1].after_start);
        }
    }
}

/// The lines on the new side of some hunks, all together.
pub open spec fn after_sides(hunks: Seq<LineHunk>) -> int {
    hunks.fold_left(0, |total: int, hunk: LineHunk| total + (hunk.after_end - hunk.after_start))
}

/// The lines on the old side of some hunks, all together.
pub open spec fn before_sides(hunks: Seq<LineHunk>) -> int {
    hunks.fold_left(0, |total: int, hunk: LineHunk| total + (hunk.before_end - hunk.before_start))
}

/// What hunks add is what their new sides hold, and what they remove is what their old sides hold.
pub proof fn changed_lines_are_the_sides(hunks: Seq<LineHunk>)
    ensures
        lines_added(hunks) == after_sides(hunks),
        lines_removed(hunks) == before_sides(hunks),
    decreases hunks.len(),
{
    reveal(Seq::fold_left);
    if hunks.len() > 0 {
        changed_lines_are_the_sides(hunks.drop_last());
    }
}

/// What a change adds less what it removes is what the text grows by; it adds no more lines than
/// the new text has, and removes no more than the old one has.
pub proof fn changed_lines_balance(hunks: Seq<LineHunk>, old_lines: int, new_lines: int)
    requires
        hunks_ascend(hunks),
        hunks_line_up(hunks, old_lines, new_lines),
        old_lines >= 0,
    ensures
        lines_added(hunks) - lines_removed(hunks) == new_lines - old_lines,
        0 <= lines_added(hunks) <= new_lines,
        0 <= lines_removed(hunks) <= old_lines,
        after_sides(hunks) == lines_added(hunks),
        before_sides(hunks) == lines_removed(hunks),
{
    changed_lines_are_the_sides(hunks);
    lemma_lines_fit(hunks);
    lemma_shift(hunks);
}

proof fn lemma_shift(hunks: Seq<LineHunk>)
    requires
        hunks.len() > 0 ==> hunks[0].before_start == hunks[0].after_start,
        forall|i: int|
            0 < i < hunks.len() ==> (#[trigger] hunks[i]).before_start - hunks[i - 1].before_end
                == hunks[i].after_start - hunks[i - 1].after_end,
    ensures
        hunks.len() > 0 ==> lines_added(hunks) - lines_removed(hunks) == hunks.last().after_end
            - hunks.last().before_end,
    decreases hunks.len(),
{
    if hunks.len() > 1 {
        let some = hunks.drop_last();
        assert forall|i: int| 0 < i < some.len() implies (#[trigger] some[i]).before_start - some[i
            - 1].before_end == some[i].after_start - some[i - 1].after_end by {
            assert(some[i] == hunks[i]);
        }
        lemma_shift(some);
        assert(hunks[hunks.len() - 1].before_start - hunks[hunks.len() - 2].before_end
            == hunks[hunks.len() - 1].after_start - hunks[hunks.len() - 2].after_end);
    } else if hunks.len() == 1 {
        assert(hunks.drop_last().len() == 0);
        assert(lines_added(hunks.drop_last()) == 0);
        assert(lines_removed(hunks.drop_last()) == 0);
    }
}

/// How many lines some hunks add and remove.
pub fn hunk_line_counts(hunks: &Vec<LineHunk>) -> (counts: (u32, u32))
    requires
        hunks_ascend(hunks@),
    ensures
        counts.0 == lines_added(hunks@),
        counts.1 == lines_removed(hunks@),
        counts.0 == after_sides(hunks@),
        counts.1 == before_sides(hunks@),
{
    let mut additions: u32 = 0;
    let mut deletions: u32 = 0;
    let mut i: usize = 0;
    while i < hunks.len()
        invariant
            i <= hunks@.len(),
            hunks_ascend(hunks@),
            additions == lines_added(hunks@.take(i as int)),
            deletions == lines_removed(hunks@.take(i as int)),
        decreases hunks.len() - i,
    {
        let hunk = hunks[i];
        proof {
            lemma_hunks_take(hunks@, i + 1);
            lemma_lines_fit(hunks@.take(i + 1));
            assert(hunks@.take(i + 1).drop_last() =~= hunks@.take(i as int));
            assert(hunks@[i as int].after_start <= hunks@[i as int].after_end);
        }
        additions += hunk.after_end - hunk.after_start;
        deletions += hunk.before_end - hunk.before_start;
        i += 1;
    }
    assert(hunks@.take(i as int) =~= hunks@);
    proof {
        changed_lines_are_the_sides(hunks@);
    }
    (additions, deletions)
}

/// How many lines the change from `old_text` to `new_text` adds and removes.
pub fn stack_review_line_counts(old_text: &str, new_text: &str) -> (counts: (u32, u32))
    requires
        lines_fit(old_text@, new_text@),
    ensures
        counts.0 == lines_added(histogram_hunks(old_text@, new_text@)),
        counts.1 == lines_removed(histogram_hunks(old_text@, new_text@)),
        hunks_ascend(histogram_hunks(old_text@, new_text@)),
        hunks_line_up(
            histogram_hunks(old_text@, new_text@),
            line_count(old_text@) as int,
            line_count(new_text@) as int,
        ),
        counts.0 == after_sides(histogram_hunks(old_text@, new_text@)),
        counts.1 == before_sides(histogram_hunks(old_text@, new_text@)),
        counts.0 - counts.1 == line_count(new_text@) - line_count(old_text@),
        counts.0 <= line_count(new_text@),
        counts.1 <= line_count(old_text@),
{
    let hunks = compute_histogram_hunks(old_text, new_text);
    proof {
        changed_lines_balance(
            hunks@,
            line_count(old_text@) as int,
            line_count(new_text@) as int,
        );
    }
    hunk_line_counts(&hunks)
}

/// How many lines a text has.
fn count_lines(s: &str) -> (count: usize)
    ensures
        count == line_count(s@),
{
    let chars = chars_of(s);
    let mut count: usize = 0;
    let mut i: usize = 0;
    assert(s@.take(0) =~= Seq::<char>::empty());
    while i < chars.len()
        invariant
            chars@ == s@,
            i <= chars@.len(),
            count <= i,
            count == line_count(s@.take(i as int)),
        decreases chars.len() - i,
    {
        assert(s@.take(i + 1).drop_last() =~= s@.take(i as int));
        if i == 0 || chars[i - 1] == '\n' {
            count += 1;
        }
        i += 1;
    }
    assert(s@.take(i as int) =~= s@);
    count
}

/// Whether two texts are short enough to be compared line by line.
pub fn line_diff_fits(old_text: &str, new_text: &str) -> (fits: bool)
    ensures
        fits == lines_fit(old_text@, new_text@),
{
    let old_lines: usize = count_lines(old_text);
    let new_lines: usize = count_lines(new_text);
    old_lines < 0x7FFF_FFFF && new_lines < 0x7FFF_FFFF - old_lines
}

} // verus!
