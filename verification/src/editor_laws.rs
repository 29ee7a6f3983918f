//! What the operations of an editor keep, and what one undoes of another.

use crate::editor::{DiffReviewOverlay, Editor};
use crate::editor_comments::{lemma_total_mapped, map_store};
use crate::editor_dismissal::{
    any_composer, kept_comments, kept_hunks, with_composer_closed, with_composers_closed,
};
use crate::editor_overlays::{
    ids_unless, in_use, open_overlay_from, overlays_where, same_overlay, shows_overlay,
};
use crate::editor_resolution::{
    keys_at, named_parent, resolution_links, resolved_among, resolves_thread, thread_places,
};
use crate::forest::top_of;
use crate::review_comment::{
    comment_key, is_only_at, key_matches, only_at, AnchorRange, CommentKeyView, DiffHunkKey,
    StoredReviewComment,
};
use crate::review_snapshot::ReviewSnapshot;
use crate::review_store::{
    all_comments, asked_for, hunk_at, is_only_stored, lemma_hunk_from, lemma_only_stored,
    only_stored, stored_at, with_comment, with_new_comment, without_comment, HunkView, QueryView,
};
use vstd::prelude::*;

verus! {

/// Changing a comment leaves all others as they are, where they are.
pub proof fn changing_a_comment_leaves_the_others(
    store: Seq<HunkView>,
    h: int,
    i: int,
    comment: StoredReviewComment,
    g: int,
    j: int,
)
    requires
        stored_at(store, h, i),
        stored_at(store, g, j),
    ensures
        stored_at(with_comment(store, h, i, comment), g, j),
        with_comment(store, h, i, comment)[g].key == store[g].key,
        with_comment(store, h, i, comment)[g].comments[j] == if g == h && j == i {
            comment
        } else {
            store[g].comments[j]
        },
{
}

/// Where a comment that is added to a hunk stands.
pub open spec fn place_of_new(
    store: Seq<HunkView>,
    key: DiffHunkKey,
    snapshot: ReviewSnapshot,
) -> (int, int) {
    match hunk_at(store, key, snapshot) {
        Some(h) => (h, store[h].comments.len() as int),
        None => (store.len() as int, 0),
    }
}

/// Deleting a comment that was just added leaves the comments that there were. Where it was the
/// first of its hunk, the hunk stays, without comments.
pub proof fn deleting_undoes_adding(
    store: Seq<HunkView>,
    key: DiffHunkKey,
    snapshot: ReviewSnapshot,
    comment: StoredReviewComment,
)
    ensures
        ({
            let added = with_new_comment(store, key, snapshot, comment);
            let (h, i) = place_of_new(store, key, snapshot);
            &&& stored_at(added, h, i)
            &&& added[h].comments[i] == comment
            &&& without_comment(added, h, i) == if hunk_at(store, key, snapshot) is Some {
                store
            } else {
                store.push(HunkView { key, comments: Seq::empty() })
            }
            &&& all_comments(without_comment(added, h, i)) == all_comments(store)
        }),
{
    let added = with_new_comment(store, key, snapshot, comment);
    let (h, i) = place_of_new(store, key, snapshot);
    lemma_hunk_from(store, key, snapshot, 0);
    let now = without_comment(added, h, i);
    match hunk_at(store, key, snapshot) {
        Some(h) => {
            assert(now[h].comments =~= store[h].comments);
            assert(now =~= store);
        },
        None => {
            let empty = HunkView { key, comments: Seq::empty() };
            assert(now[h].comments =~= Seq::empty());
            assert(now =~= store.push(empty));
            assert(store.push(empty).drop_last() =~= store);
            assert(all_comments(now) =~= all_comments(store));
        },
    }
}

/// No two comments have the same key.
pub open spec fn keys_differ(store: Seq<HunkView>) -> bool {
    forall|h: int, i: int, g: int, j: int|
        #![trigger store[h].comments[i], store[g].comments[j]]
        stored_at(store, h, i) && stored_at(store, g, j) && (h != g || i != j) ==> comment_key(
            store[h].comments[i],
        ) != comment_key(store[g].comments[j])
}

/// Where no two comments have the same key, every comment is found by its own.
pub proof fn comments_are_found_by_their_keys(store: Seq<HunkView>, h: int, i: int)
    requires
        keys_differ(store),
        stored_at(store, h, i),
    ensures
        only_stored(store, QueryView::Key(comment_key(store[h].comments[i]))) == Some((h, i)),
{
    let key = comment_key(store[h].comments[i]);
    assert(is_only_stored(store, QueryView::Key(key), h, i)) by {
        assert forall|g: int, j: int|
            #![trigger store[g].comments[j]]
            stored_at(store, g, j) && asked_for(
                QueryView::Key(key),
                store[g].comments[j],
            ) implies g == h && j == i by {
            assert(comment_key(store[g].comments[j]) == key);
        }
    }
    lemma_only_stored(store, QueryView::Key(key), h, i);
}

/// A comment with a key of its own can be added without any comment losing its own.
pub proof fn new_keys_keep_keys_apart(
    store: Seq<HunkView>,
    key: DiffHunkKey,
    snapshot: ReviewSnapshot,
    comment: StoredReviewComment,
)
    requires
        keys_differ(store),
        forall|h: int, i: int|
            #![trigger store[h].comments[i]]
            stored_at(store, h, i) ==> comment_key(store[h].comments[i]) != comment_key(comment),
    ensures
        keys_differ(with_new_comment(store, key, snapshot, comment)),
{
    let added = with_new_comment(store, key, snapshot, comment);
    let (x, y) = place_of_new(store, key, snapshot);
    lemma_hunk_from(store, key, snapshot, 0);
    assert forall|h: int, i: int|
        #![trigger added[h].comments[i]]
        stored_at(added, h, i) implies (if h == x && i == y {
        added[h].comments[i] == comment
    } else {
        stored_at(store, h, i) && added[h].comments[i] == store[h].comments[i]
    }) by {}
    assert forall|h: int, i: int, g: int, j: int|
        #![trigger added[h].comments[i], added[g].comments[j]]
        stored_at(added, h, i) && stored_at(added, g, j) && (h != g || i != j) implies comment_key(
        added[h].comments[i],
    ) != comment_key(added[g].comments[j]) by {
        if !(h == x && i == y) {
            assert(added[h].comments[i] == store[h].comments[i]);
        }
        if !(g == x && j == y) {
            assert(added[g].comments[j] == store[g].comments[j]);
        }
    }
}

/// All comments have numbers below `next`.
pub open spec fn numbers_below(store: Seq<HunkView>, next: usize) -> bool {
    forall|h: int, i: int|
        #![trigger store[h].comments[i]]
        stored_at(store, h, i) ==> store[h].comments[i].id < next
}

/// A new comment, which gets the next number, gets one that no comment has, and all numbers are
/// below the next again.
pub proof fn new_numbers_are_not_taken(
    store: Seq<HunkView>,
    key: DiffHunkKey,
    snapshot: ReviewSnapshot,
    comment: StoredReviewComment,
    next: usize,
)
    requires
        numbers_below(store, next),
        next < usize::MAX,
        comment.id == next,
    ensures
        forall|h: int, i: int|
            #![trigger store[h].comments[i]]
            stored_at(store, h, i) ==> store[h].comments[i].id != comment.id,
        numbers_below(with_new_comment(store, key, snapshot, comment), (next + 1) as usize),
{
    let added = with_new_comment(store, key, snapshot, comment);
    let (x, y) = place_of_new(store, key, snapshot);
    lemma_hunk_from(store, key, snapshot, 0);
    assert forall|h: int, i: int|
        #![trigger added[h].comments[i]]
        stored_at(added, h, i) implies added[h].comments[i].id < next + 1 by {
        if !(h == x && i == y) {
            assert(added[h].comments[i] == store[h].comments[i]);
        }
    }
}

/// No two overlays are at the same lines of the same hunk.
pub open spec fn overlays_differ(
    overlays: Seq<DiffReviewOverlay>,
    snapshot: ReviewSnapshot,
) -> bool {
    forall|i: int, j: int|
        #![trigger overlays[i], overlays[j]]
        0 <= i < j < overlays.len() ==> !same_overlay(
            overlays[i],
            overlays[j].hunk_key,
            overlays[j].anchor_range,
            snapshot,
        )
}

proof fn lemma_where_differ(
    overlays: Seq<DiffReviewOverlay>,
    keep: spec_fn(DiffReviewOverlay) -> bool,
    snapshot: ReviewSnapshot,
)
    requires
        overlays_differ(overlays, snapshot),
    ensures
        overlays_differ(overlays_where(overlays, keep), snapshot),
        forall|i: int|
            0 <= i < overlays_where(overlays, keep).len() ==> overlays.contains(
                #[trigger] overlays_where(overlays, keep)[i],
            ),
    decreases overlays.len(),
{
    if overlays.len() > 0 {
        let rest = overlays.drop_last();
        let last = overlays.last();
        assert forall|i: int, j: int|
            #![trigger rest[i], rest[j]]
            0 <= i < j < rest.len() implies !same_overlay(
            rest[i],
            rest[j].hunk_key,
            rest[j].anchor_range,
            snapshot,
        ) by {
            assert(rest[i] == overlays[i]);
            assert(rest[j] == overlays[j]);
        }
        lemma_where_differ(rest, keep, snapshot);
        let before = overlays_where(rest, keep);
        let now = overlays_where(overlays, keep);
        assert forall|i: int| 0 <= i < before.len() implies overlays.contains(
            #[trigger] before[i],
        ) && !same_overlay(before[i], last.hunk_key, last.anchor_range, snapshot) by {
            let p = choose|p: int| 0 <= p < rest.len() && rest[p] == before[i];
            assert(overlays[p] == before[i]);
            assert(overlays[overlays.len() - 1] == last);
        }
        assert(overlays[overlays.len() - 1] == last);
        if keep(last) {
            assert forall|i: int| 0 <= i < now.len() implies overlays.contains(#[trigger] now[i]) by {
                if i < before.len() {
                    assert(now[i] == before[i]);
                }
            }
            assert forall|i: int, j: int|
                #![trigger now[i], now[j]]
                0 <= i < j < now.len() implies !same_overlay(
                now[i],
                now[j].hunk_key,
                now[j].anchor_range,
                snapshot,
            ) by {
                assert(now[i] == before[i]);
                if j < before.len() {
                    assert(now[j] == before[j]);
                }
            }
        }
    }
}

proof fn lemma_none_open(
    overlays: Seq<DiffReviewOverlay>,
    key: DiffHunkKey,
    range: AnchorRange,
    snapshot: ReviewSnapshot,
    from: int,
    i: int,
)
    requires
        0 <= from <= i < overlays.len(),
        open_overlay_from(overlays, key, range, snapshot, from) is None,
    ensures
        !same_overlay(overlays[i], key, range, snapshot),
    decreases i - from,
{
    if from < i {
        lemma_none_open(overlays, key, range, snapshot, from + 1, i);
    }
}

proof fn lemma_open_in_range(
    overlays: Seq<DiffReviewOverlay>,
    key: DiffHunkKey,
    range: AnchorRange,
    snapshot: ReviewSnapshot,
    from: int,
)
    requires
        0 <= from,
    ensures
        open_overlay_from(overlays, key, range, snapshot, from) matches Some(at) ==> from <= at
            < overlays.len() && same_overlay(overlays[at], key, range, snapshot),
    decreases overlays.len() - from,
{
    if from < overlays.len() && !same_overlay(overlays[from], key, range, snapshot) {
        lemma_open_in_range(overlays, key, range, snapshot, from + 1);
    }
}

/// Showing an overlay never opens a second one at the same lines.
pub proof fn overlays_are_opened_once(
    before: Editor,
    after: Editor,
    key: DiffHunkKey,
    range: AnchorRange,
    composer_visible: bool,
    snapshot: ReviewSnapshot,
)
    requires
        overlays_differ(before.diff_review_overlays@, snapshot),
        shows_overlay(before, after, key, range, composer_visible, snapshot),
    ensures
        overlays_differ(after.diff_review_overlays@, snapshot),
{
    let overlays = before.diff_review_overlays@;
    let now = after.diff_review_overlays@;
    lemma_open_in_range(overlays, key, range, snapshot, 0);
    match open_overlay_from(overlays, key, range, snapshot, 0) {
        Some(at) => {
            if composer_visible {
                assert forall|i: int, j: int|
                    #![trigger now[i], now[j]]
                    0 <= i < j < now.len() implies !same_overlay(
                    now[i],
                    now[j].hunk_key,
                    now[j].anchor_range,
                    snapshot,
                ) by {
                    assert(now[i].hunk_key == overlays[i].hunk_key);
                    assert(now[i].anchor_range == overlays[i].anchor_range);
                    assert(now[j].hunk_key == overlays[j].hunk_key);
                    assert(now[j].anchor_range == overlays[j].anchor_range);
                }
            }
        },
        None => {
            let keep = in_use(before.hunks(), snapshot, false);
            let kept = overlays_where(overlays, keep);
            lemma_where_differ(overlays, keep, snapshot);
            assert(now =~= kept.push(now.last()));
            assert forall|i: int, j: int|
                #![trigger now[i], now[j]]
                0 <= i < j < now.len() implies !same_overlay(
                now[i],
                now[j].hunk_key,
                now[j].anchor_range,
                snapshot,
            ) by {
                assert(now[i] == kept[i]);
                if j < kept.len() {
                    assert(now[j] == kept[j]);
                } else {
                    let p = choose|p: int| 0 <= p < overlays.len() && overlays[p] == kept[i];
                    lemma_none_open(overlays, key, range, snapshot, 0, p);
                }
            }
        },
    }
}

/// What was given up stays given up: after composers were dismissed there are none, and no
/// overlay without comments.
pub proof fn composers_are_dismissed_once(before: Editor, snapshot: ReviewSnapshot)
    ensures
        ({
            let keep = in_use(before.hunks(), snapshot, false);
            let now = with_composers_closed(overlays_where(before.diff_review_overlays@, keep));
            &&& !any_composer(now)
            &&& ids_unless(now, keep) == Seq::<u64>::empty()
            &&& overlays_where(now, keep) == now
        }),
{
    let keep = in_use(before.hunks(), snapshot, false);
    let kept = overlays_where(before.diff_review_overlays@, keep);
    let now = with_composers_closed(kept);
    lemma_kept_are_kept(before.diff_review_overlays@, keep);
    assert forall|i: int| 0 <= i < now.len() implies keep(#[trigger] now[i])
        && !now[i].composer_visible by {
        assert(keep(kept[i]));
        assert(now[i] == with_composer_closed(kept[i]));
        assert(now[i].hunk_key == kept[i].hunk_key);
    }
    lemma_all_kept(now, keep);
}

proof fn lemma_kept_are_kept(
    overlays: Seq<DiffReviewOverlay>,
    keep: spec_fn(DiffReviewOverlay) -> bool,
)
    ensures
        forall|i: int|
            0 <= i < overlays_where(overlays, keep).len() ==> keep(
                #[trigger] overlays_where(overlays, keep)[i],
            ),
    decreases overlays.len(),
{
    if overlays.len() > 0 {
        lemma_kept_are_kept(overlays.drop_last(), keep);
        let before = overlays_where(overlays.drop_last(), keep);
        let now = overlays_where(overlays, keep);
        assert forall|i: int| 0 <= i < now.len() implies keep(#[trigger] now[i]) by {
            if i < before.len() {
                assert(now[i] == before[i]);
            }
        }
    }
}

proof fn lemma_all_kept(overlays: Seq<DiffReviewOverlay>, keep: spec_fn(DiffReviewOverlay) -> bool)
    requires
        forall|i: int| 0 <= i < overlays.len() ==> keep(#[trigger] overlays[i]),
    ensures
        overlays_where(overlays, keep) == overlays,
        ids_unless(overlays, keep) == Seq::<u64>::empty(),
    decreases overlays.len(),
{
    if overlays.len() > 0 {
        let rest = overlays.drop_last();
        assert forall|i: int| 0 <= i < rest.len() implies keep(#[trigger] rest[i]) by {
            assert(rest[i] == overlays[i]);
        }
        lemma_all_kept(rest, keep);
        assert(keep(overlays[overlays.len() - 1]));
        assert(overlays_where(overlays, keep) =~= overlays);
    } else {
        assert(overlays_where(overlays, keep) =~= overlays);
    }
}

proof fn lemma_kept_comments_twice(comments: Seq<StoredReviewComment>, snapshot: ReviewSnapshot)
    ensures
        kept_comments(kept_comments(comments, snapshot), snapshot) == kept_comments(
            comments,
            snapshot,
        ),
    decreases comments.len(),
{
    if comments.len() > 0 {
        lemma_kept_comments_twice(comments.drop_last(), snapshot);
        let before = kept_comments(comments.drop_last(), snapshot);
        let now = kept_comments(comments, snapshot);
        if now != before {
            assert(now.drop_last() =~= before);
        }
    }
}

/// What is left after orphaned comments were forgotten is not forgotten by doing so again.
pub proof fn orphans_are_forgotten_once(hunks: Seq<HunkView>, snapshot: ReviewSnapshot)
    ensures
        kept_hunks(kept_hunks(hunks, snapshot), snapshot) == kept_hunks(hunks, snapshot),
    decreases hunks.len(),
{
    if hunks.len() > 0 {
        orphans_are_forgotten_once(hunks.drop_last(), snapshot);
        let before = kept_hunks(hunks.drop_last(), snapshot);
        let now = kept_hunks(hunks, snapshot);
        if now != before {
            assert(now.drop_last() =~= before);
            lemma_kept_comments_twice(hunks.last().comments, snapshot);
        }
    }
}

/// Whether a comment is stored under a key.
pub open spec fn is_stored_under(
    hunks: Seq<HunkView>,
    key: DiffHunkKey,
    comment: StoredReviewComment,
) -> bool {
    exists|h: int|
        0 <= h < hunks.len() && (#[trigger] hunks[h]).key == key && hunks[h].comments.contains(
            comment,
        )
}

proof fn lemma_kept_comment(
    comments: Seq<StoredReviewComment>,
    snapshot: ReviewSnapshot,
    comment: StoredReviewComment,
)
    ensures
        kept_comments(comments, snapshot).contains(comment) == (comments.contains(comment)
            && snapshot.valid_at(comment.range.start) && snapshot.valid_at(comment.range.end)),
    decreases comments.len(),
{
    if comments.len() > 0 {
        let rest = comments.drop_last();
        lemma_kept_comment(rest, snapshot, comment);
        assert(comments =~= rest.push(comments.last()));
        vstd::seq_lib::lemma_seq_contains_after_push(rest, comments.last(), comment);
        vstd::seq_lib::lemma_seq_contains_after_push(
            kept_comments(rest, snapshot),
            comments.last(),
            comment,
        );
    }
}

/// A comment is still stored after orphaned ones were forgotten exactly where it was stored, its
/// anchors and that of its hunk are valid, and the diff still has its hunk; and no hunk is left
/// without comments.
pub proof fn orphans_are_what_is_forgotten(
    hunks: Seq<HunkView>,
    snapshot: ReviewSnapshot,
    key: DiffHunkKey,
    comment: StoredReviewComment,
)
    ensures
        is_stored_under(kept_hunks(hunks, snapshot), key, comment) == (is_stored_under(
            hunks,
            key,
            comment,
        ) && snapshot.valid_at(key.hunk_start_anchor) && snapshot.has_hunk(key)
            && snapshot.valid_at(comment.range.start) && snapshot.valid_at(comment.range.end)),
        forall|h: int|
            0 <= h < kept_hunks(hunks, snapshot).len() ==> (#[trigger] kept_hunks(
                hunks,
                snapshot,
            )[h]).comments.len() > 0,
    decreases hunks.len(),
{
    if hunks.len() > 0 {
        let rest = hunks.drop_last();
        let last = hunks.last();
        let before = kept_hunks(rest, snapshot);
        let now = kept_hunks(hunks, snapshot);
        orphans_are_what_is_forgotten(rest, snapshot, key, comment);
        lemma_kept_comment(last.comments, snapshot, comment);
        if is_stored_under(rest, key, comment) {
            let h = choose|h: int|
                0 <= h < rest.len() && (#[trigger] rest[h]).key == key
                    && rest[h].comments.contains(comment);
            assert(hunks[h] == rest[h]);
        }
        if is_stored_under(hunks, key, comment) {
            let h = choose|h: int|
                0 <= h < hunks.len() && (#[trigger] hunks[h]).key == key
                    && hunks[h].comments.contains(comment);
            if h < rest.len() {
                assert(rest[h] == hunks[h]);
            }
        }
        assert(hunks[hunks.len() - 1] == last);
        if is_stored_under(before, key, comment) {
            let h = choose|h: int|
                0 <= h < before.len() && (#[trigger] before[h]).key == key
                    && before[h].comments.contains(comment);
            assert(now[h] == before[h]);
        }
        if is_stored_under(now, key, comment) {
            let h = choose|h: int|
                0 <= h < now.len() && (#[trigger] now[h]).key == key
                    && now[h].comments.contains(comment);
            if h < before.len() {
                assert(before[h] == now[h]);
            }
        }
        if now != before {
            assert(now[before.len() as int].comments == kept_comments(last.comments, snapshot));
        }
        if kept_comments(last.comments, snapshot).len() == 0 {
            assert(!kept_comments(last.comments, snapshot).contains(comment));
        }
    }
}

/// Two lists of comments that differ in nothing that links or finds them.
spec fn same_threads(a: Seq<StoredReviewComment>, b: Seq<StoredReviewComment>) -> bool {
    &&& a.len() == b.len()
    &&& forall|k: int|
        0 <= k < a.len() ==> (#[trigger] a[k]).id == b[k].id && a[k].record_id == b[k].record_id
            && a[k].reply_to == b[k].reply_to && a[k].reply_to_record_id
            == b[k].reply_to_record_id
}

proof fn lemma_same_only(
    a: Seq<StoredReviewComment>,
    b: Seq<StoredReviewComment>,
    key: CommentKeyView,
)
    requires
        same_threads(a, b),
    ensures
        only_at(a, key) == only_at(b, key),
{
    assert forall|at: int| is_only_at(a, key, at) == is_only_at(b, key, at) by {
        if is_only_at(a, key, at) {
            assert forall|i: int| 0 <= i < b.len() implies (key_matches(key, #[trigger] b[i])
                <==> i == at) by {
                assert(key_matches(key, a[i]) <==> i == at);
            }
        }
        if is_only_at(b, key, at) {
            assert forall|i: int| 0 <= i < a.len() implies (key_matches(key, #[trigger] a[i])
                <==> i == at) by {
                assert(key_matches(key, b[i]) <==> i == at);
            }
        }
    }
    if exists|at: int| is_only_at(a, key, at) {
        let x = choose|at: int| is_only_at(a, key, at);
        let y = choose|at: int| is_only_at(b, key, at);
        assert(is_only_at(b, key, x));
        assert(is_only_at(b, key, y));
        assert(key_matches(key, b[x]));
    } else if exists|at: int| is_only_at(b, key, at) {
        let y = choose|at: int| is_only_at(b, key, at);
        assert(is_only_at(a, key, y));
    }
}

proof fn lemma_same_threads(a: Seq<StoredReviewComment>, b: Seq<StoredReviewComment>, id: usize)
    requires
        same_threads(a, b),
    ensures
        thread_places(a, id) == thread_places(b, id),
{
    lemma_same_only(a, b, CommentKeyView::Legacy(id));
    let x = resolution_links(a);
    let y = resolution_links(b);
    assert forall|k: int| 0 <= k < a.len() implies #[trigger] x[k] == y[k] by {
        assert(a[k].reply_to == b[k].reply_to);
        if let Some(record_id) = a[k].reply_to_record_id {
            lemma_same_only(a, b, CommentKeyView::Stable(record_id@));
        }
        if let Some(parent) = a[k].reply_to {
            lemma_same_only(a, b, CommentKeyView::Legacy(parent));
        }
        assert(named_parent(a, a[k]) == named_parent(b, b[k]));
    }
    assert(x =~= y);
}

/// Resolving a thread changes no thread: the same comments are found in it, by the same keys.
pub proof fn resolving_keeps_threads(before: Editor, after: Editor, id: usize, resolved: bool)
    requires
        resolves_thread(before, after, id, resolved),
    ensures
        forall|other: usize| #[trigger]
            thread_places(all_comments(after.hunks()), other) == thread_places(
                all_comments(before.hunks()),
                other,
            ),
{
    let comments = all_comments(before.hunks());
    let now = all_comments(after.hunks());
    if let Some(places) = thread_places(comments, id) {
        let keys = keys_at(comments, places);
        let change = |comment: StoredReviewComment| resolved_among(comment, keys, resolved);
        lemma_total_mapped(before.hunks(), change);
        assert(now == comments.map_values(change));
        assert(same_threads(now, comments));
        assert forall|other: usize| #[trigger] thread_places(now, other) == thread_places(
            comments,
            other,
        ) by {
            lemma_same_threads(now, comments, other);
        }
    }
}

/// Reopening a thread whose comments were all open undoes resolving it.
pub proof fn reopening_undoes_resolving(first: Editor, second: Editor, third: Editor, id: usize)
    requires
        resolves_thread(first, second, id, true),
        resolves_thread(second, third, id, false),
        forall|k: int|
            0 <= k < all_comments(first.hunks()).len() ==> !(#[trigger] all_comments(
                first.hunks(),
            )[k]).resolved,
    ensures
        third.hunks() == first.hunks(),
{
    let comments = all_comments(first.hunks());
    let resolved = all_comments(second.hunks());
    resolving_keeps_threads(first, second, id, true);
    if let Some(places) = thread_places(comments, id) {
        let keys = keys_at(comments, places);
        let change = |comment: StoredReviewComment| resolved_among(comment, keys, true);
        let back = |comment: StoredReviewComment| resolved_among(comment, keys, false);
        lemma_total_mapped(first.hunks(), change);
        let again = keys_at(resolved, places);
        assert(resolved == comments.map_values(change));
        assert(again =~= keys) by {
            assert forall|i: int| 0 <= i < places.len() implies #[trigger] again[i] == keys[i] by {
                lemma_places_in_range(comments, id, i);
                let k = places[i];
                assert(resolved[k] == change(comments[k]));
            }
        }
        assert(third.hunks() == map_store(second.hunks(), back));
        assert(second.hunks() == map_store(first.hunks(), change));
        lemma_all_open(first.hunks());
        let one = first.hunks();
        let three = third.hunks();
        assert forall|h: int| 0 <= h < one.len() implies #[trigger] three[h] == one[h] by {
            let hunk = one[h];
            assert(second.hunks()[h].comments == hunk.comments.map_values(change));
            assert(three[h].comments == hunk.comments.map_values(change).map_values(back));
            assert forall|i: int| 0 <= i < hunk.comments.len() implies #[trigger] three[h].comments[i]
                == hunk.comments[i] by {
                assert(stored_at(one, h, i));
                assert(!one[h].comments[i].resolved);
            }
            assert(three[h].comments =~= hunk.comments);
        }
        assert(three =~= one);
    }
}

proof fn lemma_places_in_range(comments: Seq<StoredReviewComment>, id: usize, i: int)
    requires
        thread_places(comments, id) is Some,
        0 <= i < thread_places(comments, id)->0.len(),
    ensures
        0 <= thread_places(comments, id)->0[i] < comments.len(),
{
    let links = resolution_links(comments);
    crate::editor_resolution::lemma_resolution_links_ok(comments);
    let selected = only_at(comments, CommentKeyView::Legacy(id))->0;
    let at = choose|at: int| is_only_at(comments, CommentKeyView::Legacy(id), at);
    assert(is_only_at(comments, CommentKeyView::Legacy(id), at));
    let top = top_of(links, selected);
    assert(crate::forest::ends_at(links, selected, top));
    let n = choose|n: nat| #[trigger] crate::forest::climb(links, selected, n) == Some(top);
    crate::forest::lemma_climb_in_range(links, selected, n);
    crate::breadth::lemma_below_by_level(links, top);
    let places = thread_places(comments, id)->0;
    assert(places.contains(places[i]));
}

/// A comment stands among all comments.
proof fn lemma_all_open(store: Seq<HunkView>)
    requires
        forall|k: int|
            0 <= k < all_comments(store).len() ==> !(#[trigger] all_comments(store)[k]).resolved,
    ensures
        forall|h: int, i: int|
            #![trigger store[h].comments[i]]
            stored_at(store, h, i) ==> !store[h].comments[i].resolved,
    decreases store.len(),
{
    if store.len() > 0 {
        let rest = store.drop_last();
        let all = all_comments(store);
        let before = all_comments(rest);
        assert forall|k: int| 0 <= k < before.len() implies !(#[trigger] before[k]).resolved by {
            assert(all[k] == before[k]);
        }
        lemma_all_open(rest);
        assert forall|h: int, i: int|
            #![trigger store[h].comments[i]]
            stored_at(store, h, i) implies !store[h].comments[i].resolved by {
            if h < store.len() - 1 {
                assert(rest[h] == store[h]);
                assert(!rest[h].comments[i].resolved);
            } else {
                assert(all[before.len() + i] == store[h].comments[i]);
            }
        }
    }
}

} // verus!
