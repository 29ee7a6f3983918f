//! Comments that are put into an editor come back from it as they were.

use crate::comment::{StackReviewComment, StackReviewCommentAuthor, StackReviewCommentSource};
use crate::editor_projection::{
    by_number, number_after, number_order, placed, placed_key, projected, projected_comments,
    projected_hunks, restored, restored_hunks,
};
use crate::ranking::{
    arranged, is_ranking, lemma_permuted_multiset, lemma_ranking_exists, lemma_ranking_permutes,
    sorts_before,
};
use crate::review_comment::{DiffHunkKey, StoredReviewComment};
use crate::review_snapshot::{Point, ReviewSnapshot};
use crate::review_store::{hunk_at, lemma_hunk_from, HunkView};
use vstd::prelude::*;

verus! {

/// A comment of a review, its path taken as a text.
pub struct ReviewCommentView {
    pub path: Seq<char>,
    pub id: usize,
    pub record_id: Option<String>,
    pub start: Point,
    pub end: Point,
    pub body: String,
    pub created_at: String,
    pub resolved: bool,
    pub author: StackReviewCommentAuthor,
    pub source: StackReviewCommentSource,
    pub reply_to: Option<usize>,
    pub reply_to_record_id: Option<String>,
}

/// A comment of a review, its path taken as a text.
pub open spec fn review_view(comment: StackReviewComment) -> ReviewCommentView {
    ReviewCommentView {
        path: comment.path@,
        id: comment.id,
        record_id: comment.record_id,
        start: Point { row: comment.start_row, column: comment.start_column },
        end: Point { row: comment.end_row, column: comment.end_column },
        body: comment.body,
        created_at: comment.created_at,
        resolved: comment.resolved,
        author: comment.author,
        source: comment.source,
        reply_to: comment.reply_to,
        reply_to_record_id: comment.reply_to_record_id,
    }
}

/// Comments of a review, their paths taken as texts.
pub open spec fn review_views(comments: Seq<StackReviewComment>) -> Seq<ReviewCommentView> {
    comments.map_values(|comment: StackReviewComment| review_view(comment))
}

/// The anchor that a snapshot gives for a point of a file stands at that point of the file.
pub open spec fn anchors_are_exact(snapshot: ReviewSnapshot) -> bool {
    forall|path: Seq<char>, p: Point, q: Point|
        #![trigger snapshot.anchor_in(path, p), snapshot.anchor_in(path, q)]
        snapshot.anchor_in(path, p) is Some && snapshot.anchor_in(path, q) is Some ==> {
            let a = snapshot.buffer_at(snapshot.anchor_in(path, p)->0);
            let b = snapshot.buffer_at(snapshot.anchor_in(path, q)->0);
            a is Some && b is Some && a->0.point == p && b->0.point == q && a->0.buffer_id
                == b->0.buffer_id
        }
}

/// All comments are on files, at points that the snapshot has anchors for.
pub open spec fn all_placed(comments: Seq<StackReviewComment>, snapshot: ReviewSnapshot) -> bool {
    forall|i: int|
        0 <= i < comments.len() ==> (#[trigger] comments[i]).path@.len() > 0 && placed(
            comments[i],
            snapshot,
        ) is Some
}

/// A comment that is put into an editor comes back as it was, under whichever key of its file it
/// is kept.
pub proof fn restored_comment_comes_back(
    comment: StackReviewComment,
    key: DiffHunkKey,
    stashed_record_ids: Seq<String>,
    localized: Map<Seq<char>, String>,
    snapshot: ReviewSnapshot,
)
    requires
        anchors_are_exact(snapshot),
        comment.path@.len() > 0,
        placed(comment, snapshot) is Some,
        key.file_path@ == comment.path@,
    ensures
        projected(
            key,
            restored(comment, placed(comment, snapshot)->0, stashed_record_ids, localized),
            snapshot,
        ) == Some(StackReviewComment { path: key.file_path, ..comment }),
{
    let p = Point { row: comment.start_row, column: comment.start_column };
    let q = Point { row: comment.end_row, column: comment.end_column };
    assert(snapshot.anchor_in(comment.path@, p) is Some);
    assert(snapshot.anchor_in(comment.path@, q) is Some);
}

proof fn lemma_projected_push(
    key: DiffHunkKey,
    comments: Seq<StoredReviewComment>,
    comment: StoredReviewComment,
    snapshot: ReviewSnapshot,
)
    requires
        projected(key, comment, snapshot) is Some,
    ensures
        projected_comments(key, comments.push(comment), snapshot) == projected_comments(
            key,
            comments,
            snapshot,
        ).push(projected(key, comment, snapshot)->0),
{
    assert(comments.push(comment).drop_last() =~= comments);
}

proof fn lemma_views_append(a: Seq<StackReviewComment>, b: Seq<StackReviewComment>)
    ensures
        review_views(a + b) == review_views(a) + review_views(b),
{
    assert(review_views(a + b) =~= review_views(a) + review_views(b));
}

/// A comment that is added to a hunk adds what it projects to.
proof fn lemma_projected_update(
    store: Seq<HunkView>,
    h: int,
    comment: StoredReviewComment,
    snapshot: ReviewSnapshot,
)
    requires
        0 <= h < store.len(),
        projected(store[h].key, comment, snapshot) is Some,
    ensures
        ({
            let now = store.update(
                h,
                HunkView { key: store[h].key, comments: store[h].comments.push(comment) },
            );
            review_views(projected_hunks(now, snapshot)).to_multiset() == review_views(
                projected_hunks(store, snapshot),
            ).to_multiset().insert(review_view(projected(store[h].key, comment, snapshot)->0))
        }),
    decreases store.len(),
{
    let hunk = HunkView { key: store[h].key, comments: store[h].comments.push(comment) };
    let now = store.update(h, hunk);
    let added = projected(store[h].key, comment, snapshot)->0;
    let rest = store.drop_last();
    let last = projected_comments(store.last().key, store.last().comments, snapshot);
    if h < store.len() - 1 {
        lemma_projected_update(rest, h, comment, snapshot);
        assert(now.drop_last() =~= rest.update(h, hunk));
        assert(now.last() == store.last());
        lemma_views_append(projected_hunks(rest, snapshot), last);
        lemma_views_append(projected_hunks(now.drop_last(), snapshot), last);
        vstd::seq_lib::lemma_multiset_commutative(
            review_views(projected_hunks(rest, snapshot)),
            review_views(last),
        );
        vstd::seq_lib::lemma_multiset_commutative(
            review_views(projected_hunks(now.drop_last(), snapshot)),
            review_views(last),
        );
        assert(review_views(projected_hunks(now, snapshot)).to_multiset() =~= review_views(
            projected_hunks(store, snapshot),
        ).to_multiset().insert(review_view(added)));
    } else {
        assert(now.drop_last() =~= rest);
        lemma_projected_push(store[h].key, store[h].comments, comment, snapshot);
        let before = projected_hunks(store, snapshot);
        assert(projected_hunks(now, snapshot) =~= before.push(added));
        assert(review_views(before.push(added)) =~= review_views(before).push(review_view(added)));
        vstd::seq_lib::to_multiset_build(review_views(before), review_view(added));
    }
}

proof fn lemma_restored_multiset(
    comments: Seq<StackReviewComment>,
    stashed_record_ids: Seq<String>,
    localized: Map<Seq<char>, String>,
    snapshot: ReviewSnapshot,
)
    requires
        anchors_are_exact(snapshot),
        all_placed(comments, snapshot),
    ensures
        review_views(
            projected_hunks(
                restored_hunks(comments, stashed_record_ids, localized, snapshot),
                snapshot,
            ),
        ).to_multiset() == review_views(comments).to_multiset(),
    decreases comments.len(),
{
    let hunks = restored_hunks(comments, stashed_record_ids, localized, snapshot);
    if comments.len() == 0 {
        assert(review_views(projected_hunks(hunks, snapshot)) =~= review_views(comments));
    } else {
        let rest = comments.drop_last();
        let comment = comments.last();
        assert(comments[comments.len() - 1] == comment);
        assert forall|i: int| 0 <= i < rest.len() implies (#[trigger] rest[i]).path@.len() > 0
            && placed(rest[i], snapshot) is Some by {
            assert(rest[i] == comments[i]);
        }
        lemma_restored_multiset(rest, stashed_record_ids, localized, snapshot);
        let before = restored_hunks(rest, stashed_record_ids, localized, snapshot);
        let range = placed(comment, snapshot)->0;
        let key = placed_key(comment, range);
        let stored = restored(comment, range, stashed_record_ids, localized);
        lemma_hunk_from(before, key, snapshot, 0);
        match hunk_at(before, key, snapshot) {
            Some(h) => {
                restored_comment_comes_back(
                    comment,
                    before[h].key,
                    stashed_record_ids,
                    localized,
                    snapshot,
                );
                lemma_projected_update(before, h, stored, snapshot);
            },
            None => {
                restored_comment_comes_back(comment, key, stashed_record_ids, localized, snapshot);
                let hunk = HunkView { key, comments: seq![stored] };
                assert(hunks.drop_last() =~= before);
                assert(Seq::empty().push(stored) =~= seq![stored]);
                lemma_projected_push(key, Seq::empty(), stored, snapshot);
                let added = projected(key, stored, snapshot)->0;
                let shown = projected_hunks(before, snapshot);
                assert(projected_hunks(hunks, snapshot) =~= shown.push(added));
                assert(review_views(shown.push(added)) =~= review_views(shown).push(
                    review_view(added),
                ));
                vstd::seq_lib::to_multiset_build(review_views(shown), review_view(added));
            },
        }
        assert(review_views(comments) =~= review_views(rest).push(review_view(comment)));
        vstd::seq_lib::to_multiset_build(review_views(rest), review_view(comment));
    }
}

/// Sorting by numbers keeps all comments and puts none before one of a lower number.
proof fn lemma_by_number(comments: Seq<StackReviewComment>)
    ensures
        review_views(by_number(comments)).to_multiset() == review_views(comments).to_multiset(),
        forall|i: int, j: int|
            #![trigger by_number(comments)[i], by_number(comments)[j]]
            0 <= i < j < by_number(comments).len() ==> by_number(comments)[i].id <= by_number(
                comments,
            )[j].id,
{
    let le = number_order(comments);
    lemma_ranking_exists(comments.len(), le);
    let order = choose|order: Seq<int>| is_ranking(order, comments.len(), number_order(comments));
    assert(is_ranking(order, comments.len(), le));
    lemma_ranking_permutes(order, comments.len(), le);
    let sorted = by_number(comments);
    assert forall|i: int, j: int|
        #![trigger sorted[i], sorted[j]]
        0 <= i < j < sorted.len() implies sorted[i].id <= sorted[j].id by {
        assert(sorts_before(le, order[i], order[j]));
    }
    lemma_permuted_multiset(review_views(comments), order);
    assert(review_views(sorted) =~= arranged(review_views(comments), order));
}

/// Two lists of the same comments, one in the order of numbers that are all different and the
/// other in an order of numbers, are the same.
proof fn lemma_sorted_unique(a: Seq<ReviewCommentView>, b: Seq<ReviewCommentView>)
    requires
        a.to_multiset() == b.to_multiset(),
        forall|i: int, j: int|
            #![trigger a[i], a[j]]
            0 <= i < j < a.len() ==> a[i].id <= a[j].id,
        forall|i: int, j: int|
            #![trigger b[i], b[j]]
            0 <= i < j < b.len() ==> b[i].id < b[j].id,
    ensures
        a == b,
    decreases b.len(),
{
    a.to_multiset_ensures();
    b.to_multiset_ensures();
    assert(a.len() == b.len());
    if b.len() == 0 {
        assert(a =~= b);
    } else {
        let x = a.last();
        let y = b.last();
        assert(a.contains(x));
        assert(b.to_multiset().count(x) > 0);
        assert(b.contains(x));
        let i = choose|i: int| 0 <= i < b.len() && b[i] == x;
        assert(b.contains(y));
        assert(a.to_multiset().count(y) > 0);
        assert(a.contains(y));
        let j = choose|j: int| 0 <= j < a.len() && a[j] == y;
        if i < b.len() - 1 {
            assert(b[i].id < b[b.len() - 1].id);
            if j < a.len() - 1 {
                assert(a[j].id <= a[a.len() - 1].id);
            }
        }
        assert(x == y);
        let a_rest = a.drop_last();
        let b_rest = b.drop_last();
        assert(a =~= a_rest.push(x));
        assert(b =~= b_rest.push(y));
        vstd::seq_lib::to_multiset_build(a_rest, x);
        vstd::seq_lib::to_multiset_build(b_rest, y);
        assert(a_rest.to_multiset() =~= b_rest.to_multiset()) by {
            assert(a_rest.to_multiset().insert(x).remove(x) =~= a_rest.to_multiset());
            assert(b_rest.to_multiset().insert(y).remove(y) =~= b_rest.to_multiset());
        }
        assert forall|i: int, j: int|
            #![trigger a_rest[i], a_rest[j]]
            0 <= i < j < a_rest.len() implies a_rest[i].id <= a_rest[j].id by {
            assert(a_rest[i] == a[i]);
            assert(a_rest[j] == a[j]);
        }
        assert forall|i: int, j: int|
            #![trigger b_rest[i], b_rest[j]]
            0 <= i < j < b_rest.len() implies b_rest[i].id < b_rest[j].id by {
            assert(b_rest[i] == b[i]);
            assert(b_rest[j] == b[j]);
        }
        lemma_sorted_unique(a_rest, b_rest);
    }
}

/// Comments that are put into an editor, in the order of their numbers, come back as they were,
/// wherever their lines can be told.
pub proof fn restored_comments_come_back(
    comments: Seq<StackReviewComment>,
    stashed_record_ids: Seq<String>,
    localized: Map<Seq<char>, String>,
    snapshot: ReviewSnapshot,
)
    requires
        anchors_are_exact(snapshot),
        all_placed(comments, snapshot),
        forall|i: int, j: int|
            #![trigger comments[i], comments[j]]
            0 <= i < j < comments.len() ==> comments[i].id < comments[j].id,
    ensures
        review_views(
            by_number(
                projected_hunks(
                    restored_hunks(comments, stashed_record_ids, localized, snapshot),
                    snapshot,
                ),
            ),
        ) == review_views(comments),
{
    let shown = projected_hunks(
        restored_hunks(comments, stashed_record_ids, localized, snapshot),
        snapshot,
    );
    lemma_restored_multiset(comments, stashed_record_ids, localized, snapshot);
    lemma_by_number(shown);
    let sorted = by_number(shown);
    let a = review_views(sorted);
    let b = review_views(comments);
    assert forall|i: int, j: int|
        #![trigger a[i], a[j]]
        0 <= i < j < a.len() implies a[i].id <= a[j].id by {
        assert(a[i].id == sorted[i].id);
        assert(a[j].id == sorted[j].id);
    }
    assert forall|i: int, j: int|
        #![trigger b[i], b[j]]
        0 <= i < j < b.len() implies b[i].id < b[j].id by {
        assert(b[i].id == comments[i].id);
        assert(b[j].id == comments[j].id);
    }
    lemma_sorted_unique(a, b);
}

/// New comments get numbers that no comment that was put into the editor has.
pub proof fn restored_numbers_are_below(comments: Seq<StackReviewComment>, i: int)
    requires
        0 <= i < comments.len(),
        comments[i].id < usize::MAX,
    ensures
        comments[i].id < number_after(comments),
    decreases comments.len(),
{
    if i < comments.len() - 1 {
        assert(comments.drop_last()[i] == comments[i]);
        restored_numbers_are_below(comments.drop_last(), i);
    }
}

} // verus!
