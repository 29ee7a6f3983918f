//! The comments of an editor, hunk by hunk.

use crate::review_comment::{
    key_matches, opt_place, CommentKeyView, DiffHunkKey, ReviewCommentKey, StoredReviewComment,
};
use crate::review_snapshot::ReviewSnapshot;
use vstd::prelude::*;

verus! {

/// The comments of one hunk.
#[derive(Clone, Debug)]
pub struct HunkComments {
    pub key: DiffHunkKey,
    pub comments: Vec<StoredReviewComment>,
}

/// The comments of one hunk, as a value.
pub struct HunkView {
    pub key: DiffHunkKey,
    pub comments: Seq<StoredReviewComment>,
}

impl View for HunkComments {
    type V = HunkView;

    open spec fn view(&self) -> HunkView {
        HunkView { key: self.key, comments: self.comments@ }
    }
}

/// The comments of an editor as values.
pub open spec fn store_view(store: Seq<HunkComments>) -> Seq<HunkView> {
    store.map_values(|hunk: HunkComments| hunk@)
}

/// All comments, hunk after hunk.
pub open spec fn all_comments(store: Seq<HunkView>) -> Seq<StoredReviewComment>
    decreases store.len(),
{
    if store.len() == 0 {
        Seq::empty()
    } else {
        all_comments(store.drop_last()) + store.last().comments
    }
}

/// How many comments there are.
pub open spec fn total_comments(store: Seq<HunkView>) -> nat {
    all_comments(store).len()
}

/// Whether a comment stands at place `i` of hunk `h`.
pub open spec fn stored_at(store: Seq<HunkView>, h: int, i: int) -> bool {
    0 <= h < store.len() && 0 <= i < store[h].comments.len()
}

/// What a comment is asked for by.
#[derive(Clone, Debug)]
pub enum CommentQuery {
    /// Its key.
    Key(ReviewCommentKey),
    /// Its number, whether it has a record or not.
    Number(usize),
}

/// What a comment is asked for by, as a value.
pub enum QueryView {
    Key(CommentKeyView),
    Number(usize),
}

impl View for CommentQuery {
    type V = QueryView;

    open spec fn view(&self) -> QueryView {
        match self {
            CommentQuery::Key(key) => QueryView::Key(key@),
            CommentQuery::Number(id) => QueryView::Number(*id),
        }
    }
}

/// Whether a comment is asked for.
pub open spec fn asked_for(query: QueryView, comment: StoredReviewComment) -> bool {
    match query {
        QueryView::Key(key) => key_matches(key, comment),
        QueryView::Number(id) => comment.id == id,
    }
}

impl CommentQuery {
    /// Whether a comment is asked for.
    pub fn finds(&self, comment: &StoredReviewComment) -> (found: bool)
        ensures
            found == asked_for(self@, *comment),
    {
        match self {
            CommentQuery::Key(key) => key.matches(comment),
            CommentQuery::Number(id) => comment.id == *id,
        }
    }
}

/// Whether the comment at place `i` of hunk `h` is the only one that is asked for.
pub open spec fn is_only_stored(store: Seq<HunkView>, query: QueryView, h: int, i: int) -> bool {
    &&& stored_at(store, h, i)
    &&& asked_for(query, store[h].comments[i])
    &&& forall|g: int, j: int|
        #![trigger store[g].comments[j]]
        stored_at(store, g, j) && asked_for(query, store[g].comments[j]) ==> g == h && j == i
}

/// The hunk and the place of the one comment that is asked for. There is none where several are.
pub open spec fn only_stored(store: Seq<HunkView>, query: QueryView) -> Option<(int, int)> {
    if exists|h: int, i: int| is_only_stored(store, query, h, i) {
        Some(choose|h: int, i: int| is_only_stored(store, query, h, i))
    } else {
        None
    }
}

/// A hunk and a place that may be absent, as integers.
pub open spec fn opt_spot(spot: Option<(usize, usize)>) -> Option<(int, int)> {
    match spot {
        Some((h, i)) => Some((h as int, i as int)),
        None => None,
    }
}

/// What is the only one is found.
pub proof fn lemma_only_stored(store: Seq<HunkView>, query: QueryView, h: int, i: int)
    requires
        is_only_stored(store, query, h, i),
    ensures
        only_stored(store, query) == Some((h, i)),
{
    let (g, j) = choose|h: int, i: int| is_only_stored(store, query, h, i);
    assert(is_only_stored(store, query, g, j));
    assert(store[g].comments[j] == store[g].comments[j]);
}

proof fn lemma_none_stored(store: Seq<HunkView>, query: QueryView, a: (int, int), b: (int, int))
    requires
        stored_at(store, a.0, a.1),
        stored_at(store, b.0, b.1),
        a != b,
        asked_for(query, store[a.0].comments[a.1]),
        asked_for(query, store[b.0].comments[b.1]),
    ensures
        only_stored(store, query) is None,
{
    assert forall|h: int, i: int| !is_only_stored(store, query, h, i) by {
        if is_only_stored(store, query, h, i) {
            assert(store[a.0].comments[a.1] == store[a.0].comments[a.1]);
            assert(store[b.0].comments[b.1] == store[b.0].comments[b.1]);
        }
    }
}

/// Where the one comment stands that is asked for.
pub fn find_only_stored(store: &Vec<HunkComments>, query: &CommentQuery) -> (spot: Option<
    (usize, usize),
>)
    ensures
        opt_spot(spot) == only_stored(store_view(store@), query@),
        spot matches Some((h, i)) ==> is_only_stored(
            store_view(store@),
            query@,
            h as int,
            i as int,
        ),
{
    let ghost view = store_view(store@);
    let mut found: Option<(usize, usize)> = None;
    let mut h: usize = 0;
    while h < store.len()
        invariant
            h <= store@.len(),
            view == store_view(store@),
            match found {
                Some((a, b)) => a < h && stored_at(view, a as int, b as int) && asked_for(
                    query@,
                    view[a as int].comments[b as int],
                ),
                None => true,
            },
            forall|g: int, j: int|
                #![trigger view[g].comments[j]]
                stored_at(view, g, j) && g < h && asked_for(query@, view[g].comments[j])
                    ==> (found matches Some((a, b)) && g == a && j == b),
        decreases store.len() - h,
    {
        assert(view[h as int].comments == store@[h as int].comments@);
        let mut i: usize = 0;
        while i < store[h].comments.len()
            invariant
                h < store@.len(),
                i <= store@[h as int].comments@.len(),
                view == store_view(store@),
                view[h as int].comments == store@[h as int].comments@,
                match found {
                    Some((a, b)) => (a < h || (a == h && b < i)) && stored_at(
                        view,
                        a as int,
                        b as int,
                    ) && asked_for(query@, view[a as int].comments[b as int]),
                    None => true,
                },
                forall|g: int, j: int|
                    #![trigger view[g].comments[j]]
                    stored_at(view, g, j) && (g < h || (g == h && j < i)) && asked_for(
                        query@,
                        view[g].comments[j],
                    ) ==> (found matches Some((a, b)) && g == a && j == b),
            decreases store@[h as int].comments@.len() - i,
        {
            if query.finds(&store[h].comments[i]) {
                assert(asked_for(query@, view[h as int].comments[i as int]));
                match found {
                    Some((a, b)) => {
                        proof {
                            lemma_none_stored(
                                view,
                                query@,
                                (a as int, b as int),
                                (h as int, i as int),
                            );
                        }
                        return None;
                    },
                    None => {
                        found = Some((h, i));
                    },
                }
            }
            i += 1;
        }
        h += 1;
    }
    proof {
        match found {
            Some((a, b)) => {
                assert(is_only_stored(view, query@, a as int, b as int));
                lemma_only_stored(view, query@, a as int, b as int);
            },
            None => {
                assert forall|h: int, i: int| !is_only_stored(view, query@, h, i) by {
                    if is_only_stored(view, query@, h, i) {
                        assert(asked_for(query@, view[h].comments[i]));
                    }
                }
            },
        }
    }
    found
}

/// The first hunk at or after `from` that `key` stands for.
pub open spec fn hunk_from(
    store: Seq<HunkView>,
    key: DiffHunkKey,
    snapshot: ReviewSnapshot,
    from: int,
) -> Option<int>
    decreases store.len() - from,
{
    if from < 0 || from >= store.len() {
        None
    } else if snapshot.same_hunk(store[from].key, key) {
        Some(from)
    } else {
        hunk_from(store, key, snapshot, from + 1)
    }
}

/// The first hunk that `key` stands for.
pub open spec fn hunk_at(
    store: Seq<HunkView>,
    key: DiffHunkKey,
    snapshot: ReviewSnapshot,
) -> Option<int> {
    hunk_from(store, key, snapshot, 0)
}

/// The comments of the hunk that `key` stands for.
pub open spec fn hunk_comments(
    store: Seq<HunkView>,
    key: DiffHunkKey,
    snapshot: ReviewSnapshot,
) -> Seq<StoredReviewComment> {
    match hunk_at(store, key, snapshot) {
        Some(h) => store[h].comments,
        None => Seq::empty(),
    }
}

/// A hunk that is found is the first of those that `key` stands for.
pub proof fn lemma_hunk_from(
    store: Seq<HunkView>,
    key: DiffHunkKey,
    snapshot: ReviewSnapshot,
    from: int,
)
    requires
        0 <= from,
    ensures
        match hunk_from(store, key, snapshot, from) {
            Some(h) => from <= h < store.len() && snapshot.same_hunk(store[h].key, key)
                && forall|g: int|
                from <= g < h ==> !snapshot.same_hunk(#[trigger] store[g].key, key),
            None => forall|g: int|
                from <= g < store.len() ==> !snapshot.same_hunk(#[trigger] store[g].key, key),
        },
    decreases store.len() - from,
{
    if from < store.len() && !snapshot.same_hunk(store[from].key, key) {
        lemma_hunk_from(store, key, snapshot, from + 1);
    }
}

/// The first hunk that `key` stands for.
pub fn find_hunk(
    store: &Vec<HunkComments>,
    key: &DiffHunkKey,
    snapshot: &ReviewSnapshot,
) -> (at: Option<usize>)
    ensures
        opt_place(at) == hunk_at(store_view(store@), *key, *snapshot),
        at matches Some(h) ==> h < store@.len() && snapshot.same_hunk(store@[h as int].key, *key),
{
    let ghost view = store_view(store@);
    let mut h: usize = 0;
    while h < store.len()
        invariant
            h <= store@.len(),
            view == store_view(store@),
            hunk_at(view, *key, *snapshot) == hunk_from(view, *key, *snapshot, h as int),
        decreases store.len() - h,
    {
        assert(view[h as int].key == store@[h as int].key);
        if snapshot.hunk_keys_match(&store[h].key, key) {
            return Some(h);
        }
        h += 1;
    }
    None
}

/// The store with another comment at place `i` of hunk `h`.
pub open spec fn with_comment(
    store: Seq<HunkView>,
    h: int,
    i: int,
    comment: StoredReviewComment,
) -> Seq<HunkView> {
    store.update(
        h,
        HunkView { key: store[h].key, comments: store[h].comments.update(i, comment) },
    )
}

/// The store without the comment at place `i` of hunk `h`.
pub open spec fn without_comment(store: Seq<HunkView>, h: int, i: int) -> Seq<HunkView> {
    store.update(h, HunkView { key: store[h].key, comments: store[h].comments.remove(i) })
}

/// The store with one more comment, after the others of its hunk.
pub open spec fn with_new_comment(
    store: Seq<HunkView>,
    key: DiffHunkKey,
    snapshot: ReviewSnapshot,
    comment: StoredReviewComment,
) -> Seq<HunkView> {
    match hunk_at(store, key, snapshot) {
        Some(h) => store.update(
            h,
            HunkView { key: store[h].key, comments: store[h].comments.push(comment) },
        ),
        None => store.push(HunkView { key, comments: seq![comment] }),
    }
}

/// Puts another comment at place `i` of hunk `h`.
pub fn replace_comment(
    store: &mut Vec<HunkComments>,
    h: usize,
    i: usize,
    comment: StoredReviewComment,
)
    requires
        stored_at(store_view(old(store)@), h as int, i as int),
    ensures
        store_view(final(store)@) == with_comment(
            store_view(old(store)@),
            h as int,
            i as int,
            comment,
        ),
{
    let ghost before = store_view(store@);
    assert(before[h as int].comments == store@[h as int].comments@);
    store[h].comments.set(i, comment);
    proof {
        let now = store_view(store@);
        let then = with_comment(before, h as int, i as int, comment);
        assert forall|g: int| 0 <= g < now.len() implies #[trigger] now[g] == then[g] by {
            if g != h {
                assert(store@[g] == old(store)@[g]);
            }
        }
        assert(now =~= then);
    }
}

/// Takes the comment at place `i` of hunk `h` away.
pub fn take_comment(store: &mut Vec<HunkComments>, h: usize, i: usize) -> (comment:
    StoredReviewComment)
    requires
        stored_at(store_view(old(store)@), h as int, i as int),
    ensures
        store_view(final(store)@) == without_comment(store_view(old(store)@), h as int, i as int),
        comment == store_view(old(store)@)[h as int].comments[i as int],
{
    let ghost before = store_view(store@);
    assert(before[h as int].comments == store@[h as int].comments@);
    let comment = store[h].comments.remove(i);
    proof {
        let now = store_view(store@);
        let then = without_comment(before, h as int, i as int);
        assert forall|g: int| 0 <= g < now.len() implies #[trigger] now[g] == then[g] by {
            if g != h {
                assert(store@[g] == old(store)@[g]);
            }
        }
        assert(now =~= then);
    }
    comment
}

/// Adds a comment after the others of its hunk.
pub fn store_comment(
    store: &mut Vec<HunkComments>,
    key: DiffHunkKey,
    snapshot: &ReviewSnapshot,
    comment: StoredReviewComment,
)
    ensures
        store_view(final(store)@) == with_new_comment(
            store_view(old(store)@),
            key,
            *snapshot,
            comment,
        ),
{
    let ghost before = store_view(store@);
    let ghost then = with_new_comment(before, key, *snapshot, comment);
    match find_hunk(store, &key, snapshot) {
        Some(h) => {
            assert(before[h as int].comments == store@[h as int].comments@);
            store[h].comments.push(comment);
            proof {
                let now = store_view(store@);
                assert forall|g: int| 0 <= g < now.len() implies #[trigger] now[g] == then[g] by {
                    if g != h {
                        assert(store@[g] == old(store)@[g]);
                    }
                }
                assert(now =~= then);
            }
        },
        None => {
            let mut comments: Vec<StoredReviewComment> = Vec::new();
            comments.push(comment);
            let hunk = HunkComments { key, comments };
            store.push(hunk);
            proof {
                assert(hunk@.comments =~= seq![comment]);
                assert(store_view(store@) =~= then);
            }
        },
    }
}

/// How many comments there are in the first hunks.
pub proof fn lemma_total_grows(store: Seq<HunkView>, to: int)
    requires
        0 <= to <= store.len(),
    ensures
        total_comments(store.take(to)) <= total_comments(store),
    decreases store.len(),
{
    if to < store.len() {
        assert(store.drop_last().take(to) =~= store.take(to));
        lemma_total_grows(store.drop_last(), to);
    } else {
        assert(store.take(to) =~= store);
    }
}

/// How many comments there are.
pub fn count_comments(store: &Vec<HunkComments>) -> (total: usize)
    requires
        total_comments(store_view(store@)) <= usize::MAX,
    ensures
        total == total_comments(store_view(store@)),
{
    let ghost view = store_view(store@);
    let mut total: usize = 0;
    let mut h: usize = 0;
    while h < store.len()
        invariant
            h <= store@.len(),
            view == store_view(store@),
            total_comments(view) <= usize::MAX,
            total == total_comments(view.take(h as int)),
        decreases store.len() - h,
    {
        proof {
            assert(view.take(h + 1).drop_last() =~= view.take(h as int));
            assert(view.take(h + 1).last().comments == store@[h as int].comments@);
            lemma_total_grows(view, h + 1);
        }
        total = total + store[h].comments.len();
        h += 1;
    }
    assert(view.take(h as int) =~= view);
    total
}

/// A comment put in place of another changes the list of all comments at one place only.
pub proof fn lemma_total_with_comment(
    store: Seq<HunkView>,
    h: int,
    i: int,
    comment: StoredReviewComment,
)
    requires
        stored_at(store, h, i),
    ensures
        total_comments(with_comment(store, h, i, comment)) == total_comments(store),
    decreases store.len(),
{
    let now = with_comment(store, h, i, comment);
    if h < store.len() - 1 {
        lemma_total_with_comment(store.drop_last(), h, i, comment);
        assert(now.drop_last() =~= with_comment(store.drop_last(), h, i, comment));
    } else {
        assert(now.drop_last() =~= store.drop_last());
    }
}

/// A comment that is taken away leaves one comment fewer.
pub proof fn lemma_total_without_comment(store: Seq<HunkView>, h: int, i: int)
    requires
        stored_at(store, h, i),
    ensures
        total_comments(without_comment(store, h, i)) == total_comments(store) - 1,
    decreases store.len(),
{
    let now = without_comment(store, h, i);
    if h < store.len() - 1 {
        lemma_total_without_comment(store.drop_last(), h, i);
        assert(now.drop_last() =~= without_comment(store.drop_last(), h, i));
    } else {
        assert(now.drop_last() =~= store.drop_last());
    }
}

/// A comment that is added makes one comment more.
pub proof fn lemma_total_with_new_comment(
    store: Seq<HunkView>,
    key: DiffHunkKey,
    snapshot: ReviewSnapshot,
    comment: StoredReviewComment,
)
    ensures
        total_comments(with_new_comment(store, key, snapshot, comment)) == total_comments(store)
            + 1,
{
    lemma_hunk_from(store, key, snapshot, 0);
    match hunk_at(store, key, snapshot) {
        Some(h) => {
            lemma_total_pushed(store, h, comment);
        },
        None => {
            let now = with_new_comment(store, key, snapshot, comment);
            assert(now.drop_last() =~= store);
        },
    }
}

proof fn lemma_total_pushed(store: Seq<HunkView>, h: int, comment: StoredReviewComment)
    requires
        0 <= h < store.len(),
    ensures
        total_comments(
            store.update(
                h,
                HunkView { key: store[h].key, comments: store[h].comments.push(comment) },
            ),
        ) == total_comments(store) + 1,
    decreases store.len(),
{
    let hunk = HunkView { key: store[h].key, comments: store[h].comments.push(comment) };
    let now = store.update(h, hunk);
    if h < store.len() - 1 {
        lemma_total_pushed(store.drop_last(), h, comment);
        assert(now.drop_last() =~= store.drop_last().update(h, hunk));
    } else {
        assert(now.drop_last() =~= store.drop_last());
    }
}

} // verus!
