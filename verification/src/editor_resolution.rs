//! Resolving and reopening whole threads.

use crate::breadth::{below_by_level, breadth_first, lemma_below_by_level};
use crate::editor::Editor;
use crate::editor_comments::{lemma_total_mapped, map_store, resolves_record, with_resolved};
use crate::editor_effect::{text_views, EditorEffect, EditorEvent, EffectView, EventView};
use crate::forest::{
    ascend, ends_at, has_top, lemma_top_unique, links_of, links_ok, reaches, top_of, Ascent,
};
use crate::ranking::positions;
use crate::review_comment::{
    comment_key, find_only, is_only_at, only_at, opt_place, CommentKeyView, ReviewCommentKey,
    StoredReviewComment,
};
use crate::review_snapshot::{Point, ReviewSnapshot};
use crate::review_store::{all_comments, store_view, HunkComments};
use vstd::prelude::*;
use vstd::string::*;

verus! {

/// The place that a comment names as that of the one it replies to: by its record or else,
/// where it has no record itself, by its number.
pub open spec fn named_parent(
    comments: Seq<StoredReviewComment>,
    comment: StoredReviewComment,
) -> Option<int> {
    let by_record = match comment.reply_to_record_id {
        Some(record_id) => only_at(comments, CommentKeyView::Stable(record_id@)),
        None => None,
    };
    match by_record {
        Some(parent) => Some(parent),
        None => match comment.reply_to {
            Some(id) if comment.record_id is None => only_at(comments, CommentKeyView::Legacy(id)),
            _ => None,
        },
    }
}

/// For every comment, the place of the one it replies to, unless that is itself.
pub open spec fn resolution_links(comments: Seq<StoredReviewComment>) -> Seq<Option<int>> {
    Seq::new(
        comments.len(),
        |k: int|
            match named_parent(comments, comments[k]) {
                Some(parent) if parent != k => Some(parent),
                _ => None,
            },
    )
}

/// The places of the comments in the thread of the one comment of number `id` that has no
/// record, the root first. There are none where replies go round in a ring.
pub open spec fn thread_places(comments: Seq<StoredReviewComment>, id: usize) -> Option<Seq<int>> {
    match only_at(comments, CommentKeyView::Legacy(id)) {
        Some(selected) => {
            let links = resolution_links(comments);
            if has_top(links, selected) {
                Some(below_by_level(links, top_of(links, selected)))
            } else {
                None
            }
        },
        None => None,
    }
}

/// The keys of the comments at some places.
pub open spec fn keys_at(comments: Seq<StoredReviewComment>, places: Seq<int>) -> Seq<
    CommentKeyView,
> {
    places.map_values(|k: int| comment_key(comments[k]))
}

/// The records among some keys.
pub open spec fn records_in(keys: Seq<CommentKeyView>) -> Seq<Seq<char>>
    decreases keys.len(),
{
    if keys.len() == 0 {
        Seq::empty()
    } else {
        match keys.last() {
            CommentKeyView::Stable(record_id) => records_in(keys.drop_last()).push(record_id),
            CommentKeyView::Legacy(_) => records_in(keys.drop_last()),
        }
    }
}

/// The numbers among some keys.
pub open spec fn numbers_in(keys: Seq<CommentKeyView>) -> Seq<usize>
    decreases keys.len(),
{
    if keys.len() == 0 {
        Seq::empty()
    } else {
        match keys.last() {
            CommentKeyView::Stable(_) => numbers_in(keys.drop_last()),
            CommentKeyView::Legacy(id) => numbers_in(keys.drop_last()).push(id),
        }
    }
}

/// A comment, resolved or not if its key is among `keys`.
pub open spec fn resolved_among(
    comment: StoredReviewComment,
    keys: Seq<CommentKeyView>,
    resolved: bool,
) -> StoredReviewComment {
    if keys.contains(comment_key(comment)) {
        with_resolved(comment, resolved)
    } else {
        comment
    }
}

/// What is told of a thread that was resolved or reopened.
pub open spec fn resolution_effects(keys: Seq<CommentKeyView>, resolved: bool) -> Seq<EffectView> {
    let records = records_in(keys);
    let numbers = numbers_in(keys);
    let first = if records.len() > 0 {
        seq![
            EffectView::Emit(
                EventView::StackReviewCommentResolutionChanged { record_ids: records, resolved },
            ),
        ]
    } else {
        Seq::empty()
    };
    let second = if numbers.len() > 0 {
        seq![EffectView::Emit(EventView::ReviewCommentResolutionChanged { ids: numbers, resolved })]
    } else {
        Seq::empty()
    };
    first + second
}

/// What resolving, or reopening, the thread of a comment does.
pub open spec fn resolves_thread(before: Editor, after: Editor, id: usize, resolved: bool) -> bool {
    let comments = all_comments(before.hunks());
    match thread_places(comments, id) {
        Some(places) => {
            let keys = keys_at(comments, places);
            &&& after == (Editor {
                stored_review_comments: after.stored_review_comments,
                effects: after.effects,
                ..before
            })
            &&& after.hunks() == map_store(
                before.hunks(),
                |comment: StoredReviewComment| resolved_among(comment, keys, resolved),
            )
            &&& after.asked() == before.asked() + resolution_effects(keys, resolved)
        },
        None => after == before,
    }
}

/// Every link leads to a comment.
pub proof fn lemma_resolution_links_ok(comments: Seq<StoredReviewComment>)
    ensures
        links_ok(resolution_links(comments)),
{
    let links = resolution_links(comments);
    assert forall|k: int| 0 <= k < links.len() implies (match #[trigger] links[k] {
        Some(parent) => 0 <= parent < links.len(),
        None => true,
    }) by {
        let comment = comments[k];
        if let Some(record_id) = comment.reply_to_record_id {
            let key = CommentKeyView::Stable(record_id@);
            if exists|at: int| is_only_at(comments, key, at) {
                let at = choose|at: int| is_only_at(comments, key, at);
                assert(0 <= at < comments.len());
            }
        }
        if let Some(id) = comment.reply_to {
            let key = CommentKeyView::Legacy(id);
            if exists|at: int| is_only_at(comments, key, at) {
                let at = choose|at: int| is_only_at(comments, key, at);
                assert(0 <= at < comments.len());
            }
        }
    }
}

fn flatten(store: &Vec<HunkComments>) -> (comments: Vec<StoredReviewComment>)
    ensures
        comments@ == all_comments(store_view(store@)),
{
    let ghost view = store_view(store@);
    let mut comments: Vec<StoredReviewComment> = Vec::new();
    let mut h: usize = 0;
    assert(view.take(0) =~= Seq::empty());
    while h < store.len()
        invariant
            h <= store@.len(),
            view == store_view(store@),
            comments@ == all_comments(view.take(h as int)),
        decreases store.len() - h,
    {
        let hunk = &store[h].comments;
        let ghost before = comments@;
        let mut i: usize = 0;
        assert(before + hunk@.take(0) =~= before);
        while i < hunk.len()
            invariant
                i <= hunk@.len(),
                comments@ == before + hunk@.take(i as int),
            decreases hunk.len() - i,
        {
            comments.push(hunk[i].copied());
            proof {
                assert(hunk@.take(i + 1) =~= hunk@.take(i as int).push(hunk@[i as int]));
                assert(before + hunk@.take(i + 1) =~= (before + hunk@.take(i as int)).push(
                    hunk@[i as int],
                ));
            }
            i += 1;
        }
        proof {
            assert(hunk@.take(i as int) =~= hunk@);
            assert(view.take(h + 1).drop_last() =~= view.take(h as int));
            assert(view.take(h + 1).last().comments == hunk@);
        }
        h += 1;
    }
    assert(view.take(h as int) =~= view);
    comments
}

fn resolution_parents(comments: &Vec<StoredReviewComment>) -> (parents: Vec<Option<usize>>)
    ensures
        links_of(parents@) == resolution_links(comments@),
        parents@.len() == comments@.len(),
{
    let ghost links = resolution_links(comments@);
    let mut parents: Vec<Option<usize>> = Vec::new();
    let mut k: usize = 0;
    while k < comments.len()
        invariant
            k <= comments@.len(),
            links == resolution_links(comments@),
            parents@.len() == k,
            forall|j: int| 0 <= j < k ==> opt_place(#[trigger] parents@[j]) == links[j],
        decreases comments.len() - k,
    {
        let comment = &comments[k];
        let by_record: Option<usize> = match &comment.reply_to_record_id {
            Some(record_id) => find_only(comments, &ReviewCommentKey::Stable(record_id.clone())),
            None => None,
        };
        let named: Option<usize> = match by_record {
            Some(parent) => Some(parent),
            None => match comment.reply_to {
                Some(id) => if comment.record_id.is_none() {
                    find_only(comments, &ReviewCommentKey::Legacy(id))
                } else {
                    None
                },
                None => None,
            },
        };
        assert(opt_place(named) == named_parent(comments@, comments@[k as int]));
        let parent: Option<usize> = match named {
            Some(parent) => if parent != k {
                Some(parent)
            } else {
                None
            },
            None => None,
        };
        parents.push(parent);
        k += 1;
    }
    assert(links_of(parents@) =~= links);
    parents
}

/// The keys as values.
spec fn key_views(keys: Seq<ReviewCommentKey>) -> Seq<CommentKeyView> {
    keys.map_values(|key: ReviewCommentKey| key@)
}

fn is_among(keys: &Vec<ReviewCommentKey>, comment: &StoredReviewComment) -> (among: bool)
    ensures
        among == key_views(keys@).contains(comment_key(*comment)),
{
    let ghost views = key_views(keys@);
    let mut k: usize = 0;
    while k < keys.len()
        invariant
            k <= keys@.len(),
            views == key_views(keys@),
            forall|j: int| 0 <= j < k ==> #[trigger] views[j] != comment_key(*comment),
        decreases keys.len() - k,
    {
        assert(views[k as int] == keys@[k as int]@);
        if keys[k].matches(comment) {
            proof {
                crate::review_comment::key_finds_its_comment(*comment, views[k as int]);
            }
            return true;
        }
        proof {
            crate::review_comment::key_finds_its_comment(*comment, views[k as int]);
        }
        k += 1;
    }
    false
}

fn resolve_among(store: &mut Vec<HunkComments>, keys: &Vec<ReviewCommentKey>, resolved: bool)
    ensures
        store_view(final(store)@) == map_store(
            store_view(old(store)@),
            |comment: StoredReviewComment| resolved_among(comment, key_views(keys@), resolved),
        ),
{
    let ghost before = store_view(store@);
    let ghost change = |comment: StoredReviewComment|
        resolved_among(comment, key_views(keys@), resolved);
    let ghost then = map_store(before, change);
    let mut h: usize = 0;
    while h < store.len()
        invariant
            h <= store@.len(),
            store@.len() == before.len(),
            change == (|comment: StoredReviewComment|
                resolved_among(comment, key_views(keys@), resolved)),
            then == map_store(before, change),
            forall|g: int| 0 <= g < h ==> #[trigger] store@[g]@ == then[g],
            forall|g: int| h <= g < store@.len() ==> #[trigger] store@[g]@ == before[g],
        decreases before.len() - h,
    {
        let mut i: usize = 0;
        let ghost hunk = before[h as int];
        assert(store@[h as int]@ == hunk);
        while i < store[h].comments.len()
            invariant
                h < store@.len(),
                store@.len() == before.len(),
                change == (|comment: StoredReviewComment|
                    resolved_among(comment, key_views(keys@), resolved)),
                then == map_store(before, change),
                forall|g: int| 0 <= g < h ==> #[trigger] store@[g]@ == then[g],
                forall|g: int| h < g < store@.len() ==> #[trigger] store@[g]@ == before[g],
                hunk == before[h as int],
                store@[h as int].key == hunk.key,
                i <= store@[h as int].comments@.len(),
                store@[h as int].comments@.len() == hunk.comments.len(),
                forall|j: int|
                    0 <= j < i ==> #[trigger] store@[h as int].comments@[j] == change(
                        hunk.comments[j],
                    ),
                forall|j: int|
                    i <= j < hunk.comments.len() ==> #[trigger] store@[h as int].comments@[j]
                        == hunk.comments[j],
            decreases hunk.comments.len() - i,
        {
            let ghost now = store@;
            if is_among(keys, &store[h].comments[i]) {
                store[h].comments[i].resolved = resolved;
                assert(forall|g: int|
                    0 <= g < store@.len() && g != h ==> #[trigger] store@[g] == now[g]);
            }
            i += 1;
        }
        proof {
            assert(store@[h as int]@.comments =~= then[h as int].comments);
        }
        h += 1;
    }
    assert(store_view(store@) =~= then);
}

/// Where the comment stands that toggling at `row` takes: the first on that row that is not
/// resolved or else the first on that row.
pub open spec fn is_active_comment(
    comments: Seq<StoredReviewComment>,
    snapshot: ReviewSnapshot,
    row: u32,
    at: int,
) -> bool {
    &&& 0 <= at < comments.len()
    &&& on_row(comments[at], snapshot, row)
    &&& forall|k: int|
        0 <= k < at && on_row(#[trigger] comments[k], snapshot, row) ==> comments[k].resolved
            && !comments[at].resolved
    &&& comments[at].resolved ==> forall|k: int|
        0 <= k < comments.len() && on_row(#[trigger] comments[k], snapshot, row)
            ==> comments[k].resolved
}

/// Whether a comment is on the lines around `row`.
pub open spec fn on_row(comment: StoredReviewComment, snapshot: ReviewSnapshot, row: u32) -> bool {
    snapshot.point_at(comment.range.start).row <= row <= snapshot.point_at(comment.range.end).row
}

fn is_on_row(comment: &StoredReviewComment, snapshot: &ReviewSnapshot, row: u32) -> (on: bool)
    ensures
        on == on_row(*comment, *snapshot, row),
{
    let start: u32 = snapshot.point_of(comment.range.start).row;
    let end: u32 = snapshot.point_of(comment.range.end).row;
    start <= row && row <= end
}

fn find_active_comment(
    comments: &Vec<StoredReviewComment>,
    snapshot: &ReviewSnapshot,
    row: u32,
) -> (at: Option<usize>)
    ensures
        match at {
            Some(at) => is_active_comment(comments@, *snapshot, row, at as int),
            None => forall|k: int|
                0 <= k < comments@.len() ==> !on_row(#[trigger] comments@[k], *snapshot, row),
        },
{
    let mut first: Option<usize> = None;
    let mut k: usize = 0;
    while k < comments.len()
        invariant
            k <= comments@.len(),
            match first {
                Some(at) => at < k && on_row(comments@[at as int], *snapshot, row)
                    && forall|j: int|
                    0 <= j < at ==> !on_row(#[trigger] comments@[j], *snapshot, row),
                None => forall|j: int|
                    0 <= j < k ==> !on_row(#[trigger] comments@[j], *snapshot, row),
            },
            forall|j: int|
                0 <= j < k && on_row(#[trigger] comments@[j], *snapshot, row)
                    ==> comments@[j].resolved,
        decreases comments.len() - k,
    {
        if is_on_row(&comments[k], snapshot, row) {
            if !comments[k].resolved {
                return Some(k);
            }
            if first.is_none() {
                first = Some(k);
            }
        }
        k += 1;
    }
    first
}

impl Editor {
    /// Resolves, or reopens, the whole thread of the one comment of number `id` that has no
    /// record.
    pub fn set_review_comment_resolved(&mut self, id: usize, resolved: bool) -> (changed: bool)
        requires
            old(self).wf(),
        ensures
            final(self).wf(),
            changed == (thread_places(all_comments(old(self).hunks()), id) is Some),
            resolves_thread(*old(self), *final(self), id, resolved),
    {
        let comments = flatten(&self.stored_review_comments);
        let selected: usize = match find_only(&comments, &ReviewCommentKey::Legacy(id)) {
            Some(selected) => selected,
            None => {
                return false;
            },
        };
        let parents = resolution_parents(&comments);
        proof {
            lemma_resolution_links_ok(comments@);
        }
        let root: usize = match ascend(&parents, selected) {
            Ascent::Top(top) => top,
            Ascent::Cycle(_) => {
                return false;
            },
        };
        assert(links_of(parents@)[root as int] is None);
        let members = breadth_first(&parents, root);
        let ghost places = positions(members@);
        let ghost keys_then = keys_at(comments@, places);
        let mut keys: Vec<ReviewCommentKey> = Vec::new();
        let mut record_ids: Vec<String> = Vec::new();
        let mut legacy_ids: Vec<usize> = Vec::new();
        let mut i: usize = 0;
        proof {
            assert(key_views(keys@) =~= keys_then.take(0));
            assert(text_views(record_ids@) =~= records_in(keys_then.take(0)));
            assert(legacy_ids@ =~= numbers_in(keys_then.take(0)));
        }
        while i < members.len()
            invariant
                i <= members@.len(),
                places == positions(members@),
                keys_then == keys_at(comments@, places),
                forall|j: int| 0 <= j < members@.len() ==> #[trigger] members@[j] < comments@.len(),
                key_views(keys@) == keys_then.take(i as int),
                text_views(record_ids@) == records_in(keys_then.take(i as int)),
                legacy_ids@ == numbers_in(keys_then.take(i as int)),
            decreases members.len() - i,
        {
            let comment = &comments[members[i]];
            let key = comment.routing_key();
            proof {
                assert(places[i as int] == members@[i as int] as int);
                assert(keys_then[i as int] == comment_key(*comment));
                assert(keys_then.take(i + 1) =~= keys_then.take(i as int).push(key@));
                assert(keys_then.take(i + 1).drop_last() =~= keys_then.take(i as int));
                assert(key_views(keys@.push(key)) =~= key_views(keys@).push(key@));
            }
            match &comment.record_id {
                Some(record_id) => {
                    let ghost before = record_ids@;
                    record_ids.push(record_id.clone());
                    assert(text_views(record_ids@) =~= text_views(before).push(record_id@));
                },
                None => {
                    legacy_ids.push(comment.id);
                },
            }
            keys.push(key);
            i += 1;
        }
        proof {
            assert(keys_then.take(i as int) =~= keys_then);
            lemma_total_mapped(
                self.hunks(),
                |comment: StoredReviewComment| resolved_among(comment, keys_then, resolved),
            );
        }
        resolve_among(&mut self.stored_review_comments, &keys, resolved);
        let ghost first = self.asked();
        if record_ids.len() > 0 {
            self.emit(EditorEvent::StackReviewCommentResolutionChanged { record_ids, resolved });
        }
        if legacy_ids.len() > 0 {
            self.emit(EditorEvent::ReviewCommentResolutionChanged { ids: legacy_ids, resolved });
        }
        assert(self.asked() =~= first + resolution_effects(keys_then, resolved));
        true
    }

    /// Resolves, or reopens, the comment at the cursor; in the review of anything but a stack,
    /// lets the action go on.
    pub fn toggle_active_review_comment_resolved(&mut self, cursor: Point, snapshot: &ReviewSnapshot)
        requires
            old(self).wf(),
        ensures
            final(self).wf(),
            ({
                let comments = all_comments(old(self).hunks());
                if !old(self).is_stack_review {
                    &&& *final(self) == (Editor { effects: final(self).effects, ..*old(self) })
                    &&& final(self).asked() == old(self).asked().push(EffectView::Propagate)
                } else if exists|k: int|
                    0 <= k < comments.len() && on_row(#[trigger] comments[k], *snapshot, cursor.row) {
                    exists|at: int| #[trigger]
                        is_active_comment(comments, *snapshot, cursor.row, at) && match comment_key(
                            comments[at],
                        ) {
                            CommentKeyView::Stable(record_id) => resolves_record(
                                *old(self),
                                *final(self),
                                record_id,
                                !comments[at].resolved,
                            ),
                            CommentKeyView::Legacy(id) => resolves_thread(
                                *old(self),
                                *final(self),
                                id,
                                !comments[at].resolved,
                            ),
                        }
                } else {
                    *final(self) == *old(self)
                }
            }),
    {
        if !self.is_stack_review {
            self.ask(EditorEffect::Propagate);
            return ;
        }
        let comments = flatten(&self.stored_review_comments);
        match find_active_comment(&comments, snapshot, cursor.row) {
            Some(at) => {
                assert(on_row(comments@[at as int], *snapshot, cursor.row));
                let resolved = !comments[at].resolved;
                match &comments[at].record_id {
                    Some(record_id) => {
                        let _ = self.set_stack_review_comment_resolved(
                            record_id.as_str(),
                            resolved,
                        );
                    },
                    None => {
                        let _ = self.set_review_comment_resolved(comments[at].id, resolved);
                    },
                }
            },
            None => {},
        }
    }
}

/// Resolving a thread takes in every comment that leads to the same root, and no other: it is
/// the same whichever comment without a record of the thread is named.
pub proof fn thread_is_one_for_its_members(comments: Seq<StoredReviewComment>, a: usize, b: usize)
    requires
        only_at(comments, CommentKeyView::Legacy(a)) is Some,
        only_at(comments, CommentKeyView::Legacy(b)) is Some,
        thread_places(comments, a) is Some,
        thread_places(comments, a)->0.contains(only_at(comments, CommentKeyView::Legacy(b))->0),
    ensures
        thread_places(comments, b) == thread_places(comments, a),
{
    let links = resolution_links(comments);
    lemma_resolution_links_ok(comments);
    let x = only_at(comments, CommentKeyView::Legacy(a))->0;
    let y = only_at(comments, CommentKeyView::Legacy(b))->0;
    lemma_only_in_range(comments, CommentKeyView::Legacy(a));
    lemma_only_in_range(comments, CommentKeyView::Legacy(b));
    let top = top_of(links, x);
    assert(ends_at(links, x, top));
    let n = choose|n: nat| #[trigger] crate::forest::climb(links, x, n) == Some(top);
    crate::forest::lemma_climb_in_range(links, x, n);
    lemma_below_by_level(links, top);
    assert(reaches(links, y, top));
    assert(ends_at(links, y, top));
    lemma_top_unique(links, y, top);
    lemma_top_unique(links, x, top);
}

/// A thread that is resolved holds the comment that was named and all that reply to one of its
/// comments.
pub proof fn thread_holds_its_replies(comments: Seq<StoredReviewComment>, id: usize, k: int)
    requires
        thread_places(comments, id) is Some,
        0 <= k < comments.len(),
    ensures
        ({
            let places = thread_places(comments, id)->0;
            &&& places.no_duplicates()
            &&& places.contains(only_at(comments, CommentKeyView::Legacy(id))->0)
            &&& resolution_links(comments)[k] matches Some(parent) ==> (places.contains(k)
                <==> places.contains(parent))
        }),
{
    let links = resolution_links(comments);
    lemma_resolution_links_ok(comments);
    let x = only_at(comments, CommentKeyView::Legacy(id))->0;
    lemma_only_in_range(comments, CommentKeyView::Legacy(id));
    let top = top_of(links, x);
    assert(ends_at(links, x, top));
    let n = choose|n: nat| #[trigger] crate::forest::climb(links, x, n) == Some(top);
    crate::forest::lemma_climb_in_range(links, x, n);
    lemma_below_by_level(links, top);
    let places = thread_places(comments, id)->0;
    assert(places.contains(x));
    if let Some(parent) = links[k] {
        crate::forest::lemma_reaches_step(links, k, parent, top);
        assert(places.contains(k) == reaches(links, k, top));
        assert(places.contains(parent) == reaches(links, parent, top));
        if k == top {
            assert(links[top] is None);
        }
    }
}

proof fn lemma_only_in_range(comments: Seq<StoredReviewComment>, key: CommentKeyView)
    requires
        only_at(comments, key) is Some,
    ensures
        0 <= only_at(comments, key)->0 < comments.len(),
{
    let at = choose|at: int| is_only_at(comments, key, at);
    assert(is_only_at(comments, key, at));
}

} // verus!
