//! The comments of a hunk as they are shown: every thread from its root down, and the reply that
//! is being written below the comment it replies to.

use crate::debug_selector::{
    ReplyTargetView, StackReviewComposerMetadata, StackReviewReplyMetadata,
};
use crate::forest::{links_of, links_ok};
use crate::preorder::{
    at_depth, depth_below, entries_of, lemma_listing_depth, listing, preorder, roots_of,
};
use crate::ranking::{is_ranking, lemma_ranking_unique, positions, rank};
use crate::record_order::{nanos_or_first, timestamp_nanos};
use crate::review_comment::{
    comment_key, find_only, is_only_at, key_identity, only_at, opt_place, CommentKeyView,
    ReviewCommentKey, StoredReviewComment,
};
use crate::text::{
    lemma_text_le_antisymmetric, lemma_text_le_reflexive, lemma_text_le_total,
    lemma_text_le_transitive, opt_string_view, opt_view, same_text, text_le, text_not_after,
};
use vstd::prelude::*;
use vstd::string::*;

verus! {

/// No comment is shown deeper than this.
pub const MAX_THREAD_DEPTH: usize = 32;

/// Whether `a` does not come after `b`, where nothing comes before any text.
pub open spec fn opt_text_le(a: Option<Seq<char>>, b: Option<Seq<char>>) -> bool {
    match (a, b) {
        (None, _) => true,
        (Some(_), None) => false,
        (Some(a), Some(b)) => text_le(a, b),
    }
}

/// Whether `a` is not told after `b`: by the time, then by the record, then by the number.
pub open spec fn comment_le(a: StoredReviewComment, b: StoredReviewComment) -> bool {
    let x = nanos_or_first(a.created_at@);
    let y = nanos_or_first(b.created_at@);
    let p = opt_string_view(a.record_id);
    let q = opt_string_view(b.record_id);
    x < y || (x == y && opt_text_le(p, q) && (p == q ==> a.id <= b.id))
}

proof fn lemma_opt_text_order(
    a: Option<Seq<char>>,
    b: Option<Seq<char>>,
    c: Option<Seq<char>>,
)
    ensures
        opt_text_le(a, b) || opt_text_le(b, a),
        opt_text_le(a, b) && opt_text_le(b, a) ==> a == b,
        opt_text_le(a, b) && opt_text_le(b, c) ==> opt_text_le(a, c),
        opt_text_le(a, a),
{
    if a is Some {
        lemma_text_le_reflexive(a->0);
        if b is Some {
            lemma_text_le_total(a->0, b->0);
            if text_le(a->0, b->0) && text_le(b->0, a->0) {
                lemma_text_le_antisymmetric(a->0, b->0);
            }
            if c is Some && text_le(a->0, b->0) && text_le(b->0, c->0) {
                lemma_text_le_transitive(a->0, b->0, c->0);
            }
        }
    }
}

/// Any two comments can be told in order, and that order is transitive.
pub proof fn lemma_comment_order(
    a: StoredReviewComment,
    b: StoredReviewComment,
    c: StoredReviewComment,
)
    ensures
        comment_le(a, b) || comment_le(b, a),
        comment_le(a, b) && comment_le(b, c) ==> comment_le(a, c),
{
    let p = opt_string_view(a.record_id);
    let q = opt_string_view(b.record_id);
    let r = opt_string_view(c.record_id);
    lemma_opt_text_order(p, q, r);
    lemma_opt_text_order(q, r, p);
    lemma_opt_text_order(r, p, q);
}

fn opt_text_not_after(a: &Option<String>, b: &Option<String>) -> (le: bool)
    ensures
        le == opt_text_le(opt_string_view(*a), opt_string_view(*b)),
{
    match (a, b) {
        (None, _) => true,
        (Some(_), None) => false,
        (Some(a), Some(b)) => text_not_after(a.as_str(), b.as_str()),
    }
}

fn same_opt_text(a: &Option<String>, b: &Option<String>) -> (same: bool)
    ensures
        same == (opt_string_view(*a) == opt_string_view(*b)),
{
    match (a, b) {
        (None, None) => true,
        (Some(a), Some(b)) => same_text(a.as_str(), b.as_str()),
        (None, Some(_)) => false,
        (Some(_), None) => false,
    }
}

fn comment_not_after(a: &StoredReviewComment, b: &StoredReviewComment) -> (le: bool)
    ensures
        le == comment_le(*a, *b),
{
    let x: i128 = timestamp_nanos(a.created_at.as_str());
    let y: i128 = timestamp_nanos(b.created_at.as_str());
    x < y || (x == y && opt_text_not_after(&a.record_id, &b.record_id) && (!same_opt_text(
        &a.record_id,
        &b.record_id,
    ) || a.id <= b.id))
}

/// The order in which the comments at two places are told.
pub open spec fn told_order(comments: Seq<StoredReviewComment>) -> spec_fn(int, int) -> bool {
    |a: int, b: int| comment_le(comments[a], comments[b])
}

/// The comments at the places in `order`.
pub open spec fn arranged_comments(
    comments: Seq<StoredReviewComment>,
    order: Seq<int>,
) -> Seq<StoredReviewComment> {
    Seq::new(order.len(), |k: int| comments[order[k]])
}

/// The comments in the order in which they are told; those that are told together keep the order
/// they came in.
pub open spec fn ranked_comments(comments: Seq<StoredReviewComment>) -> Seq<StoredReviewComment> {
    arranged_comments(
        comments,
        choose|order: Seq<int>| is_ranking(order, comments.len(), told_order(comments)),
    )
}

/// The order of the times of the comments at two places.
pub open spec fn time_order(comments: Seq<StoredReviewComment>) -> spec_fn(int, int) -> bool {
    |a: int, b: int|
        nanos_or_first(comments[a].created_at@) <= nanos_or_first(comments[b].created_at@)
}

/// The comments in the order of their times; those of one time keep the order they came in.
pub open spec fn by_time(comments: Seq<StoredReviewComment>) -> Seq<StoredReviewComment> {
    arranged_comments(
        comments,
        choose|order: Seq<int>| is_ranking(order, comments.len(), time_order(comments)),
    )
}

/// Puts comments in the order of their times.
pub(crate) fn sort_by_time(comments: &Vec<StoredReviewComment>) -> (sorted: Vec<
    StoredReviewComment,
>)
    ensures
        sorted@ == by_time(comments@),
        sorted@.len() == comments@.len(),
{
    let ghost le = time_order(comments@);
    let len: usize = comments.len();
    let not_after = |a: usize, b: usize| -> (answer: bool)
        requires
            a < comments@.len(),
            b < comments@.len(),
        ensures
            answer == (nanos_or_first(comments@[a as int].created_at@) <= nanos_or_first(
                comments@[b as int].created_at@,
            )),
        {
            timestamp_nanos(comments[a].created_at.as_str()) <= timestamp_nanos(
                comments[b].created_at.as_str(),
            )
        };
    let order = rank(len, not_after, Ghost(le));
    let mut sorted: Vec<StoredReviewComment> = Vec::new();
    let mut k: usize = 0;
    while k < order.len()
        invariant
            k <= order@.len(),
            len == comments@.len(),
            is_ranking(positions(order@), len as nat, le),
            sorted@.len() == k,
            forall|j: int|
                0 <= j < k ==> #[trigger] sorted@[j] == comments@[positions(order@)[j]],
        decreases order.len() - k,
    {
        assert(positions(order@)[k as int] == order@[k as int] as int);
        sorted.push(comments[order[k]].copied());
        k += 1;
    }
    proof {
        let chosen = choose|order: Seq<int>|
            is_ranking(order, comments@.len(), time_order(comments@));
        assert(is_ranking(positions(order@), comments@.len(), time_order(comments@)));
        lemma_ranking_unique(chosen, positions(order@), comments@.len(), time_order(comments@));
        assert(sorted@ =~= by_time(comments@));
    }
    sorted
}

fn rank_comments(comments: &Vec<StoredReviewComment>) -> (ranked: Vec<StoredReviewComment>)
    ensures
        ranked@ == ranked_comments(comments@),
        ranked@.len() == comments@.len(),
{
    let ghost le = told_order(comments@);
    let len: usize = comments.len();
    let not_after = |a: usize, b: usize| -> (answer: bool)
        requires
            a < comments@.len(),
            b < comments@.len(),
        ensures
            answer == comment_le(comments@[a as int], comments@[b as int]),
        { comment_not_after(&comments[a], &comments[b]) };
    proof {
        assert forall|a: int, b: int|
            #![trigger le(a, b)]
            0 <= a < len && 0 <= b < len implies le(a, b) || le(b, a) by {
            lemma_comment_order(comments@[a], comments@[b], comments@[b]);
        }
        assert forall|a: int, b: int, c: int|
            #![trigger le(a, b), le(b, c)]
            0 <= a < len && 0 <= b < len && 0 <= c < len && le(a, b) && le(b, c) implies le(
            a,
            c,
        ) by {
            lemma_comment_order(comments@[a], comments@[b], comments@[c]);
        }
    }
    let order = rank(len, not_after, Ghost(le));
    let mut ranked: Vec<StoredReviewComment> = Vec::new();
    let mut k: usize = 0;
    while k < order.len()
        invariant
            k <= order@.len(),
            len == comments@.len(),
            is_ranking(positions(order@), len as nat, le),
            ranked@.len() == k,
            forall|j: int|
                0 <= j < k ==> #[trigger] ranked@[j] == comments@[positions(order@)[j]],
        decreases order.len() - k,
    {
        assert(positions(order@)[k as int] == order@[k as int] as int);
        ranked.push(comments[order[k]].copied());
        k += 1;
    }
    proof {
        let chosen = choose|order: Seq<int>|
            is_ranking(order, comments@.len(), told_order(comments@));
        assert(is_ranking(positions(order@), comments@.len(), told_order(comments@)));
        lemma_ranking_unique(chosen, positions(order@), comments@.len(), told_order(comments@));
        assert(ranked@ =~= ranked_comments(comments@));
    }
    ranked
}

/// What the comment at `k` names as the comment it replies to. A number counts only between
/// comments without records.
pub open spec fn reply_reference(comment: StoredReviewComment) -> Option<CommentKeyView> {
    match comment.reply_to_record_id {
        Some(record_id) => Some(CommentKeyView::Stable(record_id@)),
        None => match comment.reply_to {
            Some(id) if comment.record_id is None => Some(CommentKeyView::Legacy(id)),
            _ => None,
        },
    }
}

/// The place of the comment that the one at `k` replies to, unless that is itself.
pub open spec fn reply_parent(comments: Seq<StoredReviewComment>, k: int) -> Option<int> {
    match reply_reference(comments[k]) {
        Some(key) => match only_at(comments, key) {
            Some(parent) if parent != k => Some(parent),
            _ => None,
        },
        None => None,
    }
}

/// For every comment, the place of the one it replies to.
pub open spec fn thread_links(comments: Seq<StoredReviewComment>) -> Seq<Option<int>> {
    Seq::new(comments.len(), |k: int| reply_parent(comments, k))
}

/// A comment as what another replies to.
pub open spec fn target_of(comment: StoredReviewComment) -> ReplyTargetView {
    ReplyTargetView::Known {
        identity: key_identity(comment_key(comment)),
        author: comment.author.name@,
    }
}

/// What is known of the comment that the one at `k` replies to, where it replies to one.
pub open spec fn reply_target(comments: Seq<StoredReviewComment>, k: int) -> Option<
    ReplyTargetView,
> {
    match reply_parent(comments, k) {
        Some(parent) => Some(target_of(comments[parent])),
        None => if comments[k].reply_to_record_id is Some || comments[k].reply_to is Some {
            Some(ReplyTargetView::Unavailable)
        } else {
            None
        },
    }
}

/// The places below `to` that reply to nothing.
pub open spec fn roots_below(links: Seq<Option<int>>, to: int) -> Seq<int>
    decreases to,
{
    if to <= 0 {
        Seq::empty()
    } else if links[to - 1] is None {
        roots_below(links, to - 1).push(to - 1)
    } else {
        roots_below(links, to - 1)
    }
}

/// The places below `to`.
pub open spec fn places_below(to: int) -> Seq<int> {
    Seq::new(to as nat, |k: int| k)
}

/// Where the threads of comments told in order begin: at each comment that replies to nothing,
/// and then, for those that only reply to each other in a ring, at each comment.
pub open spec fn thread_starts(ranked: Seq<StoredReviewComment>) -> Seq<(int, nat)> {
    at_depth(
        roots_below(thread_links(ranked), ranked.len() as int) + places_below(ranked.len() as int),
        0,
    )
}

/// The places of comments told in order, from each root down, with their depths.
pub open spec fn thread_listing(ranked: Seq<StoredReviewComment>) -> Seq<(int, nat)> {
    listing(thread_links(ranked), MAX_THREAD_DEPTH as nat, thread_starts(ranked), Set::empty())
}

/// What is shown in a list of threads.
#[derive(Clone, Debug)]
pub enum StackReviewThreadItem {
    Comment {
        comment: StoredReviewComment,
        depth: usize,
        reply_metadata: Option<StackReviewReplyMetadata>,
    },
    Composer { depth: usize, target_metadata: StackReviewComposerMetadata },
}

/// What is shown in a list of threads, as a value.
pub enum ThreadItemView {
    Comment { comment: StoredReviewComment, depth: nat, reply: Option<ReplyTargetView> },
    Composer { depth: nat, target: ReplyTargetView },
}

/// What a comment replies to, as a value.
pub open spec fn opt_reply_view(metadata: Option<StackReviewReplyMetadata>) -> Option<
    ReplyTargetView,
> {
    match metadata {
        Some(metadata) => Some(metadata@),
        None => None,
    }
}

impl View for StackReviewThreadItem {
    type V = ThreadItemView;

    open spec fn view(&self) -> ThreadItemView {
        match self {
            StackReviewThreadItem::Comment {
                comment,
                depth,
                reply_metadata,
            } => ThreadItemView::Comment {
                comment: *comment,
                depth: *depth as nat,
                reply: opt_reply_view(*reply_metadata),
            },
            StackReviewThreadItem::Composer {
                depth,
                target_metadata,
            } => ThreadItemView::Composer { depth: *depth as nat, target: target_metadata@ },
        }
    }
}

/// The items as values.
pub open spec fn item_views(items: Seq<StackReviewThreadItem>) -> Seq<ThreadItemView> {
    items.map_values(|item: StackReviewThreadItem| item@)
}

/// What one listed comment shows: itself and, where a reply to it is being written, that reply.
pub open spec fn entry_items(
    ranked: Seq<StoredReviewComment>,
    pending: Option<int>,
    entry: (int, nat),
) -> Seq<ThreadItemView> {
    let comment = ThreadItemView::Comment {
        comment: ranked[entry.0],
        depth: entry.1,
        reply: reply_target(ranked, entry.0),
    };
    if pending == Some(entry.0) {
        seq![
            comment,
            ThreadItemView::Composer { depth: entry.1 + 1, target: target_of(ranked[entry.0]) },
        ]
    } else {
        seq![comment]
    }
}

/// What the listed comments show.
pub open spec fn listed_items(
    ranked: Seq<StoredReviewComment>,
    pending: Option<int>,
    entries: Seq<(int, nat)>,
) -> Seq<ThreadItemView>
    decreases entries.len(),
{
    if entries.len() == 0 {
        Seq::empty()
    } else {
        listed_items(ranked, pending, entries.drop_last()) + entry_items(
            ranked,
            pending,
            entries.last(),
        )
    }
}

/// What a reply that is being written names as the comment it replies to.
pub open spec fn pending_reference(
    reply_to: Option<usize>,
    reply_to_record_id: Option<Seq<char>>,
) -> Option<CommentKeyView> {
    match reply_to_record_id {
        Some(record_id) => Some(CommentKeyView::Stable(record_id)),
        None => match reply_to {
            Some(id) => Some(CommentKeyView::Legacy(id)),
            None => None,
        },
    }
}

/// The place of the comment that `reference` names.
pub open spec fn referred(
    comments: Seq<StoredReviewComment>,
    reference: Option<CommentKeyView>,
) -> Option<int> {
    match reference {
        Some(key) => only_at(comments, key),
        None => None,
    }
}

/// The list of threads. A reply to a comment that cannot be told stands at its end.
pub open spec fn thread_items(
    comments: Seq<StoredReviewComment>,
    reference: Option<CommentKeyView>,
) -> Seq<ThreadItemView> {
    let ranked = ranked_comments(comments);
    let pending = referred(ranked, reference);
    let shown = listed_items(ranked, pending, thread_listing(ranked));
    if reference is Some && pending is None {
        shown.push(ThreadItemView::Composer { depth: 0, target: ReplyTargetView::Unavailable })
    } else {
        shown
    }
}

/// Every link leads to another comment.
pub proof fn lemma_thread_links_ok(comments: Seq<StoredReviewComment>)
    ensures
        links_ok(thread_links(comments)),
{
    let links = thread_links(comments);
    assert forall|k: int| 0 <= k < links.len() implies (match #[trigger] links[k] {
        Some(parent) => 0 <= parent < links.len() && parent != k,
        None => true,
    }) by {
        if let Some(key) = reply_reference(comments[k]) {
            if exists|at: int| is_only_at(comments, key, at) {
                let at = choose|at: int| is_only_at(comments, key, at);
                assert(0 <= at < comments.len());
            }
        }
    }
}

fn reply_reference_of(comment: &StoredReviewComment) -> (key: Option<ReviewCommentKey>)
    ensures
        match key {
            Some(key) => reply_reference(*comment) == Some(key@),
            None => reply_reference(*comment) is None,
        },
{
    match &comment.reply_to_record_id {
        Some(record_id) => Some(ReviewCommentKey::Stable(record_id.clone())),
        None => match comment.reply_to {
            Some(id) => if comment.record_id.is_none() {
                Some(ReviewCommentKey::Legacy(id))
            } else {
                None
            },
            None => None,
        },
    }
}

fn thread_parents(ranked: &Vec<StoredReviewComment>) -> (parents: Vec<Option<usize>>)
    ensures
        links_of(parents@) == thread_links(ranked@),
        parents@.len() == ranked@.len(),
{
    let mut parents: Vec<Option<usize>> = Vec::new();
    let mut k: usize = 0;
    while k < ranked.len()
        invariant
            k <= ranked@.len(),
            parents@.len() == k,
            forall|j: int|
                0 <= j < k ==> opt_place(#[trigger] parents@[j]) == reply_parent(ranked@, j),
        decreases ranked.len() - k,
    {
        let parent: Option<usize> = match reply_reference_of(&ranked[k]) {
            Some(key) => match find_only(ranked, &key) {
                Some(parent) => if parent != k {
                    Some(parent)
                } else {
                    None
                },
                None => None,
            },
            None => None,
        };
        assert(opt_place(parent) == reply_parent(ranked@, k as int));
        parents.push(parent);
        k += 1;
    }
    assert(links_of(parents@) =~= thread_links(ranked@));
    parents
}

fn thread_roots(parents: &Vec<Option<usize>>) -> (roots: Vec<usize>)
    ensures
        roots_of(roots@) == at_depth(
            roots_below(links_of(parents@), parents@.len() as int) + places_below(
                parents@.len() as int,
            ),
            0,
        ),
        forall|i: int| 0 <= i < roots@.len() ==> #[trigger] roots@[i] < parents@.len(),
{
    let mut roots: Vec<usize> = Vec::new();
    let ghost links = links_of(parents@);
    let mut k: usize = 0;
    while k < parents.len()
        invariant
            k <= parents@.len(),
            links == links_of(parents@),
            positions(roots@) == roots_below(links, k as int),
            forall|i: int| 0 <= i < roots@.len() ==> #[trigger] roots@[i] < parents@.len(),
        decreases parents.len() - k,
    {
        if parents[k].is_none() {
            assert(positions(roots@.push(k)) =~= positions(roots@).push(k as int));
            roots.push(k);
        }
        k += 1;
    }
    let ghost first = positions(roots@);
    let mut i: usize = 0;
    assert(positions(roots@) =~= first + places_below(0));
    while i < parents.len()
        invariant
            i <= parents@.len(),
            positions(roots@) == first + places_below(i as int),
            forall|j: int| 0 <= j < roots@.len() ==> #[trigger] roots@[j] < parents@.len(),
        decreases parents.len() - i,
    {
        proof {
            assert(positions(roots@.push(i)) =~= positions(roots@).push(i as int));
            assert(first + places_below(i + 1) =~= (first + places_below(i as int)).push(i as int));
        }
        roots.push(i);
        i += 1;
    }
    assert(roots_of(roots@) =~= at_depth(positions(roots@), 0));
    roots
}

fn reply_metadata_of(ranked: &Vec<StoredReviewComment>, parent: Option<usize>, k: usize) -> (metadata:
    Option<StackReviewReplyMetadata>)
    requires
        k < ranked@.len(),
        opt_place(parent) == reply_parent(ranked@, k as int),
        parent matches Some(p) ==> p < ranked@.len(),
    ensures
        opt_reply_view(metadata) == reply_target(ranked@, k as int),
{
    match parent {
        Some(parent) => Some(
            StackReviewReplyMetadata::Parent {
                identity: ranked[parent].debug_identity(),
                author: ranked[parent].author.name.clone(),
            },
        ),
        None => if ranked[k].reply_to_record_id.is_some() || ranked[k].reply_to.is_some() {
            Some(StackReviewReplyMetadata::Unavailable)
        } else {
            None
        },
    }
}

/// The list of threads of `comments`, with the reply that is being written, if one is.
pub fn stack_review_thread_items(
    comments: Vec<StoredReviewComment>,
    pending_reply_to: Option<usize>,
    pending_reply_to_record_id: Option<&str>,
) -> (items: Vec<StackReviewThreadItem>)
    ensures
        item_views(items@) == thread_items(
            comments@,
            pending_reference(pending_reply_to, opt_view(pending_reply_to_record_id)),
        ),
{
    let ranked = rank_comments(&comments);
    let parents = thread_parents(&ranked);
    let roots = thread_roots(&parents);
    proof {
        lemma_thread_links_ok(ranked@);
    }
    let entries = preorder(&parents, &roots, MAX_THREAD_DEPTH);
    let ghost reference = pending_reference(
        pending_reply_to,
        opt_view(pending_reply_to_record_id),
    );
    let pending: Option<usize> = match pending_reply_to_record_id {
        Some(record_id) => find_only(&ranked, &ReviewCommentKey::Stable(record_id.to_owned())),
        None => match pending_reply_to {
            Some(id) => find_only(&ranked, &ReviewCommentKey::Legacy(id)),
            None => None,
        },
    };
    assert(opt_place(pending) == referred(ranked@, reference));
    let ghost listed = entries_of(entries@);
    let mut items: Vec<StackReviewThreadItem> = Vec::new();
    let mut i: usize = 0;
    assert(listed.take(0) =~= Seq::empty());
    assert(item_views(items@) =~= Seq::empty());
    while i < entries.len()
        invariant
            i <= entries@.len(),
            listed == entries_of(entries@),
            links_of(parents@) == thread_links(ranked@),
            links_ok(links_of(parents@)),
            parents@.len() == ranked@.len(),
            forall|j: int| 0 <= j < entries@.len() ==> (#[trigger] entries@[j]).0 < parents@.len(),
            item_views(items@) == listed_items(
                ranked@,
                opt_place(pending),
                listed.take(i as int),
            ),
            listed == thread_listing(ranked@),
        decreases entries.len() - i,
    {
        let (node, depth): (usize, usize) = entries[i];
        let ghost entry = listed[i as int];
        let ghost before = items@;
        assert(links_of(parents@)[node as int] == reply_parent(ranked@, node as int));
        proof {
            lemma_shown_depth(ranked@, i as int);
            assert(listed.take(i + 1).drop_last() =~= listed.take(i as int));
            assert(listed.take(i + 1).last() == entry);
            assert(entry == (node as int, depth as nat));
        }
        let metadata = reply_metadata_of(&ranked, parents[node], node);
        let comment = StackReviewThreadItem::Comment {
            comment: ranked[node].copied(),
            depth,
            reply_metadata: metadata,
        };
        items.push(comment);
        let ghost with_comment = items@;
        assert(item_views(with_comment) =~= item_views(before).push(comment@));
        let is_pending = match pending {
            Some(target) => target == node,
            None => false,
        };
        if is_pending {
            let composer = StackReviewThreadItem::Composer {
                depth: depth + 1,
                target_metadata: StackReviewComposerMetadata::Target {
                    identity: ranked[node].debug_identity(),
                    author: ranked[node].author.name.clone(),
                },
            };
            items.push(composer);
            proof {
                assert(item_views(items@) =~= item_views(with_comment).push(composer@));
                assert(item_views(items@) =~= item_views(before) + entry_items(
                    ranked@,
                    opt_place(pending),
                    entry,
                ));
            }
        } else {
            assert(item_views(items@) =~= item_views(before) + entry_items(
                ranked@,
                opt_place(pending),
                entry,
            ));
        }
        i += 1;
    }
    assert(listed.take(i as int) =~= listed);
    if (pending_reply_to_record_id.is_some() || pending_reply_to.is_some()) && pending.is_none() {
        let ghost before = items@;
        let composer = StackReviewThreadItem::Composer {
            depth: 0,
            target_metadata: StackReviewComposerMetadata::Unavailable,
        };
        items.push(composer);
        assert(item_views(items@) =~= item_views(before).push(composer@));
    }
    items
}

/// No comment is listed deeper than [`MAX_THREAD_DEPTH`].
pub proof fn lemma_shown_depth(ranked: Seq<StoredReviewComment>, i: int)
    requires
        0 <= i < thread_listing(ranked).len(),
    ensures
        thread_listing(ranked)[i].1 <= MAX_THREAD_DEPTH,
    decreases i,
{
    let links = thread_links(ranked);
    let starts = thread_starts(ranked);
    lemma_listing_depth(links, MAX_THREAD_DEPTH as nat, starts, Set::empty(), i);
    let whole = thread_listing(ranked);
    if starts.contains(whole[i]) {
        let s = choose|s: int| 0 <= s < starts.len() && starts[s] == whole[i];
        assert(starts[s].1 == 0);
    } else {
        let j = choose|j: int|
            0 <= j < i && links[whole[i].0] == Some((#[trigger] whole[j]).0) && whole[i].1
                == depth_below(whole[j].1, MAX_THREAD_DEPTH as nat);
        lemma_shown_depth(ranked, j);
    }
}

} // verus!
