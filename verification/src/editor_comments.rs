//! Adding, finding, changing and removing the comments of an editor.

use crate::comment::{StackReviewCommentAuthor, StackReviewCommentSource};
use crate::editor::{show_time, shown_time, Editor};
use crate::editor_effect::{checkpoint_event, EditorEffect, EditorEvent, EffectView, EventView};
use crate::review_comment::{
    AnchorRange, CommentKeyView, DiffHunkKey, ReviewCommentKey, StoredReviewComment,
};
use crate::review_snapshot::ReviewSnapshot;
use crate::debug_selector::{key_of, routing_key_for};
use crate::review_store::{
    all_comments, count_comments, find_hunk, find_only_stored, hunk_comments,
    lemma_total_with_comment, lemma_total_with_new_comment, lemma_total_without_comment,
    only_stored, replace_comment, store_comment, store_view, stored_at, take_comment,
    total_comments, with_comment, with_new_comment, without_comment, CommentQuery, HunkComments,
    HunkView, QueryView,
};
use crate::text::opt_view;
use crate::thread_items::{by_time, sort_by_time};
use vstd::prelude::*;
use vstd::string::*;

verus! {

/// What only the moment can tell of a new comment: the id of its record, its time, and that time
/// as the reader's clock and zone show it.
#[derive(Clone, Debug)]
pub struct CommentStamp {
    pub record_id: String,
    pub created_at: String,
    pub localized: Option<String>,
}

/// A new comment. It has a record, and replies to one, only in the review of a stack.
pub open spec fn new_comment(
    is_stack_review: bool,
    id: usize,
    comment: String,
    anchor_range: AnchorRange,
    author: StackReviewCommentAuthor,
    source: StackReviewCommentSource,
    reply_to: Option<usize>,
    reply_to_record_id: Option<String>,
    stamp: CommentStamp,
) -> StoredReviewComment {
    StoredReviewComment {
        id,
        record_id: if is_stack_review {
            Some(stamp.record_id)
        } else {
            None
        },
        comment,
        range: anchor_range,
        is_editing: false,
        author,
        source,
        reply_to,
        reply_to_record_id: if is_stack_review {
            reply_to_record_id
        } else {
            None
        },
        created_at: stamp.created_at,
        created_at_display: shown_time(stamp.created_at@, stamp.localized),
        resolved: false,
        stashed: false,
    }
}

/// Whether place `i` of hunk `h` is the first with a comment of number `id`.
pub open spec fn is_first_numbered(store: Seq<HunkView>, id: usize, h: int, i: int) -> bool {
    &&& stored_at(store, h, i)
    &&& store[h].comments[i].id == id
    &&& forall|g: int, j: int|
        #![trigger store[g].comments[j]]
        stored_at(store, g, j) && (g < h || (g == h && j < i)) ==> store[g].comments[j].id != id
}

/// Whether some comment has the number `id`.
pub open spec fn has_number(store: Seq<HunkView>, id: usize) -> bool {
    exists|h: int, i: int|
        #![trigger store[h].comments[i]]
        stored_at(store, h, i) && store[h].comments[i].id == id
}

/// The store with every comment changed in the same way.
pub open spec fn map_store(
    store: Seq<HunkView>,
    change: spec_fn(StoredReviewComment) -> StoredReviewComment,
) -> Seq<HunkView> {
    store.map_values(
        |hunk: HunkView| HunkView { key: hunk.key, comments: hunk.comments.map_values(change) },
    )
}

/// A comment that no longer replies to the comment of number `id`.
pub open spec fn without_reply(comment: StoredReviewComment, id: usize) -> StoredReviewComment {
    if comment.reply_to == Some(id) {
        StoredReviewComment { reply_to: None, ..comment }
    } else {
        comment
    }
}

/// A comment, resolved or not.
pub open spec fn with_resolved(comment: StoredReviewComment, resolved: bool) -> StoredReviewComment {
    StoredReviewComment { resolved, ..comment }
}

/// A comment, in editing or not.
pub open spec fn with_editing(comment: StoredReviewComment, is_editing: bool) -> StoredReviewComment {
    StoredReviewComment { is_editing, ..comment }
}

/// What resolving, or reopening, the one comment of a record does.
pub open spec fn resolves_record(
    before: Editor,
    after: Editor,
    record_id: Seq<char>,
    resolved: bool,
) -> bool {
    match only_stored(before.hunks(), QueryView::Key(CommentKeyView::Stable(record_id))) {
        Some((h, i)) => {
            &&& stored_at(before.hunks(), h, i)
            &&& after == (Editor {
                stored_review_comments: after.stored_review_comments,
                effects: after.effects,
                ..before
            })
            &&& after.hunks() == with_comment(
                before.hunks(),
                h,
                i,
                with_resolved(before.hunks()[h].comments[i], resolved),
            )
            &&& after.asked() == before.asked().push(
                EffectView::Emit(
                    EventView::StackReviewCommentResolutionChanged {
                        record_ids: seq![record_id],
                        resolved,
                    },
                ),
            )
        },
        None => after == before,
    }
}

/// What removing the first comment of number `id` does.
pub open spec fn removes_number(before: Editor, after: Editor, id: usize) -> bool {
    if has_number(before.hunks(), id) {
        &&& after == (Editor {
            stored_review_comments: after.stored_review_comments,
            effects: after.effects,
            ..before
        })
        &&& exists|h: int, i: int| #[trigger]
            is_first_numbered(before.hunks(), id, h, i) && after.hunks() == map_store(
                without_comment(before.hunks(), h, i),
                |comment: StoredReviewComment| without_reply(comment, id),
            )
        &&& after.asked() == before.asked().push(
            EffectView::Emit(
                EventView::ReviewCommentsChanged {
                    total_count: (total_comments(before.hunks()) - 1) as nat,
                },
            ),
        )
    } else {
        after == before
    }
}

/// Changing comments leaves as many as there were.
pub proof fn lemma_total_mapped(
    store: Seq<HunkView>,
    change: spec_fn(StoredReviewComment) -> StoredReviewComment,
)
    ensures
        total_comments(map_store(store, change)) == total_comments(store),
        all_comments(map_store(store, change)) == all_comments(store).map_values(change),
    decreases store.len(),
{
    let now = map_store(store, change);
    if store.len() > 0 {
        lemma_total_mapped(store.drop_last(), change);
        assert(now.drop_last() =~= map_store(store.drop_last(), change));
        assert(now.last() == (HunkView {
            key: store.last().key,
            comments: store.last().comments.map_values(change),
        }));
    }
    assert(all_comments(now) =~= all_comments(store).map_values(change));
}

pub(crate) fn find_first_numbered(store: &Vec<HunkComments>, id: usize) -> (spot: Option<(usize, usize)>)
    ensures
        match spot {
            Some((h, i)) => is_first_numbered(store_view(store@), id, h as int, i as int),
            None => !has_number(store_view(store@), id),
        },
{
    let ghost view = store_view(store@);
    let mut h: usize = 0;
    while h < store.len()
        invariant
            h <= store@.len(),
            view == store_view(store@),
            forall|g: int, j: int|
                #![trigger view[g].comments[j]]
                stored_at(view, g, j) && g < h ==> view[g].comments[j].id != id,
        decreases store.len() - h,
    {
        assert(view[h as int].comments == store@[h as int].comments@);
        let mut i: usize = 0;
        while i < store[h].comments.len()
            invariant
                h < store@.len(),
                i <= store@[h as int].comments@.len(),
                view == store_view(store@),
                view[h as int].comments == store@[h as int].comments@,
                forall|g: int, j: int|
                    #![trigger view[g].comments[j]]
                    stored_at(view, g, j) && (g < h || (g == h && j < i))
                        ==> view[g].comments[j].id != id,
            decreases store@[h as int].comments@.len() - i,
        {
            if store[h].comments[i].id == id {
                assert(view[h as int].comments[i as int].id == id);
                return Some((h, i));
            }
            i += 1;
        }
        h += 1;
    }
    None
}

fn clear_replies(store: &mut Vec<HunkComments>, id: usize)
    ensures
        store_view(final(store)@) == map_store(
            store_view(old(store)@),
            |comment: StoredReviewComment| without_reply(comment, id),
        ),
{
    let ghost before = store_view(store@);
    let ghost change = |comment: StoredReviewComment| without_reply(comment, id);
    let ghost then = map_store(before, change);
    let mut h: usize = 0;
    while h < store.len()
        invariant
            h <= store@.len(),
            store@.len() == before.len(),
            before == store_view(old(store)@),
            change == (|comment: StoredReviewComment| without_reply(comment, id)),
            then == map_store(before, change),
            forall|g: int| 0 <= g < h ==> #[trigger] store@[g]@ == then[g],
            forall|g: int| h <= g < store@.len() ==> #[trigger] store@[g]@ == before[g],
        decreases before.len() - h,
    {
        let mut i: usize = 0;
        let ghost hunk = before[h as int];
        assert(store@[h as int]@ == hunk);
        while i < store[h].comments.len()
            invariant
                h < store@.len(),
                store@.len() == before.len(),
                before == store_view(old(store)@),
                change == (|comment: StoredReviewComment| without_reply(comment, id)),
                then == map_store(before, change),
                forall|g: int| 0 <= g < h ==> #[trigger] store@[g]@ == then[g],
                forall|g: int| h < g < store@.len() ==> #[trigger] store@[g]@ == before[g],
                hunk == before[h as int],
                store@[h as int].key == hunk.key,
                i <= store@[h as int].comments@.len(),
                store@[h as int].comments@.len() == hunk.comments.len(),
                forall|j: int|
                    0 <= j < i ==> #[trigger] store@[h as int].comments@[j] == change(
                        hunk.comments[j],
                    ),
                forall|j: int|
                    i <= j < hunk.comments.len() ==> #[trigger] store@[h as int].comments@[j]
                        == hunk.comments[j],
            decreases hunk.comments.len() - i,
        {
            let replies = match store[h].comments[i].reply_to {
                Some(parent) => parent == id,
                None => false,
            };
            let ghost now = store@;
            if replies {
                store[h].comments[i].reply_to = None;
                assert(forall|g: int|
                    0 <= g < store@.len() && g != h ==> #[trigger] store@[g] == now[g]);
            }
            i += 1;
        }
        proof {
            assert(store@[h as int]@.comments =~= then[h as int].comments);
        }
        h += 1;
    }
    assert(store_view(store@) =~= then);
}

impl Editor {
    /// How many comments there are.
    pub fn total_review_comment_count(&self) -> (total: usize)
        requires
            self.wf(),
        ensures
            total == total_comments(self.hunks()),
    {
        count_comments(&self.stored_review_comments)
    }

    /// How many comments the hunk has that `key` stands for.
    pub fn hunk_comment_count(&self, key: &DiffHunkKey, snapshot: &ReviewSnapshot) -> (count: usize)
        ensures
            count == hunk_comments(self.hunks(), *key, *snapshot).len(),
    {
        match find_hunk(&self.stored_review_comments, key, snapshot) {
            Some(h) => self.stored_review_comments[h].comments.len(),
            None => 0,
        }
    }

    /// The comments of the hunk that `key` stands for, in the order of their times.
    pub fn comments_for_hunk(&self, key: &DiffHunkKey, snapshot: &ReviewSnapshot) -> (comments: Vec<
        StoredReviewComment,
    >)
        ensures
            comments@ == by_time(hunk_comments(self.hunks(), *key, *snapshot)),
            comments@.len() == hunk_comments(self.hunks(), *key, *snapshot).len(),
    {
        match find_hunk(&self.stored_review_comments, key, snapshot) {
            Some(h) => {
                assert(self.hunks()[h as int].comments == self.stored_review_comments@[h as int].comments@);
                sort_by_time(&self.stored_review_comments[h].comments)
            },
            None => {
                let none: Vec<StoredReviewComment> = Vec::new();
                assert(none@ =~= hunk_comments(self.hunks(), *key, *snapshot));
                sort_by_time(&none)
            },
        }
    }

    /// Adds a comment with nothing said of its author and its source.
    pub fn add_review_comment(
        &mut self,
        hunk_key: DiffHunkKey,
        comment: String,
        anchor_range: AnchorRange,
        stamp: CommentStamp,
        snapshot: &ReviewSnapshot,
    ) -> (id: usize)
        requires
            old(self).wf(),
            total_comments(old(self).hunks()) < usize::MAX,
            old(self).next_review_comment_id < usize::MAX,
        ensures
            final(self).wf(),
            id == old(self).next_review_comment_id,
            *final(self) == (Editor {
                stored_review_comments: final(self).stored_review_comments,
                next_review_comment_id: final(self).next_review_comment_id,
                effects: final(self).effects,
                ..*old(self)
            }),
            final(self).next_review_comment_id == id + 1,
            exists|author: StackReviewCommentAuthor|
                author.name@ == "You"@ && author.login is None && final(self).hunks()
                    == #[trigger] with_new_comment(
                    old(self).hunks(),
                    hunk_key,
                    *snapshot,
                    new_comment(
                        old(self).is_stack_review,
                        id,
                        comment,
                        anchor_range,
                        author,
                        StackReviewCommentSource::LocalHuman,
                        None,
                        None,
                        stamp,
                    ),
                ),
            final(self).asked() == old(self).asked().push(
                EffectView::Emit(
                    EventView::ReviewCommentsChanged {
                        total_count: total_comments(old(self).hunks()) + 1,
                    },
                ),
            ),
    {
        let author = StackReviewCommentAuthor::default();
        self.add_review_comment_with_metadata(
            hunk_key,
            comment,
            anchor_range,
            author,
            StackReviewCommentSource::LocalHuman,
            None,
            None,
            stamp,
            snapshot,
        )
    }

    /// Adds a comment.
    pub fn add_review_comment_with_metadata(
        &mut self,
        hunk_key: DiffHunkKey,
        comment: String,
        anchor_range: AnchorRange,
        author: StackReviewCommentAuthor,
        source: StackReviewCommentSource,
        reply_to: Option<usize>,
        reply_to_record_id: Option<String>,
        stamp: CommentStamp,
        snapshot: &ReviewSnapshot,
    ) -> (id: usize)
        requires
            old(self).wf(),
            total_comments(old(self).hunks()) < usize::MAX,
            old(self).next_review_comment_id < usize::MAX,
        ensures
            final(self).wf(),
            id == old(self).next_review_comment_id,
            *final(self) == (Editor {
                stored_review_comments: final(self).stored_review_comments,
                next_review_comment_id: final(self).next_review_comment_id,
                effects: final(self).effects,
                ..*old(self)
            }),
            final(self).next_review_comment_id == id + 1,
            final(self).hunks() == with_new_comment(
                old(self).hunks(),
                hunk_key,
                *snapshot,
                new_comment(
                    old(self).is_stack_review,
                    id,
                    comment,
                    anchor_range,
                    author,
                    source,
                    reply_to,
                    reply_to_record_id,
                    stamp,
                ),
            ),
            final(self).asked() == old(self).asked().push(
                EffectView::Emit(
                    EventView::ReviewCommentsChanged {
                        total_count: total_comments(old(self).hunks()) + 1,
                    },
                ),
            ),
    {
        let id: usize = self.next_review_comment_id;
        self.next_review_comment_id = id + 1;
        let created_at_display = show_time(stamp.created_at.as_str(), &stamp.localized);
        let CommentStamp { record_id, created_at, localized: _ } = stamp;
        let stored = StoredReviewComment::with_metadata(
            id,
            if self.is_stack_review {
                Some(record_id)
            } else {
                None
            },
            comment,
            anchor_range,
            author,
            source,
            reply_to,
            if self.is_stack_review {
                reply_to_record_id
            } else {
                None
            },
            created_at,
            created_at_display,
        );
        proof {
            lemma_total_with_new_comment(self.hunks(), hunk_key, *snapshot, stored);
        }
        store_comment(&mut self.stored_review_comments, hunk_key, snapshot, stored);
        let total_count: usize = self.total_review_comment_count();
        self.emit(EditorEvent::ReviewCommentsChanged { total_count });
        id
    }

    /// Removes the first comment of number `id`. No comment replies to it any longer.
    pub fn remove_review_comment(&mut self, id: usize) -> (removed: bool)
        requires
            old(self).wf(),
        ensures
            final(self).wf(),
            removed == has_number(old(self).hunks(), id),
            removes_number(*old(self), *final(self), id),
    {
        let ghost before = self.hunks();
        match find_first_numbered(&self.stored_review_comments, id) {
            Some((h, i)) => {
                assert(before[h as int].comments[i as int].id == id);
                proof {
                    lemma_total_without_comment(before, h as int, i as int);
                    lemma_total_mapped(
                        without_comment(before, h as int, i as int),
                        |comment: StoredReviewComment| without_reply(comment, id),
                    );
                }
                let _ = take_comment(&mut self.stored_review_comments, h, i);
                clear_replies(&mut self.stored_review_comments, id);
                let total_count: usize = self.total_review_comment_count();
                self.emit(EditorEvent::ReviewCommentsChanged { total_count });
                true
            },
            None => false,
        }
    }

    /// Gives the first comment of number `id` another text.
    pub fn update_review_comment(&mut self, id: usize, new_comment: String) -> (updated: bool)
        requires
            old(self).wf(),
        ensures
            final(self).wf(),
            updated == has_number(old(self).hunks(), id),
            !updated ==> *final(self) == *old(self),
            updated ==> {
                &&& *final(self) == (Editor {
                    stored_review_comments: final(self).stored_review_comments,
                    effects: final(self).effects,
                    ..*old(self)
                })
                &&& exists|h: int, i: int| #[trigger]
                    is_first_numbered(old(self).hunks(), id, h, i) && final(self).hunks()
                        == with_comment(
                        old(self).hunks(),
                        h,
                        i,
                        (StoredReviewComment {
                            comment: new_comment,
                            is_editing: false,
                            ..old(self).hunks()[h].comments[i]
                        }),
                    )
                &&& final(self).asked() == old(self).asked().push(
                    EffectView::Emit(
                        EventView::ReviewCommentsChanged {
                            total_count: total_comments(old(self).hunks()),
                        },
                    ),
                )
            },
    {
        let ghost before = self.hunks();
        match find_first_numbered(&self.stored_review_comments, id) {
            Some((h, i)) => {
                assert(before[h as int].comments[i as int].id == id);
                assert(before[h as int].comments == self.stored_review_comments@[h as int].comments@);
                let mut comment = self.stored_review_comments[h].comments[i].copied();
                comment.comment = new_comment;
                comment.is_editing = false;
                proof {
                    lemma_total_with_comment(before, h as int, i as int, comment);
                }
                replace_comment(&mut self.stored_review_comments, h, i, comment);
                let total_count: usize = self.total_review_comment_count();
                self.emit(EditorEvent::ReviewCommentsChanged { total_count });
                true
            },
            None => false,
        }
    }

    /// Resolves, or reopens, the one comment of this record.
    pub fn set_stack_review_comment_resolved(&mut self, record_id: &str, resolved: bool) -> (changed:
        bool)
        requires
            old(self).wf(),
        ensures
            final(self).wf(),
            changed == (only_stored(
                old(self).hunks(),
                QueryView::Key(CommentKeyView::Stable(record_id@)),
            ) is Some),
            resolves_record(*old(self), *final(self), record_id@, resolved),
    {
        let ghost before = self.hunks();
        let query = CommentQuery::Key(ReviewCommentKey::Stable(record_id.to_owned()));
        match find_only_stored(&self.stored_review_comments, &query) {
            Some((h, i)) => {
                assert(before[h as int].comments == self.stored_review_comments@[h as int].comments@);
                let mut comment = self.stored_review_comments[h].comments[i].copied();
                comment.resolved = resolved;
                proof {
                    lemma_total_with_comment(before, h as int, i as int, comment);
                }
                replace_comment(&mut self.stored_review_comments, h, i, comment);
                let mut record_ids: Vec<String> = Vec::new();
                record_ids.push(record_id.to_owned());
                assert(crate::editor_effect::text_views(record_ids@) =~= seq![record_id@]);
                self.emit(
                    EditorEvent::StackReviewCommentResolutionChanged { record_ids, resolved },
                );
                true
            },
            None => false,
        }
    }

    /// Puts the one comment of number `id` that has no record into editing, or takes it out.
    pub fn set_comment_editing(&mut self, id: usize, is_editing: bool)
        requires
            old(self).wf(),
        ensures
            final(self).wf(),
            match only_stored(old(self).hunks(), QueryView::Key(CommentKeyView::Legacy(id))) {
                Some((h, i)) => {
                    &&& stored_at(old(self).hunks(), h, i)
                    &&& *final(self) == (Editor {
                        stored_review_comments: final(self).stored_review_comments,
                        ..*old(self)
                    })
                    &&& final(self).hunks() == with_comment(
                        old(self).hunks(),
                        h,
                        i,
                        with_editing(old(self).hunks()[h].comments[i], is_editing),
                    )
                },
                None => *final(self) == *old(self),
            },
    {
        let _ = self.set_comment_editing_by_key(&ReviewCommentKey::Legacy(id), is_editing);
    }

    /// Puts the one comment that `key` finds into editing, or takes it out.
    pub fn set_comment_editing_by_key(&mut self, key: &ReviewCommentKey, is_editing: bool) -> (found:
        bool)
        requires
            old(self).wf(),
        ensures
            final(self).wf(),
            match only_stored(old(self).hunks(), QueryView::Key(key@)) {
                Some((h, i)) => {
                    &&& found
                    &&& stored_at(old(self).hunks(), h, i)
                    &&& *final(self) == (Editor {
                        stored_review_comments: final(self).stored_review_comments,
                        ..*old(self)
                    })
                    &&& final(self).hunks() == with_comment(
                        old(self).hunks(),
                        h,
                        i,
                        with_editing(old(self).hunks()[h].comments[i], is_editing),
                    )
                },
                None => !found && *final(self) == *old(self),
            },
    {
        let ghost before = self.hunks();
        let query = CommentQuery::Key(key.copied());
        match find_only_stored(&self.stored_review_comments, &query) {
            Some((h, i)) => {
                assert(before[h as int].comments == self.stored_review_comments@[h as int].comments@);
                let mut comment = self.stored_review_comments[h].comments[i].copied();
                comment.is_editing = is_editing;
                proof {
                    lemma_total_with_comment(before, h as int, i as int, comment);
                }
                replace_comment(&mut self.stored_review_comments, h, i, comment);
                true
            },
            None => false,
        }
    }

    /// Whether exactly one comment has this record.
    pub fn has_exact_stack_review_comment(&self, record_id: &str) -> (has: bool)
        ensures
            has == (only_stored(
                self.hunks(),
                QueryView::Key(CommentKeyView::Stable(record_id@)),
            ) is Some),
    {
        let query = CommentQuery::Key(ReviewCommentKey::Stable(record_id.to_owned()));
        find_only_stored(&self.stored_review_comments, &query).is_some()
    }

    /// Tells that the one comment of this record was selected.
    pub fn request_stack_review_comment_selection(&mut self, record_id: &str)
        ensures
            match only_stored(
                old(self).hunks(),
                QueryView::Key(CommentKeyView::Stable(record_id@)),
            ) {
                Some(_) => {
                    &&& *final(self) == (Editor { effects: final(self).effects, ..*old(self) })
                    &&& final(self).asked() == old(self).asked().push(
                        EffectView::Emit(
                            EventView::ReviewCommentSelected { record_id: record_id@ },
                        ),
                    )
                },
                None => *final(self) == *old(self),
            },
    {
        if self.has_exact_stack_review_comment(record_id) {
            self.emit(EditorEvent::ReviewCommentSelected { record_id: record_id.to_owned() });
        }
    }

    /// Asks for the thread of the one comment of this record to be put away or taken back.
    pub fn request_stack_review_comment_stash(&mut self, record_id: &str, restore: bool)
        ensures
            match only_stored(
                old(self).hunks(),
                QueryView::Key(CommentKeyView::Stable(record_id@)),
            ) {
                Some(_) => {
                    &&& *final(self) == (Editor { effects: final(self).effects, ..*old(self) })
                    &&& final(self).asked() == old(self).asked().push(
                        EffectView::Emit(
                            if restore {
                                EventView::ReviewCommentRestoreRequested { record_id: record_id@ }
                            } else {
                                EventView::ReviewCommentStashRequested { record_id: record_id@ }
                            },
                        ),
                    )
                },
                None => *final(self) == *old(self),
            },
    {
        if self.has_exact_stack_review_comment(record_id) {
            if restore {
                self.emit(
                    EditorEvent::ReviewCommentRestoreRequested { record_id: record_id.to_owned() },
                );
            } else {
                self.emit(
                    EditorEvent::ReviewCommentStashRequested { record_id: record_id.to_owned() },
                );
            }
        }
    }

    /// Asks for the checkpoint before a comment, which has to come from GitHub.
    pub fn request_stack_review_comment_checkpoint(&mut self, record_id: Option<&str>, id: usize)
        ensures
            match only_stored(old(self).hunks(), QueryView::Key(key_of(opt_view(record_id), id))) {
                Some((h, i)) => {
                    let comment = old(self).hunks()[h].comments[i];
                    &&& stored_at(old(self).hunks(), h, i)
                    &&& if comment.source == StackReviewCommentSource::Github {
                        &&& *final(self) == (Editor { effects: final(self).effects, ..*old(self) })
                        &&& final(self).asked() == old(self).asked().push(
                            EffectView::Emit(checkpoint_event(comment)),
                        )
                    } else {
                        *final(self) == *old(self)
                    }
                },
                None => *final(self) == *old(self),
            },
    {
        let ghost before = self.hunks();
        let query = CommentQuery::Key(routing_key_for(record_id, id));
        match find_only_stored(&self.stored_review_comments, &query) {
            Some((h, i)) => {
                assert(before[h as int].comments == self.stored_review_comments@[h as int].comments@);
                if self.stored_review_comments[h].comments[i].source
                    == StackReviewCommentSource::Github {
                    let event =
                        self.stored_review_comments[h].comments[i].checkpoint_requested_event();
                    self.emit(event);
                }
            },
            None => {},
        }
    }

    /// Makes sure that new comments are numbered from `next_id` on.
    pub fn ensure_next_stack_review_comment_id(&mut self, next_id: usize)
        ensures
            *final(self) == (Editor {
                next_review_comment_id: if next_id > old(self).next_review_comment_id {
                    next_id
                } else {
                    old(self).next_review_comment_id
                },
                ..*old(self)
            }),
    {
        if next_id > self.next_review_comment_id {
            self.next_review_comment_id = next_id;
        }
    }

    /// Goes to the one comment of this record.
    pub fn reveal_stack_review_comment(&mut self, record_id: &str, snapshot: &ReviewSnapshot) -> (
        revealed: bool)
        ensures
            match only_stored(
                old(self).hunks(),
                QueryView::Key(CommentKeyView::Stable(record_id@)),
            ) {
                Some((h, i)) => {
                    &&& revealed
                    &&& stored_at(old(self).hunks(), h, i)
                    &&& *final(self) == (Editor { effects: final(self).effects, ..*old(self) })
                    &&& final(self).asked() == old(self).asked() + seq![
                        EffectView::Select {
                            point: snapshot.point_at(old(self).hunks()[h].comments[i].range.start),
                        },
                        EffectView::FocusEditor,
                        EffectView::Emit(
                            EventView::ReviewCommentSelected { record_id: record_id@ },
                        ),
                    ]
                },
                None => !revealed && *final(self) == *old(self),
            },
    {
        let ghost before = self.hunks();
        let query = CommentQuery::Key(ReviewCommentKey::Stable(record_id.to_owned()));
        match find_only_stored(&self.stored_review_comments, &query) {
            Some((h, i)) => {
                assert(before[h as int].comments == self.stored_review_comments@[h as int].comments@);
                let point = snapshot.point_of(
                    self.stored_review_comments[h].comments[i].range.start,
                );
                self.ask(EditorEffect::Select { point });
                self.ask(EditorEffect::FocusEditor);
                self.emit(EditorEvent::ReviewCommentSelected { record_id: record_id.to_owned() });
                proof {
                    assert(self.asked() =~= old(self).asked() + seq![
                        EffectView::Select { point },
                        EffectView::FocusEditor,
                        EffectView::Emit(
                            EventView::ReviewCommentSelected { record_id: record_id@ },
                        ),
                    ]);
                }
                true
            },
            None => false,
        }
    }
}

} // verus!
