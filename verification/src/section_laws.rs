//! Laws on what overlays show, and on lists that are made of others.

use crate::agent_projection::{distinct, distinct_keeps_all, responses_at, texts_under};
use crate::ai_context::{
    append_problem, envelope_count, envelope_of, envelopes_in, first_unreadable, holds_envelope,
    is_context_block, is_renewed_at, ContentBlock, StackReviewAiContext, StackReviewTurnEnvelope,
    TurnRenewal,
};
use crate::ai_host::{activation_problem, composer_problem, AiHostErrorView};
use crate::ai_observer::{action_fails, AiStatusView, ProjectionAction};
use crate::comment::StackReviewCommentSource;
use crate::diff_hunks::{
    hunks_in, hunks_within, DiffHunkStatus, MultiBufferDiffHunk, RangeHunks, ResolvedView,
};
use crate::editor::{DelegateKind, Editor};
use crate::hunk_delegate::{DelegateRequest, HunkActionView, HunkHost};
use crate::hunk_display::{whole_merges, HunkSetting};
use crate::presentation::{bindings_among, roots_among};
use crate::review_comment::{Anchor, DiffHunkKey, StoredReviewComment};
use crate::review_rows::{author_label, comments_heading, is_content_of, is_row_for, OverlayContent};
use crate::review_snapshot::{hunk_at_row, DiffRows, ReviewSnapshot};
use crate::review_store::hunk_comments;
use crate::thread_index::{key_for, thread_with, ThreadView};
use crate::thread_item_laws::{
    comments_come_in_order_of_time, every_comment_is_shown_once, shown_comments,
};
use crate::thread_items::{by_time, thread_items, ThreadItemView};
use crate::thread_key::ThreadKeyView;
use vstd::prelude::*;
use vstd::string::*;

verus! {

proof fn lemma_shown_item(items: Seq<ThreadItemView>, comment: StoredReviewComment) -> (i: int)
    requires
        shown_comments(items).contains(comment),
    ensures
        0 <= i < items.len(),
        items[i] is Comment,
        items[i]->Comment_comment == comment,
    decreases items.len(),
{
    let rest = items.drop_last();
    let before = shown_comments(rest);
    let now = shown_comments(items);
    let k = choose|k: int| 0 <= k < now.len() && now[k] == comment;
    if k < before.len() {
        assert(before[k] == comment);
        let i = lemma_shown_item(rest, comment);
        assert(rest[i] == items[i]);
        i
    } else {
        items.len() - 1
    }
}

/// An overlay shows the comments of its hunk, each in a row of its own, unless they are folded away;
/// in the review of a stack they are not. Without comments it shows none.
pub proof fn overlays_show_all_their_comments(
    content: OverlayContent,
    editor: Editor,
    key: DiffHunkKey,
    snapshot: ReviewSnapshot,
    line_ranges: Seq<(u32, u32)>,
    is_mirrored_companion: bool,
    k: int,
)
    requires
        is_content_of(content, editor, key, snapshot, line_ranges, is_mirrored_companion),
    ensures
        content.comments is Some <==> hunk_comments(editor.hunks(), key, snapshot).len() > 0,
        content.comments matches Some(section) ==> {
            &&& editor.is_stack_review ==> section.expanded && !section.can_toggle
            &&& !section.expanded ==> section.rows@.len() == 0
            &&& section.expanded && 0 <= k < hunk_comments(editor.hunks(), key, snapshot).len()
                ==> exists|i: int|
                #![trigger section.rows@[i]]
                0 <= i < section.rows@.len() && section.rows@[i] is Comment && (
                section.rows@[i]->Comment_0.content@ is Text
                    ==> section.rows@[i]->Comment_0.content@->Text_text == hunk_comments(
                    editor.hunks(),
                    key,
                    snapshot,
                )[k].comment@) && section.rows@[i]->Comment_0.is_faded == hunk_comments(
                    editor.hunks(),
                    key,
                    snapshot,
                )[k].stashed
        },
        is_mirrored_companion ==> !content.shows_prompt,
{
    broadcast use vstd::seq_lib::group_to_multiset_ensures;

    let stand = crate::review_rows::overlay_stand(editor, key, snapshot, is_mirrored_companion);
    let all = hunk_comments(editor.hunks(), key, snapshot);
    let comments = by_time(all);
    comments_come_in_order_of_time(all);
    assert(comments.len() == all.len()) by {
        assert(comments.to_multiset().len() == all.to_multiset().len());
    }
    if let Some(section) = content.comments {
        if section.expanded && 0 <= k < all.len() {
            let reference = crate::review_rows::stand_reference(stand);
            let items = thread_items(comments, reference);
            every_comment_is_shown_once(comments, reference);
            assert(all.contains(all[k]));
            assert(all.to_multiset().contains(all[k]));
            assert(shown_comments(items).to_multiset().contains(all[k]));
            assert(shown_comments(items).contains(all[k]));
            let i = lemma_shown_item(items, all[k]);
            let rows = section.rows@;
            assert(rows.len() == items.len());
            assert(rows[i] is Comment) by {
                let setting = crate::review_rows::RowSetting {
                    is_stack_review: editor.is_stack_review,
                    edited: stand.edited,
                    agent_texts: editor.agent.texts@,
                    loading: editor.agent.loading_record_ids@,
                    has_user_avatar: stand.has_user_avatar,
                };
                assert(is_row_for(rows[i], items[i], i as nat, setting));
            }
        }
    }
}

/// The heading above comments tells their number, and who wrote a comment is told first, followed by
/// where it comes from and when it was written, where these are told.
pub proof fn labels_begin_with_what_they_tell(comment: StoredReviewComment, count: nat)
    ensures
        crate::decimal::decimal_text(count).is_prefix_of(comments_heading(count)),
        comment.author.name@.is_prefix_of(author_label(comment)),
        comment.source == StackReviewCommentSource::LocalHuman && comment.created_at_display is None
            ==> author_label(comment) == comment.author.name@,
        comment.created_at_display matches Some(time) ==> time@.is_suffix_of(author_label(comment))
            || time@.len() == 0,
{
    let heading = comments_heading(count);
    let number = crate::decimal::decimal_text(count);
    assert(heading.subrange(0, number.len() as int) =~= number);
    let label = author_label(comment);
    let name = comment.author.name@;
    assert(label.subrange(0, name.len() as int) =~= name);
    if let Some(time) = comment.created_at_display {
        if time@.len() > 0 {
            assert(label.subrange(label.len() - time@.len(), label.len() as int) =~= time@);
        }
    }
}

/// The texts that are watched are those of all records.
pub proof fn texts_of_all_records_are_watched(entries: Seq<(String, Vec<u64>)>, id: u64)
    ensures
        distinct(texts_under(entries)).contains(id) <==> exists|e: int|
            0 <= e < entries.len() && (#[trigger] entries[e]).1@.contains(id),
        distinct(texts_under(entries)).no_duplicates(),
    decreases entries.len(),
{
    distinct_keeps_all(texts_under(entries), id);
    if entries.len() > 0 {
        let rest = entries.drop_last();
        texts_of_all_records_are_watched(rest, id);
        distinct_keeps_all(texts_under(rest), id);
        let before = texts_under(rest);
        let more = entries.last().1@;
        let now = texts_under(entries);
        if now.contains(id) {
            let k = choose|k: int| 0 <= k < now.len() && now[k] == id;
            if k < before.len() {
                assert(before[k] == id);
                let e = choose|e: int|
                    0 <= e < rest.len() && (#[trigger] rest[e]).1@.contains(id);
                assert(entries[e] == rest[e]);
            } else {
                assert(more[k - before.len()] == id);
                assert(entries[entries.len() - 1].1@.contains(id));
            }
        }
        if exists|e: int| 0 <= e < entries.len() && (#[trigger] entries[e]).1@.contains(id) {
            let e = choose|e: int|
                0 <= e < entries.len() && (#[trigger] entries[e]).1@.contains(id);
            if e < rest.len() {
                assert(rest[e].1@.contains(id));
                let k = choose|k: int| 0 <= k < before.len() && before[k] == id;
                assert(now[k] == id);
            } else {
                let k = choose|k: int| 0 <= k < more.len() && more[k] == id;
                assert(now[before.len() + k] == id);
            }
        }
    }
}

/// The answers at a comment are those under its record, and there are none at a comment without one.
pub proof fn answers_are_at_their_record(
    comment: StoredReviewComment,
    texts: Map<Seq<char>, Vec<u64>>,
)
    ensures
        comment.record_id is None ==> responses_at(comment, texts).len() == 0,
        comment.record_id matches Some(record_id) ==> (if texts.dom().contains(record_id@) {
            responses_at(comment, texts) == texts[record_id@]@
        } else {
            responses_at(comment, texts).len() == 0
        }),
{
}

/// The envelopes of a message are counted one by one, and the first part that stands where an
/// envelope does but is none is the one at which the message is refused.
pub proof fn unreadable_envelopes_are_found(
    contents: Seq<ContentBlock>,
    envelope_uri: Seq<char>,
    from: int,
)
    requires
        0 <= from <= contents.len(),
    ensures
        envelope_count(contents, envelope_uri) == contents.filter(
            |block: ContentBlock| holds_envelope(block, envelope_uri),
        ).len(),
        ({
            let at = first_unreadable(contents, envelope_uri, from);
            &&& from <= at <= contents.len()
            &&& at < contents.len() ==> holds_envelope(contents[at], envelope_uri) && envelope_of(
                contents[at],
                envelope_uri,
            ) is None
            &&& forall|k: int|
                from <= k < at ==> !holds_envelope(#[trigger] contents[k], envelope_uri)
                    || envelope_of(contents[k], envelope_uri) is Some
        }),
    decreases contents.len(), contents.len() - from,
{
    reveal(Seq::filter);
    if contents.len() > 0 {
        unreadable_envelopes_are_found(contents.drop_last(), envelope_uri, 0);
    }
    if from < contents.len() && !(holds_envelope(contents[from], envelope_uri) && envelope_of(
        contents[from],
        envelope_uri,
    ) is None) {
        unreadable_envelopes_are_found(contents, envelope_uri, from + 1);
    }
}

/// Where an envelope stands: in a text that reads as one, and in a resource at the place of envelopes.
/// The resources of a review belong to its context besides.
pub proof fn envelopes_stand_in_their_places(block: ContentBlock, envelope_uri: Seq<char>)
    ensures
        holds_envelope(block, envelope_uri) ==> is_context_block(block, envelope_uri),
        envelope_of(block, envelope_uri) is Some ==> holds_envelope(block, envelope_uri),
        block is Other ==> !is_context_block(block, envelope_uri),
        block is Text ==> (is_context_block(block, envelope_uri)
            <==> block->Text_envelope is Some),
        block is TextResource ==> (is_context_block(block, envelope_uri)
            <==> block->TextResource_uri@ == envelope_uri || "zed:///agent/stack-review?"@.is_prefix_of(
            block->TextResource_uri@,
        )),
{
}

/// The first envelope of a message gets the first renewal.
pub proof fn the_first_envelope_gets_the_first_renewal(
    before: Seq<ContentBlock>,
    after: Seq<ContentBlock>,
    envelope_uri: Seq<char>,
    renewals: Seq<TurnRenewal>,
    i: int,
)
    requires
        0 <= i < before.len(),
        is_renewed_at(before, after, envelope_uri, renewals, i),
        forall|k: int|
            0 <= k < i ==> envelope_of(#[trigger] before[k], envelope_uri) is None,
        envelope_of(before[i], envelope_uri) is Some,
    ensures
        envelope_of(after[i], envelope_uri) is Some,
        envelope_of(after[i], envelope_uri)->0.turn_id@ == renewals[0].turn_id@,
{
    lemma_none_before(before, envelope_uri, i);
}

proof fn lemma_none_before(blocks: Seq<ContentBlock>, envelope_uri: Seq<char>, to: int)
    requires
        0 <= to <= blocks.len(),
        forall|k: int|
            0 <= k < to ==> envelope_of(#[trigger] blocks[k], envelope_uri) is None,
    ensures
        envelopes_in(blocks.take(to), envelope_uri).len() == 0,
    decreases to,
{
    if to > 0 {
        lemma_none_before(blocks, envelope_uri, to - 1);
        assert(blocks.take(to).drop_last() =~= blocks.take(to - 1));
        assert(blocks.take(to).last() == blocks[to - 1]);
    }
}

/// A thread about a context is opened, and a prompt prepared with it, only where the context can be
/// sent with its envelope; a prompt needs a workspace and its panel besides.
pub proof fn contexts_that_cannot_be_sent_are_not_opened(
    context: StackReviewAiContext,
    envelope: StackReviewTurnEnvelope,
    has_workspace: bool,
    has_panel: bool,
)
    ensures
        activation_problem(context, Some(envelope)) == append_problem(context, envelope),
        composer_problem(context, envelope, has_workspace, has_panel) is None <==> append_problem(
            context,
            envelope,
        ) is None && has_workspace && has_panel,
        append_problem(context, envelope) is None && !has_workspace ==> composer_problem(
            context,
            envelope,
            has_workspace,
            has_panel,
        ) == Some(AiHostErrorView::NoWorkspace),
{
}

/// A thread that cannot be shown fails for the reason that is given, without a session and without
/// answers.
pub proof fn failed_threads_show_no_answers(
    action: ProjectionAction,
    generation: u64,
    error: Seq<char>,
)
    requires
        action_fails(action, generation, error),
    ensures
        action is Update,
        action->Update_0.generation == generation,
        action->Update_0.session_id is None,
        action->Update_0.assistant_turns@.len() == 0,
        action->Update_0.status@ == AiStatusView::Failed(error),
{
}

/// The hunks of some ranges are those of each range, range after range.
pub proof fn hunks_come_range_by_range(ranges: Seq<RangeHunks>, hunk: MultiBufferDiffHunk)
    ensures
        hunks_in(ranges).contains(hunk) <==> exists|r: int|
            0 <= r < ranges.len() && hunks_within(
                (#[trigger] ranges[r]).hunks@,
                ranges[r].excerpt_end,
            ).contains(hunk),
    decreases ranges.len(),
{
    if ranges.len() > 0 {
        let rest = ranges.drop_last();
        hunks_come_range_by_range(rest, hunk);
        let before = hunks_in(rest);
        let more = hunks_within(ranges.last().hunks@, ranges.last().excerpt_end);
        let now = hunks_in(ranges);
        if now.contains(hunk) {
            let k = choose|k: int| 0 <= k < now.len() && now[k] == hunk;
            if k < before.len() {
                assert(before[k] == hunk);
                let r = choose|r: int|
                    0 <= r < rest.len() && hunks_within(
                        (#[trigger] rest[r]).hunks@,
                        rest[r].excerpt_end,
                    ).contains(hunk);
                assert(ranges[r] == rest[r]);
            } else {
                assert(more[k - before.len()] == hunk);
                assert(ranges[ranges.len() - 1] == ranges.last());
            }
        }
        if exists|r: int|
            0 <= r < ranges.len() && hunks_within(
                (#[trigger] ranges[r]).hunks@,
                ranges[r].excerpt_end,
            ).contains(hunk) {
            let r = choose|r: int|
                0 <= r < ranges.len() && hunks_within(
                    (#[trigger] ranges[r]).hunks@,
                    ranges[r].excerpt_end,
                ).contains(hunk);
            if r < rest.len() {
                assert(rest[r] == ranges[r]);
                let k = choose|k: int| 0 <= k < before.len() && before[k] == hunk;
                assert(now[k] == hunk);
            } else {
                let k = choose|k: int| 0 <= k < more.len() && more[k] == hunk;
                assert(now[before.len() + k] == hunk);
            }
        }
    }
}

/// A way to act on hunks that is not of this library is handed all of them, as they are, with what it
/// is asked for.
pub proof fn other_delegates_get_the_hunks(
    delegate: u64,
    groups: Seq<ResolvedView>,
    host: HunkHost,
    stage: bool,
)
    ensures
        DelegateKind::Custom(delegate).toggles(groups, host) == seq![
            HunkActionView::AskDelegate { delegate, request: DelegateRequest::Toggle, groups },
        ],
        DelegateKind::Custom(delegate).stages(stage, groups, host) == seq![
            HunkActionView::AskDelegate {
                delegate,
                request: DelegateRequest::StageOrUnstage { stage },
                groups,
            },
        ],
        DelegateKind::Custom(delegate).restores(groups, host) == seq![
            HunkActionView::AskDelegate { delegate, request: DelegateRequest::Restore, groups },
        ],
        DelegateKind::RestoreOnly.toggles(groups, host).len() == 0,
        DelegateKind::RestoreOnly.stages(stage, groups, host).len() == 0,
        DelegateKind::RestoreOnly.restores(groups, host).len() == 0,
        DelegateKind::RestoreOnlyUnstaged.toggles(groups, host).len() == 0,
        DelegateKind::RestoreOnlyUnstaged.stages(stage, groups, host).len() == 0,
{
}

/// A hunk is shown as staged where nothing of it is not, but never where nothing is staged at all;
/// buttons are shown only where hunks can be staged.
pub proof fn staged_hunks_are_shown_as_such(status: DiffHunkStatus, setting: HunkSetting)
    ensures
        DelegateKind::Uncommitted.shows_as_staged(status) == Some(!status.has_secondary_hunk),
        DelegateKind::RestoreOnly.shows_as_staged(status) == Some(!status.has_secondary_hunk),
        DelegateKind::RestoreOnlyUnstaged.shows_as_staged(status) == Some(false),
        DelegateKind::RestoreOnly.controls(setting) == Some(
            Seq::<crate::hunk_display::HunkControl>::empty(),
        ),
        DelegateKind::RestoreOnlyUnstaged.controls(setting) == Some(
            Seq::<crate::hunk_display::HunkControl>::empty(),
        ),
        DelegateKind::Uncommitted.controls(setting) == Some(
            crate::hunk_display::hunk_controls(setting),
        ),
{
}

/// Where all of some buffers is taken over, each is, and nothing is left out of it.
pub proof fn whole_buffers_are_taken_over(buffers: Seq<u64>, i: int)
    requires
        0 <= i < buffers.len(),
    ensures
        whole_merges(buffers).len() == buffers.len(),
        whole_merges(buffers)[i].buffer == buffers[i],
        whole_merges(buffers)[i].ranges.len() == 0,
{
}

/// The roots that a file gives are those in it, and the session under a key is the last that it gives
/// for it.
pub proof fn the_last_binding_counts(
    roots: Seq<String>,
    bindings: Seq<(String, String)>,
    text: Seq<char>,
    k: int,
)
    ensures
        roots_among(roots).contains(text) <==> exists|i: int|
            0 <= i < roots.len() && (#[trigger] roots[i])@ == text,
        0 <= k < bindings.len() && (forall|j: int|
            k < j < bindings.len() ==> (#[trigger] bindings[j]).0@ != bindings[k].0@)
            ==> bindings_among(bindings).contains_key(bindings[k].0@) && bindings_among(
            bindings,
        )[bindings[k].0@] == bindings[k].1@,
        bindings_among(bindings).contains_key(text) <==> exists|i: int|
            0 <= i < bindings.len() && (#[trigger] bindings[i]).0@ == text,
    decreases roots.len() + bindings.len(),
{
    if roots.len() > 0 {
        let rest = roots.drop_last();
        the_last_binding_counts(rest, bindings, text, k);
        if exists|i: int| 0 <= i < rest.len() && (#[trigger] rest[i])@ == text {
            let i = choose|i: int| 0 <= i < rest.len() && (#[trigger] rest[i])@ == text;
            assert(roots[i]@ == text);
        }
        assert(roots[roots.len() - 1] == roots.last());
        if exists|i: int| 0 <= i < roots.len() && (#[trigger] roots[i])@ == text {
            let i = choose|i: int| 0 <= i < roots.len() && (#[trigger] roots[i])@ == text;
            if i < rest.len() {
                assert(rest[i]@ == text);
            }
        }
    } else if bindings.len() > 0 {
        let rest = bindings.drop_last();
        let last = bindings.last();
        the_last_binding_counts(roots, rest, text, k);
        assert(bindings[bindings.len() - 1] == last);
        if 0 <= k < bindings.len() - 1 && (forall|j: int|
            k < j < bindings.len() ==> (#[trigger] bindings[j]).0@ != bindings[k].0@) {
            assert(rest[k] == bindings[k]);
            assert forall|j: int| k < j < rest.len() implies (#[trigger] rest[j]).0@
                != rest[k].0@ by {
                assert(rest[j] == bindings[j]);
            }
            assert(last.0@ != bindings[k].0@);
        }
        if exists|i: int| 0 <= i < rest.len() && (#[trigger] rest[i]).0@ == text {
            let i = choose|i: int| 0 <= i < rest.len() && (#[trigger] rest[i]).0@ == text;
            assert(bindings[i].0@ == text);
        }
        if exists|i: int| 0 <= i < bindings.len() && (#[trigger] bindings[i]).0@ == text {
            let i = choose|i: int| 0 <= i < bindings.len() && (#[trigger] bindings[i]).0@ == text;
            if i < rest.len() {
                assert(rest[i].0@ == text);
            }
        }
    }
}

/// A thread is found by its key, and the thread of a record by its id, the first of each.
pub proof fn threads_are_found_by_key(
    threads: Seq<ThreadView>,
    key: ThreadKeyView,
    entries: Seq<(Seq<char>, ThreadKeyView)>,
    id: Seq<char>,
)
    ensures
        thread_with(threads, key) matches Some(thread) ==> threads.contains(thread) && thread.key
            == key,
        thread_with(threads, key) is None ==> forall|i: int|
            0 <= i < threads.len() ==> (#[trigger] threads[i]).key != key,
        key_for(entries, id) matches Some(found) ==> entries.contains((id, found)),
        key_for(entries, id) is None ==> forall|i: int|
            0 <= i < entries.len() ==> (#[trigger] entries[i]).0 != id,
    decreases threads.len() + entries.len(),
{
    if threads.len() > 0 {
        let rest = threads.drop_first();
        threads_are_found_by_key(rest, key, entries, id);
        if let Some(thread) = thread_with(threads, key) {
            if threads[0].key != key {
                let i = choose|i: int| 0 <= i < rest.len() && rest[i] == thread;
                assert(threads[i + 1] == thread);
            } else {
                assert(threads.contains(threads[0]));
            }
        } else {
            assert forall|i: int| 0 <= i < threads.len() implies (#[trigger] threads[i]).key
                != key by {
                if i > 0 {
                    assert(rest[i - 1] == threads[i]);
                }
            }
        }
    } else if entries.len() > 0 {
        let rest = entries.drop_first();
        threads_are_found_by_key(threads, key, rest, id);
        if let Some(found) = key_for(entries, id) {
            if entries[0].0 != id {
                let i = choose|i: int| 0 <= i < rest.len() && rest[i] == (id, found);
                assert(entries[i + 1] == (id, found));
            } else {
                assert(entries[0] == (id, found));
            }
        } else {
            assert forall|i: int| 0 <= i < entries.len() implies (#[trigger] entries[i]).0
                != id by {
                if i > 0 {
                    assert(rest[i - 1] == entries[i]);
                }
            }
        }
    }
}

proof fn lemma_hunk_at_row(hunks: Seq<DiffRows>, row: u32, from: int)
    requires
        0 <= from,
    ensures
        hunk_at_row(hunks, row, from) matches Some(at) ==> from <= at < hunks.len()
            && hunks[at].start_row <= row <= hunks[at].end_row,
        hunk_at_row(hunks, row, from) is None ==> forall|k: int|
            from <= k < hunks.len() ==> !((#[trigger] hunks[k]).start_row <= row
                <= hunks[k].end_row),
    decreases hunks.len() - from,
{
    if from < hunks.len() {
        lemma_hunk_at_row(hunks, row, from + 1);
    }
}

/// The file under review at an anchor is that of the text there; where the text is of none, it is that
/// of a hunk on the row of the anchor, and where there is no hunk either, there is none.
pub proof fn anchors_are_in_their_file(snapshot: ReviewSnapshot, anchor: Anchor)
    requires
        anchor.id < snapshot.places@.len(),
    ensures
        snapshot.places@[anchor.id as int].file is Some ==> snapshot.file_at(anchor)
            == snapshot.places@[anchor.id as int].file,
        snapshot.places@[anchor.id as int].file is None && snapshot.file_at(anchor) is Some
            ==> exists|k: int|
            0 <= k < snapshot.hunks@.len() && (#[trigger] snapshot.hunks@[k]).file
                == snapshot.file_at(anchor) && snapshot.hunks@[k].start_row
                <= snapshot.places@[anchor.id as int].point.row
                <= snapshot.hunks@[k].end_row,
        snapshot.point_at(anchor) == snapshot.places@[anchor.id as int].point,
        snapshot.buffer_at(anchor) == snapshot.places@[anchor.id as int].buffer,
        snapshot.display_row_at(anchor) == snapshot.places@[anchor.id as int].display_row,
        snapshot.valid_at(anchor) == snapshot.places@[anchor.id as int].valid,
{
    lemma_hunk_at_row(snapshot.hunks@, snapshot.point_at(anchor).row, 0);
}

/// The diff still has a hunk at the place of a key exactly where one of its file, or one of no file for
/// a key of none, takes in the row at which the key begins, or ends right above it.
pub proof fn keys_stay_at_their_hunks(snapshot: ReviewSnapshot, key: DiffHunkKey)
    ensures
        snapshot.has_hunk(key) <==> exists|k: int|
            0 <= k < snapshot.hunks@.len() && (#[trigger] snapshot.hunks@[k]).start_row
                <= snapshot.point_at(key.hunk_start_anchor).row && snapshot.point_at(
                key.hunk_start_anchor,
            ).row <= snapshot.hunks@[k].end_row && (snapshot.hunks@[k].file is None
                ==> key.file_path@.len() == 0) && (snapshot.hunks@[k].file is Some
                ==> snapshot.hunks@[k].file->0@ == key.file_path@),
{
    let row = snapshot.point_at(key.hunk_start_anchor).row;
    if snapshot.has_hunk(key) {
        let k = choose|k: int|
            0 <= k < snapshot.hunks@.len() && crate::review_snapshot::is_hunk_of(
                #[trigger] snapshot.hunks@[k],
                key.file_path@,
                row,
            );
        assert(snapshot.hunks@[k].start_row <= row);
    }
    if exists|k: int|
        0 <= k < snapshot.hunks@.len() && (#[trigger] snapshot.hunks@[k]).start_row <= row && row
            <= snapshot.hunks@[k].end_row && (snapshot.hunks@[k].file is None
            ==> key.file_path@.len() == 0) && (snapshot.hunks@[k].file is Some
            ==> snapshot.hunks@[k].file->0@ == key.file_path@) {
        let k = choose|k: int|
            0 <= k < snapshot.hunks@.len() && (#[trigger] snapshot.hunks@[k]).start_row <= row && row
                <= snapshot.hunks@[k].end_row && (snapshot.hunks@[k].file is None
                ==> key.file_path@.len() == 0) && (snapshot.hunks@[k].file is Some
                ==> snapshot.hunks@[k].file->0@ == key.file_path@);
        assert(crate::review_snapshot::is_hunk_of(snapshot.hunks@[k], key.file_path@, row));
    }
}

} // verus!
