# stack_review

The data and the rules behind reviewing a stack of branches: the comments and the threads they
form, the diff between two commits of the stack, the mentions that messages to an agent hold, and
the editor in which all of it is shown. The library under `src/` is verified with Verus; what reads
and writes files, repositories and messages is under `app/`.

- Comments and threads: `comment`, `record_order`, `thread_key`, `thread_key_json`,
  `thread_index`, `thread_laws`.
- What is kept of a review: `presentation`, `presentation_laws`, `review_state`.
- Stacks and their diffs: `stacks`, `stack_diff`, `line_diff`, `path_order`.
- Mentions: `mention`, `mention_parse`, `mention_uri`, `mention_round_trip` and what they build on,
  `mention_path`, `mention_query`, `mention_url`, `stack_review_query`; `mention_label` and
  `mention_error` are how they are shown.
- Comments in an editor: `review_comment`, `review_store`, `review_snapshot` and `thread_items`;
  `editor` and the modules whose names begin with `editor_` are its operations, `editor_laws`,
  `thread_item_laws` and `projection_laws` what holds of them.
- Hunks: `diff_hunks`, `hunk_delegate`, `hunk_display`, `editor_hunks`.
- Asking an agent: `ai_context`, `ai_observer`, `ai_host`, `agent_projection`.
- Mathematics: `forest`, `preorder`, `breadth`, `ranking`, `text`, `text_map`, `trim`, `decimal`,
  `json_text`, `json_shape`.

An editor does nothing to its surroundings. Its operations note what they ask for, and
`Editor::take_effects` hands that out in order; anchors are places in a `ReviewSnapshot`, and the
clock and the time zone come in as values.
