//! Stack review: the data and the rules behind reviewing a stack of branches.

pub mod agent_projection;
pub mod ai_context;
pub mod ai_host;
pub mod ai_laws;
pub mod ai_observer;
pub mod breadth;
pub mod comment;
pub mod comment_laws;
pub mod debug_selector;
pub mod debug_text;
pub mod decimal;
pub mod diff_hunks;
pub mod editing_laws;
pub mod editor;
pub mod editor_blame;
pub mod editor_comments;
pub mod editor_composer;
pub mod editor_dismissal;
pub mod editor_editing;
pub mod editor_effect;
pub mod editor_hunks;
pub mod editor_laws;
pub mod editor_overlays;
pub mod editor_projection;
pub mod editor_resolution;
pub mod effect_laws;
pub mod forest;
pub mod hunk_delegate;
pub mod hunk_display;
pub mod hunk_display_laws;
pub mod hunk_laws;
pub mod json_shape;
pub mod json_text;
pub mod line_diff;
pub mod mention;
pub mod mention_error;
pub mod mention_label;
pub mod mention_label_laws;
pub mod mention_laws;
pub mod mention_parse;
pub mod mention_path;
pub mod mention_query;
pub mod mention_round_trip;
pub mod mention_uri;
pub mod mention_url;
pub mod mention_url_laws;
pub mod overlay_height;
pub mod overlay_laws;
pub mod path_order;
pub mod preorder;
pub mod presentation;
pub mod presentation_laws;
pub mod projection_laws;
pub mod ranking;
pub mod record_laws;
pub mod record_order;
pub mod review_comment;
pub mod review_rows;
pub mod review_snapshot;
pub mod review_state;
pub mod review_store;
pub mod row_laws;
pub mod section_laws;
pub mod stack_diff;
pub mod stack_diff_laws;
pub mod stack_review_query;
pub mod stacks;
pub mod text;
pub mod text_laws;
pub mod text_map;
pub mod thread_index;
pub mod thread_item_laws;
pub mod thread_items;
pub mod thread_key;
pub mod thread_key_json;
pub mod thread_laws;
pub mod trim;
