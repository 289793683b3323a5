//! Verified core of a quiet terminal transcript.

pub mod active_cell_selection;
pub mod agent_fleet;
pub mod app;
pub mod app_frame;
pub mod app_laws;
pub mod app_model;
pub mod app_pointer;
pub mod card;
pub mod classification_memo;
pub mod compact_tool_group_item;
pub mod compact_tool_groups;
pub mod conversation_viewport;
pub mod count_laws;
pub mod dynamic_tool;
pub mod fleet_laws;
pub mod fold_laws;
pub mod frame_laws;
pub mod geometry;
pub mod group_laws;
pub mod history_cell;
pub mod hook_lifecycle;
pub mod json;
pub mod keyed;
pub mod ledger;
pub mod legacy_laws;
pub mod legacy_tool_history;
pub mod legacy_turns;
pub mod lifecycle;
pub mod markdown_render_cache;
pub mod output_scan;
pub mod owned_screen;
pub mod pager_content;
pub mod pager_layout;
pub mod pane;
pub mod pointer_laws;
pub mod prepared_cell;
pub mod quiet_bench;
pub mod quiet_metrics;
pub mod record_laws;
pub mod scan_laws;
pub mod screen_laws;
pub mod screen_model;
pub mod selection_laws;
pub mod splice_laws;
pub mod summary_laws;
pub mod terminal_laws;
pub mod text;
pub mod text_laws;
pub mod tool_classification;
pub mod tool_run_projection;
pub mod turn_laws;
pub mod unfold_laws;
pub mod version;
pub mod viewport_laws;
pub mod viewport_model;
pub mod web_url;
