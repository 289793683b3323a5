use std::cell::Cell;
use std::sync::Arc;

use quiet_tui::active_cell_selection::{ActiveCellSelectionHandle, CellSelectionProjection};
use quiet_tui::dynamic_tool::{new_dynamic_tool_call, DynamicToolCallStatus};
use quiet_tui::geometry::{Position, Rect};
use quiet_tui::json::{parse_json, Json};
use quiet_tui::markdown_render_cache::{
    MarkdownRenderCache, MarkdownRenderCacheKey, StdoutColorLevel,
};
use quiet_tui::pager_layout::{FixedHeight, PagerLayoutCache, Renderable};
use quiet_tui::version::{cli_display_version, cli_version, CODEX_CLI_DISPLAY_NAME};

fn key(width: u16) -> MarkdownRenderCacheKey {
    MarkdownRenderCacheKey {
        width,
        syntax_theme_revision: 0,
        terminal_fg: None,
        terminal_bg: None,
        color_level: StdoutColorLevel::TrueColor,
    }
}

#[test]
fn retains_two_widths_without_rerendering_the_first() {
    let mut cache = MarkdownRenderCache { cached: Vec::new() };
    let renders = Cell::new(0);
    let render = || {
        renders.set(renders.get() + 1);
        vec!["rendered".to_string()]
    };

    let first = cache.render(key(/*width*/ 80), render);
    let _second = cache.render(key(/*width*/ 79), render);
    let first_again = cache.render(key(/*width*/ 80), render);

    assert_eq!(renders.get(), 2);
    assert!(Arc::ptr_eq(&first, &first_again));
}

#[test]
fn a_third_key_drops_the_one_used_longest_ago() {
    let mut cache = MarkdownRenderCache { cached: Vec::new() };
    let renders = Cell::new(0);
    let render = || {
        renders.set(renders.get() + 1);
        vec!["rendered".to_string()]
    };
    cache.render(key(80), render);
    cache.render(key(79), render);
    cache.render(key(80), render);
    cache.render(key(78), render);
    assert_eq!(renders.get(), 3);
    cache.render(key(80), render);
    assert_eq!(renders.get(), 3);
    cache.render(key(79), render);
    assert_eq!(renders.get(), 4);
    let themed = MarkdownRenderCacheKey { syntax_theme_revision: 1, ..key(79) };
    cache.render(themed, render);
    assert_eq!(renders.get(), 5);
}

#[test]
fn first_visible_boundary_is_strict_and_handles_zero_height_items() {
    let renderables = vec![FixedHeight(0), FixedHeight(1), FixedHeight(0), FixedHeight(2)];
    let mut layout = PagerLayoutCache::new();
    layout.ensure(&renderables, /*width*/ 80);

    assert_eq!(layout.heights(), &[0, 1, 0, 2]);
    assert_eq!(layout.start(3), 1);
    assert_eq!(layout.end(3), 3);
    assert_eq!(layout.first_with_end_at_least(0), 0);
    assert_eq!(layout.first_with_end_at_least(1), 1);
    assert_eq!(layout.first_with_end_at_least(2), 3);
    assert_eq!(layout.first_with_end_at_least(4), 4);
}

#[test]
fn an_extended_layout_equals_a_fresh_one() {
    let mut layout = PagerLayoutCache::new();
    layout.ensure(&vec![FixedHeight(2), FixedHeight(3)], 80);
    let grown = vec![FixedHeight(2), FixedHeight(3), FixedHeight(4)];
    layout.ensure(&grown, 80);
    let mut fresh = PagerLayoutCache::new();
    fresh.ensure(&grown, 80);
    assert_eq!(layout.heights(), fresh.heights());
    assert_eq!(layout.total_height(), 9);
    assert_eq!(layout.start(2), fresh.start(2));
    layout.truncate(1);
    assert_eq!(layout.total_height(), 2);
    assert_eq!(layout.start(5), 0);
}

#[test]
fn display_version_distinguishes_a_source_build_from_a_stable_release() {
    let local = cli_display_version(None, "0.146.0");
    assert!(local.starts_with("codex-quiet "));
    assert!(local.ends_with("+local"));
    assert_eq!(local, "codex-quiet 0.146.0+local");

    let release = cli_display_version(Some("codex-quiet 1.0.0 (codex 0.146.0)"), "0.146.0");
    assert!(release.starts_with("codex-quiet "));
    assert!(!release.contains("+local"), "release build must not be marked local: {release}");
    assert_eq!(CODEX_CLI_DISPLAY_NAME, "codex-quiet");
}

#[test]
fn cli_version_stays_parseable_and_unmarked() {
    for version in [cli_version(None, "0.146.0"), cli_version(Some("0.147.0"), "0.146.0")] {
        assert!(
            !version.contains("+local"),
            "the version feeds update comparison and must stay bare: {version}"
        );
    }
    assert_eq!(cli_version(None, "0.146.0"), "0.146.0");
    assert_eq!(cli_version(Some("0.147.0"), "0.146.0"), "0.147.0");
}

#[test]
fn raw_mode_splits_multiline_exec_commands() {
    let cell = new_dynamic_tool_call(
        None,
        "exec_command".to_string(),
        Json::Object(vec![(
            "cmd".to_string(),
            Json::Text("printf one\nprintf two".to_string()),
        )]),
        DynamicToolCallStatus::Completed,
    );

    let lines = cell.raw_lines();
    assert_eq!(lines.len(), 2);
    assert_eq!(lines[0], "Called exec_command: printf one");
    assert_eq!(lines[1], "printf two");
}

#[test]
fn parsed_documents_keep_their_shape() {
    let parsed = parse_json("{\"a\": [null, true, \"x\"], \"b\": 3}").expect("a document");
    let Json::Object(entries) = parsed else {
        panic!("no object");
    };
    assert_eq!(entries.len(), 2);
    let (name, value) = &entries[0];
    assert_eq!(name, "a");
    let Json::Array(items) = value else {
        panic!("no array");
    };
    assert!(matches!(items[0], Json::Null));
    assert!(matches!(items[1], Json::Bool(true)));
    assert!(matches!(&items[2], Json::Text(text) if text == "x"));
    assert!(matches!(entries[1].1, Json::Number));
    assert!(parse_json("{").is_none());
    assert!(parse_json("1 2").is_none());
}

#[test]
fn rectangles_hold_what_lies_before_their_edges() {
    let area = Rect::new(2, 3, 4, 5);
    assert_eq!((area.right(), area.bottom()), (6, 8));
    assert!(area.contains(Position { x: 2, y: 3 }));
    assert!(area.contains(Position { x: 5, y: 7 }));
    assert!(!area.contains(Position { x: 6, y: 7 }));
    assert!(!area.contains(Position { x: 5, y: 8 }));
    assert!(Rect::new(0, 0, 0, 9).is_empty());
}

fn unfenced(source: &str) -> String {
    source.trim_matches('`').to_string()
}

#[test]
fn message_projections_are_rendered_only_where_there_is_room() {
    let narrow = ActiveCellSelectionHandle::agent_markdown("```text```", "/repo", 2, unfenced);
    let none = narrow.resolve(&vec!["text".to_string()], |_| panic!("nothing to render"));
    assert!(none.is_none());
    let wide = ActiveCellSelectionHandle::agent_markdown("```text```", "/repo", 10, unfenced);
    let shown = wide
        .resolve(&vec!["• text".to_string()], |request| {
            assert_eq!(request.source, "text");
            assert_eq!(request.cwd, "/repo");
            assert_eq!(request.markdown_width, 8);
            assert_eq!(request.display_width, 10);
            Some(CellSelectionProjection { rows: request.display_lines })
        })
        .expect("a projection");
    assert_eq!(shown.rows, vec!["• text"]);
}

/// An item that counts how often it is asked for its height.
struct Measured {
    height: u16,
    stable: bool,
    asked: Cell<usize>,
}

impl Renderable for Measured {
    fn height(&self, _width: u16) -> u16 {
        self.height
    }

    fn stable(&self) -> bool {
        self.stable
    }

    fn desired_height(&self, _width: u16) -> u16 {
        self.asked.set(self.asked.get() + 1);
        self.height
    }

    fn has_stable_height(&self) -> bool {
        self.stable
    }
}

fn measured(stable: bool) -> Measured {
    Measured { height: 2, stable, asked: Cell::new(0) }
}

fn asked(items: &[Measured]) -> Vec<usize> {
    items.iter().map(|item| item.asked.get()).collect()
}

#[test]
fn stable_items_are_measured_once_per_width() {
    let mut items = vec![measured(true), measured(false), measured(true)];
    let mut layout = PagerLayoutCache::new();
    layout.ensure(&items, 80);
    assert_eq!(asked(&items), vec![1, 1, 1]);
    layout.ensure(&items, 80);
    assert_eq!(asked(&items), vec![1, 2, 1]);
    items.push(measured(true));
    layout.ensure(&items, 80);
    assert_eq!(asked(&items), vec![1, 3, 1, 1]);
    layout.ensure(&items, 40);
    assert_eq!(asked(&items), vec![2, 4, 2, 2]);
}

#[test]
fn dropped_items_are_measured_again() {
    let items = vec![measured(true), measured(true), measured(true)];
    let mut layout = PagerLayoutCache::new();
    layout.ensure(&items, 80);
    layout.invalidate_from(1);
    layout.ensure(&items, 80);
    assert_eq!(asked(&items), vec![1, 2, 2]);
    layout.clear();
    layout.ensure(&items, 80);
    assert_eq!(asked(&items), vec![2, 3, 3]);
    assert_eq!(layout.total_height(), 6);
}
