use std::sync::Arc;

use quiet_tui::app::promote_background_terminal_cell;
use quiet_tui::compact_tool_groups::ViewCell;
use quiet_tui::conversation_viewport::{
    ActiveCellLane, ConversationViewport, LaneSnapshots, SelectedSegment,
};
use quiet_tui::geometry::{Position, Rect};
use quiet_tui::history_cell::{
    CellKind, CommandOutput, ExecCall, ExecCell, HistoryCell, HistoryRenderMode,
};
use quiet_tui::ledger::QuietLedger;
use quiet_tui::lifecycle::BackgroundTerminalLifecycleCell;
use quiet_tui::output_scan::ActionScan;
use quiet_tui::pager_content::{
    count_rows, ActiveCellDisplaySnapshot, ItemBody, MouseScrollDirection, PagerItem,
};
use quiet_tui::pager_layout::Renderable;
use quiet_tui::quiet_bench::{FooterOnlyFrameFixture, OwnedFrameFixture};
use quiet_tui::quiet_metrics::{get_for_test, QuietMetric};
use quiet_tui::viewport_model::ActiveCellRenderKey;

fn record(id: u64, kind: CellKind, text: &str) -> Arc<HistoryCell> {
    Arc::new(HistoryCell {
        id,
        kind,
        stream_continuation: false,
        rich_lines: vec![text.to_string()],
        layouts: Vec::new(),
        raw_lines: vec![text.to_string()],
    })
}

fn plain(id: u64, text: &str) -> ViewCell {
    ViewCell::Source(record(id, CellKind::Other, text))
}

fn viewport(count: u64) -> ConversationViewport {
    let cells = (0..count).map(|id| plain(id, &format!("line {id}"))).collect();
    ConversationViewport::new(cells, HistoryRenderMode::Rich)
}

fn snapshot(text: &str) -> Arc<ActiveCellDisplaySnapshot> {
    Arc::new(ActiveCellDisplaySnapshot {
        lines: vec![text.to_string()],
        is_stream_continuation: false,
    })
}

fn lanes(primary: &[&str]) -> LaneSnapshots {
    LaneSnapshots {
        primary: primary.iter().map(|text| snapshot(text)).collect(),
        token: Vec::new(),
        rate_limit: Vec::new(),
    }
}

fn key(revision: u64) -> ActiveCellRenderKey {
    ActiveCellRenderKey {
        revision,
        primary_present: true,
        is_stream_continuation: false,
        token_activity_revision: None,
        rate_limit_revision: None,
    }
}

#[test]
fn only_a_view_at_the_end_follows_new_cells() {
    let area = Rect::new(0, 0, 40, 5);
    let mut view = viewport(10);
    view.render(&mut QuietLedger::new(), area, None);
    assert_eq!(view.scroll_offset(), 14);
    view.push_cell(plain(10, "line 10"));
    view.render(&mut QuietLedger::new(), area, None);
    assert_eq!(view.scroll_offset(), 16);
    assert!(view.is_following_bottom());

    view.handle_mouse_scroll(MouseScrollDirection::Up, 3);
    view.render(&mut QuietLedger::new(), area, None);
    assert_eq!(view.scroll_offset(), 13);
    assert!(!view.is_following_bottom());
    view.push_cell(plain(11, "line 11"));
    view.render(&mut QuietLedger::new(), area, None);
    assert_eq!(view.scroll_offset(), 13);
}

#[test]
fn a_selection_freezes_what_is_shown() {
    let area = Rect::new(0, 0, 40, 5);
    let mut view = viewport(3);
    view.render(&mut QuietLedger::new(), area, None);
    assert!(view.begin_selection(area, Position { x: 0, y: 0 }, None));
    assert!(view.update_selection(area, Position { x: 3, y: 0 }, None, false, 0));
    view.push_cell(plain(3, "line 3"));
    assert_eq!(view.committed_cell_count(), 3);
    let copied =
        view.finish_selection(area, Position { x: 3, y: 0 }, None, Some("line".to_string()));
    assert_eq!(copied.as_deref(), Some("line"));
    assert_eq!(view.committed_cell_count(), 4);
    assert_eq!(view.committed_cell_position(3), Some(3));
    assert_eq!(view.committed_cell_position(9), None);
}

#[test]
fn a_range_is_replaced_in_place() {
    let mut metrics = QuietLedger::new();
    let mut view = viewport(4);
    view.render(&mut QuietLedger::new(), Rect::new(0, 0, 40, 3), None);
    view.replace_range(&mut metrics, 40, 1, 2, vec![plain(8, "replacement")]);
    let ids: Vec<u64> = (0..view.committed_cell_count())
        .map(|index| match view.committed_cell(index) {
            Some(ViewCell::Source(source)) => source.id,
            _ => panic!("no source"),
        })
        .collect();
    assert_eq!(ids, vec![0, 8, 3]);
}

#[test]
fn cells_are_hit_by_their_rows() {
    let area = Rect::new(2, 1, 40, 5);
    let mut view = viewport(3);
    view.render(&mut QuietLedger::new(), area, None);
    let hit = view.committed_cell_hit(area, Position { x: 2, y: 1 }).expect("the first cell");
    assert_eq!((hit.index, hit.row_within_cell), (0, 0));
    let hit = view.committed_cell_hit(area, Position { x: 2, y: 3 }).expect("the second cell");
    assert_eq!(hit.index, 1);
    assert!(view.committed_cell_hit(area, Position { x: 1, y: 1 }).is_none());
    assert_eq!(view.visible_committed_cell_range(area), Some((0, 2)));
    assert!(view.committed_range_intersects_viewport(40, 1, 1, area));
    assert!(!view.committed_range_intersects_viewport(40, 3, 0, area));
}

#[test]
fn an_unchanged_live_tail_is_kept() {
    let mut metrics = QuietLedger::new();
    let mut view = viewport(2);
    assert!(view.lane_needs_snapshots(40, Some(key(1)), ActiveCellLane::Primary));
    assert!(view.sync_live_tail(&mut metrics, 40, Some(key(1)), lanes(&["live"])));
    assert_eq!(get_for_test(&metrics.counters, QuietMetric::LivePrimaryRebuild), 1);
    assert!(!view.lane_needs_snapshots(40, Some(key(1)), ActiveCellLane::Primary));
    assert!(!view.sync_live_tail(&mut metrics, 40, Some(key(1)), lanes(&[])));
    assert_eq!(get_for_test(&metrics.counters, QuietMetric::LivePrimaryRebuild), 1);
    assert_eq!(view.committed_cell_count(), 2);
    assert!(view.lane_needs_snapshots(40, Some(key(2)), ActiveCellLane::Primary));
    assert!(view.sync_live_tail(&mut metrics, 40, None, lanes(&[])));
    assert_eq!(view.committed_cell_count(), 2);
}

#[test]
fn a_lane_is_rebuilt_only_for_its_own_change() {
    let mut metrics = QuietLedger::new();
    let mut view = viewport(1);
    let first = ActiveCellRenderKey { token_activity_revision: Some(1), ..key(1) };
    let second = ActiveCellRenderKey { token_activity_revision: Some(2), ..key(1) };
    let token = |text: &str| LaneSnapshots { token: vec![snapshot(text)], ..lanes(&["live"]) };
    assert!(view.sync_live_tail(&mut metrics, 40, Some(first), token("10 tokens")));
    assert!(!view.lane_needs_snapshots(40, Some(second), ActiveCellLane::Primary));
    assert!(view.lane_needs_snapshots(40, Some(second), ActiveCellLane::TokenActivity));
    assert!(view.sync_live_tail(&mut metrics, 40, Some(second), token("20 tokens")));
    assert_eq!(get_for_test(&metrics.counters, QuietMetric::LivePrimaryRebuild), 1);
    assert_eq!(get_for_test(&metrics.counters, QuietMetric::LiveTokenRebuild), 2);
    assert_eq!(get_for_test(&metrics.counters, QuietMetric::LiveRateLimitRebuild), 0);
}

#[test]
fn selected_columns_are_marked_on_the_screen() {
    let area = Rect::new(0, 0, 40, 3);
    let mut view = viewport(1);
    view.render(&mut QuietLedger::new(), area, None);
    view.begin_selection(area, Position { x: 0, y: 0 }, None);
    view.update_selection(area, Position { x: 2, y: 0 }, None, false, 0);
    let segments = vec![SelectedSegment { content_row: 0, start: 0, end: 3 }];
    let marked = view.render_selection(area, &segments);
    assert_eq!(
        marked,
        vec![
            Position { x: 0, y: 0 },
            Position { x: 1, y: 0 },
            Position { x: 2, y: 0 }
        ]
    );
}

#[test]
fn long_lines_take_several_rows() {
    let item = PagerItem {
        spaced: false,
        body: ItemBody::Cell {
            cell: plain(1, "one two three four"),
            mode: HistoryRenderMode::Rich,
        },
        prepared: None,
    };
    assert_eq!(item.desired_height(40), 1);
    assert_eq!(item.desired_height(9), 3);
    let spaced = PagerItem { spaced: true, ..item };
    assert_eq!(spaced.desired_height(40), 2);
}

#[test]
fn a_cell_is_laid_out_once_for_a_width() {
    let mut metrics = QuietLedger::new();
    let mut item = PagerItem {
        spaced: true,
        body: ItemBody::Cell {
            cell: plain(1, "one two three four"),
            mode: HistoryRenderMode::Rich,
        },
        prepared: None,
    };
    assert_eq!(item.prepare(&mut metrics, 40), 1);
    assert_eq!(item.prepare(&mut metrics, 40), 1);
    assert_eq!(item.prepare(&mut metrics, 9), 3);
    assert_eq!(get_for_test(&metrics.counters, QuietMetric::PreparedCellCacheHit), 1);
    assert_eq!(get_for_test(&metrics.counters, QuietMetric::PreparedCellCacheMiss), 2);
    assert_eq!(get_for_test(&metrics.counters, QuietMetric::PreparedCellCacheInvalidation), 1);
    assert_eq!(get_for_test(&metrics.counters, QuietMetric::LayoutStableCellMeasurement), 2);
    assert_eq!(item.desired_height(9), 4);
    assert_eq!(item.desired_height(40), 2);
    assert_eq!(item.render(&mut metrics, 9), 3);
    assert_eq!(get_for_test(&metrics.counters, QuietMetric::LayoutVisibleCellDraw), 1);
    assert_eq!(get_for_test(&metrics.counters, QuietMetric::PreparedCellCacheHit), 2);
}

fn cache_counts(metrics: &QuietLedger) -> (u64, u64, u64, u64, u64) {
    (
        get_for_test(&metrics.counters, QuietMetric::PreparedCellCacheHit),
        get_for_test(&metrics.counters, QuietMetric::PreparedCellCacheMiss),
        get_for_test(&metrics.counters, QuietMetric::PreparedCellCacheInvalidation),
        get_for_test(&metrics.counters, QuietMetric::LayoutStableCellMeasurement),
        get_for_test(&metrics.counters, QuietMetric::LayoutVisibleCellDraw),
    )
}

#[test]
fn frames_of_a_viewport_take_unchanged_cells_from_the_cache() {
    let area = Rect::new(0, 0, 40, 5);
    let mut metrics = QuietLedger::new();
    let mut view = viewport(10);
    // Every cell is laid out, and the last three are on the screen.
    view.render(&mut metrics, area, None);
    assert_eq!(cache_counts(&metrics), (3, 10, 0, 10, 3));
    view.render(&mut metrics, area, None);
    assert_eq!(cache_counts(&metrics), (6, 10, 0, 10, 6));
    // A new cell is the only one to be laid out.
    view.push_cell(plain(10, "line 10"));
    view.render(&mut metrics, area, None);
    assert_eq!(cache_counts(&metrics), (9, 11, 0, 11, 9));
    // Another width drops every layout.
    view.render(&mut metrics, Rect::new(0, 0, 30, 5), None);
    assert_eq!(cache_counts(&metrics), (12, 22, 11, 22, 12));
    // Cells that stay in place keep their layouts; those behind a changed one do not.
    let mut cells: Vec<ViewCell> = (0..9).map(|id| plain(id, &format!("line {id}"))).collect();
    cells.push(plain(20, "line 20"));
    view.replace_cells(cells);
    view.render(&mut metrics, Rect::new(0, 0, 30, 5), None);
    assert_eq!(cache_counts(&metrics), (15, 23, 11, 23, 15));
    // Another mode lays everything out again, from the start.
    view.set_render_mode(HistoryRenderMode::Raw);
    view.render(&mut metrics, Rect::new(0, 0, 30, 5), None);
    assert_eq!(cache_counts(&metrics), (18, 33, 11, 33, 18));
    // Nothing is drawn where there is no room.
    view.render(&mut metrics, Rect::new(0, 0, 30, 0), None);
    assert_eq!(cache_counts(&metrics), (18, 33, 11, 33, 18));
}

#[test]
fn background_terminal_promotion_replaces_causal_exec_across_interleaved_cells() {
    let exec = record(
        1,
        CellKind::Exec(ExecCell {
            calls: vec![ExecCall {
                call_id: "call-background".to_string(),
                command: vec!["cargo test".to_string()],
                shell_line: "cargo test".to_string(),
                parsed: Vec::new(),
                output: Some(CommandOutput {
                    exit_code: 0,
                    lines: Vec::new(),
                    scan: ActionScan { verbatim: false, without_urls: false },
                }),
                user_shell_command: false,
            }],
        }),
        "cargo test",
    );
    let unrelated = record(2, CellKind::Other, "unrelated agent message");
    let mut cells = vec![exec, Arc::clone(&unrelated)];

    let mut lifecycle = BackgroundTerminalLifecycleCell::new(
        "call-background".to_string(),
        "proc-1".to_string(),
        "cargo test".to_string(),
    );
    lifecycle.activate();
    lifecycle.record_interaction(String::new());
    let lifecycle = record(3, CellKind::BackgroundTerminal(lifecycle), "card");
    let replaced = promote_background_terminal_cell(&mut cells, "call-background", lifecycle);

    assert_eq!(replaced, Some(0));
    assert_eq!(cells.len(), 2, "unrelated cells should not be consumed");
    assert!(matches!(cells[0].kind, CellKind::BackgroundTerminal(_)));
    assert!(Arc::ptr_eq(&cells[1], &unrelated));
}

#[test]
fn a_terminal_without_its_command_is_appended() {
    let mut cells = vec![record(2, CellKind::Other, "message")];
    let lifecycle = record(
        3,
        CellKind::BackgroundTerminal(BackgroundTerminalLifecycleCell::new(
            "call".to_string(),
            "proc".to_string(),
            "make".to_string(),
        )),
        "card",
    );
    let replaced = promote_background_terminal_cell(&mut cells, "call", lifecycle);
    assert_eq!(replaced, None);
    assert_eq!(cells.len(), 2);
    assert_eq!(cells[1].id, 3);
}

#[test]
fn footer_frames_mark_their_corners() {
    let mut wide = FooterOnlyFrameFixture::new(40, 10);
    assert_eq!(wide.area.height, 4);
    assert_eq!(wide.render_status_frame(), 1 ^ 1 ^ 1);
    assert_eq!(wide.render_status_frame(), 2 ^ 1 ^ 1);
    // The last column of this one shows the two bytes of a middle dot.
    let mut narrow = FooterOnlyFrameFixture::new(15, 1);
    assert_eq!(narrow.render_status_frame(), 1 ^ 1 ^ 2);
}

#[test]
fn warm_frames_lay_nothing_out() {
    let mut fixture = OwnedFrameFixture::new(80, 24);
    assert_eq!(fixture.status_tick, 3);
    let (_, misses) = fixture.prepared_cache_counts();
    assert_eq!(misses, 4_096);
    assert_eq!(fixture.render_status_frame(), 4 ^ 1 ^ 1);
    assert_eq!(fixture.prepared_cache_counts().1, misses);
    assert!(!fixture.input_down);
    assert_eq!(fixture.handle_input_and_render(), 5 ^ 1 ^ 1);
    assert!(fixture.input_down);
    let (hits, misses_at_top) = fixture.prepared_cache_counts();
    assert_eq!(misses_at_top, misses);
    fixture.render_status_frame();
    assert!(fixture.prepared_cache_counts().0 > hits);
    // A screen without a conversation starts with its footer, whose last column is shown.
    let mut flat = OwnedFrameFixture::new(15, 1);
    assert_eq!(flat.render_status_frame(), 4 ^ 1 ^ 2);
}

#[test]
fn page_keys_move_by_a_screenful_up_and_down_in_turn() {
    let mut fixture = OwnedFrameFixture::new(80, 24);
    let rows = usize::from(fixture.conversation_area.height);
    assert!(rows > 0);
    let bottom = fixture.viewport.scroll_offset();
    fixture.handle_input_and_render();
    assert_eq!(fixture.viewport.scroll_offset(), bottom - rows);
    fixture.handle_input_and_render();
    assert_eq!(fixture.viewport.scroll_offset(), bottom);
    assert!(!fixture.input_down);
}

#[test]
fn a_warm_fixture_has_measured_every_cell_once() {
    let fixture = OwnedFrameFixture::new(80, 24);
    let counted = |metric| get_for_test(&fixture.metrics.counters, metric);
    assert_eq!(counted(QuietMetric::LayoutStableCellMeasurement), 4_096);
    assert_eq!(counted(QuietMetric::PreparedCellCacheMiss), 4_096);
    let draws = counted(QuietMetric::LayoutVisibleCellDraw);
    assert!(draws > 0 && draws % 3 == 0);
    assert_eq!(counted(QuietMetric::PreparedCellCacheHit), draws);
    assert_eq!(counted(QuietMetric::SourceAppend), 0);
}

#[test]
fn a_live_tail_leaves_its_greatest_height_behind() {
    let mut metrics = QuietLedger::new();
    let mut view = viewport(1);
    assert!(view.sync_live_tail(&mut metrics, 40, Some(key(1)), lanes(&["one", "two"])));
    let peak = get_for_test(&metrics.counters, QuietMetric::LiveTailMaxRows);
    assert!(peak >= 2);
    assert!(view.sync_live_tail(&mut metrics, 40, Some(key(2)), lanes(&["one"])));
    assert_eq!(get_for_test(&metrics.counters, QuietMetric::LiveTailMaxRows), peak);
    let tall = ["one", "two", "three", "four"];
    assert!(view.sync_live_tail(&mut metrics, 40, Some(key(3)), lanes(&tall)));
    assert!(get_for_test(&metrics.counters, QuietMetric::LiveTailMaxRows) > peak);
}

#[test]
fn rows_are_counted_at_any_width() {
    let lines = vec!["one two three".to_string(), "four".to_string()];
    assert_eq!(count_rows(&lines, 80), 2);
    assert_eq!(count_rows(&lines, 7), 3);
    assert_eq!(count_rows(&lines, u16::MAX), 2);
    assert_eq!(count_rows(&vec!["y".repeat(17_000)], 20_000), 1);
    assert_eq!(count_rows(&vec!["é".repeat(17_000)], 20_000), 1);
    let long = vec!["x".repeat(65_536)];
    assert_eq!(count_rows(&long, 16_383), 5);
    assert_eq!(count_rows(&long, 40_000), 2);
    assert_eq!(count_rows(&long, u16::MAX), 5);
    assert_eq!(count_rows(&long, 1), 65_536);
}

#[test]
fn a_selected_cell_is_projected_once() {
    let area = Rect::new(0, 0, 40, 3);
    let mut view = viewport(2);
    assert!(view.ensure_cell_projection(0).is_none());
    view.render(&mut QuietLedger::new(), area, None);
    view.begin_selection(area, Position { x: 0, y: 0 }, None);
    assert_eq!(view.autoscroll_elapsed(90), 0);
    let request = view.ensure_cell_projection(1).expect("a first request");
    assert_eq!((request.index, request.width), (1, 40));
    assert!(view.ensure_cell_projection(1).is_none());
    assert!(view.ensure_cell_projection(9).is_none());
}
