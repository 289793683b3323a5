use std::sync::Arc;

use quiet_tui::app::{App, Overlay, RecordLines};
use quiet_tui::app_frame::{AltScreenBehavior, SessionFacts, SessionHeader};
use quiet_tui::app_model::{
    Effect, InlineReflowReason, MousePrimaryEventKind, OwnedScreenLayout, PaneSlot,
};
use quiet_tui::compact_tool_groups::{
    compact_tool_group_ids_in_order, work_row, ViewCell, WorkRowForm,
};
use quiet_tui::conversation_viewport::LaneSnapshots;
use quiet_tui::geometry::{Position, Rect};
use quiet_tui::history_cell::{
    CellKind, CommandOutput, ExecCall, ExecCell, HistoryCell, HistoryRenderMode, ParsedCommand,
};
use quiet_tui::ledger::QuietLedger;
use quiet_tui::lifecycle::{BackgroundTerminalLifecycleCell, TerminalEvent};
use quiet_tui::owned_screen::{Frame, KeyCode, KeyEventKind, NavigationKey, OwnedScreen};
use quiet_tui::pager_content::{ItemBody, MouseScrollDirection, PagerItem};
use quiet_tui::pager_layout::Renderable;
use quiet_tui::pane::{DragFacts, Pane, PaneFacts};
use quiet_tui::quiet_metrics::{
    get_for_test, reset_for_test, QuietMetric, RangeReplacementReason, ToolRunSealReason,
};
use quiet_tui::tool_run_projection::{ToolRunLifecycle, ToolRunSealCell};

/// A number for each name, so that records with different names differ.
fn record_id(name: &str) -> u64 {
    let mut id: u64 = 1469598103934665603;
    for byte in name.bytes() {
        id = (id ^ u64::from(byte)).wrapping_mul(1099511628211);
    }
    id
}

fn cell(name: &str, kind: CellKind, rich: Vec<String>, raw: Vec<String>) -> HistoryCell {
    HistoryCell {
        id: record_id(name),
        kind,
        stream_continuation: false,
        rich_lines: rich,
        layouts: Vec::new(),
        raw_lines: raw,
    }
}

fn seal_record(seal: ToolRunSealCell) -> Arc<HistoryCell> {
    let name = format!("seal-{}", seal.run_id().get());
    Arc::new(cell(&name, CellKind::Seal(seal), Vec::new(), Vec::new()))
}

/// A scan in the manner of a host: it looks for words and links that ask the user to act.
fn asks_the_user(text: &str) -> bool {
    let lower = text.to_lowercase();
    ["sign in", "log in", "approval required", "confirm", "http://", "https://"]
        .iter()
        .any(|marker| lower.contains(marker))
}

fn command_output(exit_code: i32, text: &str) -> CommandOutput {
    CommandOutput::new(exit_code, text.lines().map(str::to_string).collect(), asks_the_user)
}

fn shell_line(command: &[String]) -> String {
    if command.len() == 3 && command[0] == "bash" && command[1] == "-lc" {
        return command[2].clone();
    }
    shlex::try_join(command.iter().map(String::as_str)).expect("a command without NUL")
}

fn exec_call(
    call_id: &str,
    command: Vec<String>,
    parsed: Vec<ParsedCommand>,
    output: Option<CommandOutput>,
) -> ExecCall {
    ExecCall {
        call_id: call_id.to_string(),
        shell_line: shell_line(&command),
        command,
        parsed,
        output,
        user_shell_command: false,
    }
}

fn read_call(call_id: &str, name: &str, output: Option<CommandOutput>) -> ExecCall {
    let command = vec!["cat".to_string(), name.to_string()];
    let parsed = vec![ParsedCommand::Read {
        cmd: command.join(" "),
        name: name.to_string(),
        path: name.to_string(),
    }];
    exec_call(call_id, command, parsed, output)
}

fn completed_read_exec(call_id: &str, name: &str) -> HistoryCell {
    cell(
        call_id,
        CellKind::Exec(ExecCell { calls: vec![read_call(call_id, name, Some(command_output(0, "")))] }),
        vec!["• Explored".to_string(), format!("  └ Read file {name}")],
        vec![format!("$ cat {name}")],
    )
}

fn plain(text: &str) -> HistoryCell {
    cell(text, CellKind::Other, vec![text.to_string()], vec![text.to_string()])
}

fn pane(owned: bool) -> Pane {
    let mut pane = Pane::new(PaneFacts {
        render_mode: HistoryRenderMode::Rich,
        compact_tool_groups_expanded: false,
        composer_is_empty: true,
        no_modal_or_popup_active: true,
        activity_animation_active: false,
        usage_history_insertion_blocked: false,
        history_wrap_width: 80,
        initial_history_replay_buffer: false,
    });
    let behavior = if owned { AltScreenBehavior::Owned } else { AltScreenBehavior::Disabled };
    pane.install_screen(App::owned_screen_for_behavior(behavior, HistoryRenderMode::Rich));
    pane
}

fn app(owned: bool) -> App {
    App::new(
        pane(owned),
        SessionFacts {
            model: "model".to_string(),
            reasoning_effort: None,
            show_fast_status: false,
            cwd: "/repo".to_string(),
            yolo_mode: false,
        },
    )
}

fn app_with_side() -> App {
    let mut app = app(true);
    app.side = Some(pane(true));
    app
}

fn screen(app: &App) -> &OwnedScreen {
    app.parent.owned_screen.as_ref().expect("an owned screen")
}

fn screen_mut(app: &mut App) -> &mut OwnedScreen {
    app.parent.owned_screen.as_mut().expect("an owned screen")
}

fn side_screen(app: &App) -> &OwnedScreen {
    let side = app.side.as_ref().expect("a side pane");
    side.owned_screen.as_ref().expect("an owned screen")
}

fn insert(app: &mut App, cell: HistoryCell) {
    let seal_id = 1_000 + app.focus().transcript_cells.len() as u64;
    app.insert_history_cell(cell, seal_id);
}

fn begin_run(app: &mut App) {
    app.begin_tool_run_turn("owned-screen-test".to_string(), 2_000);
}

fn seal_run(app: &mut App) {
    let seal_id = 3_000 + app.focus().transcript_cells.len() as u64;
    app.seal_tool_run("owned-screen-test", ToolRunSealReason::TurnComplete, seal_id);
}

fn read_run(app: &mut App, reads: &[(&str, &str)]) {
    begin_run(app);
    for (call_id, name) in reads {
        insert(app, completed_read_exec(call_id, name));
    }
    seal_run(app);
}

fn count(app: &App, metric: QuietMetric) -> u64 {
    get_for_test(&app.metrics.counters, metric)
}

fn shown_text(app: &App, index: usize) -> String {
    match screen(app).viewport.committed_cell(index).expect("a shown cell") {
        ViewCell::Source(source) => {
            source.display_lines_for_mode(80, HistoryRenderMode::Rich).join("\n")
        }
        ViewCell::Work(work) => {
            work_row(&work.detail, work.action_count, work.expanded, WorkRowForm::Full)
        }
    }
}

fn shown_count(app: &App) -> usize {
    screen(app).viewport.committed_cell_count()
}

fn frame(area: Rect, mode: HistoryRenderMode) -> Frame {
    Frame {
        area,
        popup_free: true,
        bottom_height: 6,
        wrap_width: area.width,
        render_mode: mode,
        active_key: None,
        fresh: LaneSnapshots { primary: Vec::new(), token: Vec::new(), rate_limit: Vec::new() },
        scrolls: false,
        now: 0,
        step: None,
        restored: None,
    }
}

fn render_app(app: &mut App, width: u16, height: u16) {
    let area = Rect::new(0, 0, width, height);
    let layout = OwnedScreenLayout::Single { slot: app.focused, area, show_header: false };
    let mode = app.parent.facts.render_mode;
    assert_eq!(
        app.render_owned_screen_frame(layout, frame(area, mode), frame(area, mode)),
        Some(area)
    );
}

fn render_split(app: &mut App, height: u16) {
    let area = Rect::new(0, 0, 83, height);
    let layout = OwnedScreenLayout::Split {
        area,
        parent: Rect::new(0, 0, 41, height),
        divider: Rect::new(41, 0, 1, height),
        side: Rect::new(42, 0, 41, height),
    };
    let mode = app.parent.facts.render_mode;
    let parent_frame = Frame { wrap_width: 41, ..frame(area, mode) };
    let side_frame = Frame { wrap_width: 41, ..frame(area, mode) };
    app.render_owned_screen_frame(layout, parent_frame, side_frame);
}

fn still() -> DragFacts {
    DragFacts { restored: None, scrolls: false, now: 0 }
}

fn primary(app: &mut App, kind: MousePrimaryEventKind, x: u16, y: u16) -> bool {
    app.handle_owned_screen_mouse_primary(kind, Position { x, y }, None, still(), None, true).0
}

fn click(app: &mut App, x: u16, y: u16) {
    assert!(primary(app, MousePrimaryEventKind::Press, x, y));
    render_app(app, 80, 12);
    assert!(primary(app, MousePrimaryEventKind::Release, x, y));
}

fn set_raw_mode(app: &mut App, raw: bool) {
    app.parent.facts.render_mode =
        if raw { HistoryRenderMode::Raw } else { HistoryRenderMode::Rich };
    app.sync_owned_screen_render_mode();
    app.sync_owned_screen_cells_with_reason(QuietMetric::FullProjectionGlobalMode);
}

fn show_all(app: &mut App, expanded: bool) {
    app.parent.facts.compact_tool_groups_expanded = expanded;
    app.sync_owned_screen_cells_with_reason(QuietMetric::FullProjectionGlobalMode);
}

#[test]
fn committed_cell_updates_viewport_without_queuing_terminal_history() {
    let mut app = app(true);

    insert(&mut app, plain("retained"));

    assert_eq!(shown_count(&app), 1);
    assert_eq!(app.parent.transcript_cells.len(), 1);
    assert!(!app.has_emitted_history_lines);
    assert!(!app.effects.iter().any(|effect| matches!(effect, Effect::InsertCellLines { .. })));
}

#[test]
fn a_cell_goes_to_the_scrollback_where_no_screen_is_owned() {
    let mut app = app(false);
    let cell = plain("retained");
    let record = cell.id;

    insert(&mut app, cell);

    assert!(!app.has_owned_screen());
    assert!(app
        .effects
        .iter()
        .any(|effect| matches!(effect, Effect::InsertCellLines { record: r, .. } if *r == record)));
}

#[test]
fn owned_grouping_budget_replaces_once_only_after_a_foldable_seal() {
    let mut app = app(true);
    reset_for_test(&mut app.metrics.counters);

    begin_run(&mut app);
    insert(&mut app, completed_read_exec("budget-1", "app.rs"));
    insert(&mut app, completed_read_exec("budget-2", "lib.rs"));

    assert_eq!(count(&app, QuietMetric::SourceAppend), 2);
    assert_eq!(count(&app, QuietMetric::RangeReplacement), 0);
    assert_eq!(count(&app, QuietMetric::FullProjection), 0);
    assert_eq!(shown_count(&app), 2);

    seal_run(&mut app);

    assert_eq!(count(&app, QuietMetric::ToolRunSeal), 1);
    assert_eq!(count(&app, QuietMetric::RangeReplacement), 1);
    assert_eq!(count(&app, QuietMetric::FullProjection), 0);
    assert_eq!(count(&app, QuietMetric::InlineReflow), 0);
    assert_eq!(shown_count(&app), 1);
}

#[test]
fn selection_crossing_a_seal_defers_projection_until_its_anchor_moves() {
    let mut app = app(true);
    begin_run(&mut app);
    insert(&mut app, completed_read_exec("selected-1", "one.rs"));
    insert(&mut app, completed_read_exec("selected-2", "two.rs"));

    let area = Rect::new(/*x*/ 0, /*y*/ 0, /*width*/ 80, /*height*/ 1);
    {
        let screen = screen_mut(&mut app);
        screen.last_conversation_area = area;
        screen.last_pane_area = area;
        screen.viewport.preserve_scroll_offset_through_next_render(/*scroll_offset*/ 0);
        screen.viewport.render(&mut QuietLedger::new(), area, None);
        assert!(!screen.viewport.is_following_bottom());
        assert!(screen.begin_selection(Position { x: 0, y: 0 }, None));
        assert!(screen.update_selection(Position { x: 5, y: 0 }, None, false, 0));
    }

    seal_run(&mut app);

    let groups = compact_tool_group_ids_in_order(&mut QuietLedger::new(), &screen(&app).source_cells);
    assert_eq!(groups.len(), 1);
    let group = groups[0];
    assert!(screen(&app).pending_tool_group_seals.contains(&group));
    assert_eq!(
        shown_count(&app),
        2,
        "source rows must remain expanded while selection is active"
    );

    {
        let App { parent, metrics, .. } = &mut app;
        let screen = parent.owned_screen.as_mut().expect("an owned screen");
        let copied = screen
            .finish_selection(metrics, Position { x: 5, y: 0 }, None, Some("• Expl".to_string()))
            .expect("selected source text");
        assert!(!copied.is_empty());
        screen.resolve_pending_tool_group_seals(metrics);
        assert!(screen.pending_tool_group_seals.contains(&group));
        assert_eq!(
            screen.viewport.committed_cell_count(),
            2,
            "an intersecting viewport must remain anchor-guarded after selection releases"
        );

        for _ in 0..8 {
            screen.viewport.handle_mouse_scroll(MouseScrollDirection::Down, 3);
            screen.viewport.render(&mut QuietLedger::new(), area, None);
            if screen.viewport.is_following_bottom() {
                break;
            }
        }
        assert!(screen.viewport.is_following_bottom());
        screen.resolve_pending_tool_group_seals(metrics);
        assert!(!screen.pending_tool_group_seals.contains(&group));
        assert_eq!(screen.viewport.committed_cell_count(), 1);
        assert!(screen.viewport.is_following_bottom());
    }
}

#[test]
fn run_started_during_selection_folds_after_deferred_cells_commit() {
    let mut app = app(true);
    insert(&mut app, plain("selection anchor"));

    let area = Rect::new(/*x*/ 0, /*y*/ 0, /*width*/ 80, /*height*/ 4);
    {
        let screen = screen_mut(&mut app);
        screen.last_conversation_area = area;
        screen.last_pane_area = area;
        screen.viewport.render(&mut QuietLedger::new(), area, None);
        assert!(screen.begin_selection(Position { x: 0, y: 0 }, None));
        assert!(screen.update_selection(Position { x: 8, y: 0 }, None, false, 0));
    }

    read_run(&mut app, &[("deferred-1", "one.rs"), ("deferred-2", "two.rs")]);

    let groups = compact_tool_group_ids_in_order(&mut QuietLedger::new(), &screen(&app).source_cells);
    assert_eq!(groups.len(), 1);
    let group = groups[0];
    assert!(screen(&app).pending_tool_group_seals.contains(&group));
    assert_eq!(
        shown_count(&app),
        1,
        "tool cells must remain deferred while the original selection is active"
    );

    let App { parent, metrics, .. } = &mut app;
    let screen = parent.owned_screen.as_mut().expect("an owned screen");
    let selected = screen
        .finish_selection(metrics, Position { x: 8, y: 0 }, None, Some("selection".to_string()))
        .expect("selected anchor text");
    assert_eq!(selected, "selection");
    screen.resolve_pending_tool_group_seals(metrics);
    assert!(!screen.pending_tool_group_seals.contains(&group));
    assert_eq!(
        screen.viewport.committed_cell_count(),
        2,
        "the anchor plus one settled Work row should remain"
    );
    assert!(screen.projected_group_position(group).is_some());
}

fn wrapper_at(screen: &OwnedScreen, position: usize) -> Arc<quiet_tui::compact_tool_groups::CompactToolGroupCell> {
    match screen.viewport.committed_cell(position).expect("a group wrapper") {
        ViewCell::Work(work) => Arc::clone(work),
        ViewCell::Source(_) => panic!("no group wrapper"),
    }
}

#[test]
fn a_frame_counts_its_layouts_and_draws() {
    let mut app = app(true);
    for name in ["one", "two", "three"] {
        insert(&mut app, plain(name));
    }
    let before = count(&app, QuietMetric::PreparedCellCacheMiss);
    render_app(&mut app, 80, 12);
    assert_eq!(count(&app, QuietMetric::PreparedCellCacheMiss), before + 3);
    assert_eq!(count(&app, QuietMetric::LayoutVisibleCellDraw), 3);
    assert_eq!(count(&app, QuietMetric::PreparedCellCacheHit), 3);
    render_app(&mut app, 80, 12);
    assert_eq!(count(&app, QuietMetric::PreparedCellCacheMiss), before + 3);
    assert_eq!(count(&app, QuietMetric::LayoutVisibleCellDraw), 6);
    assert_eq!(count(&app, QuietMetric::PreparedCellCacheHit), 6);
    render_app(&mut app, 60, 12);
    assert_eq!(count(&app, QuietMetric::PreparedCellCacheMiss), before + 6);
    assert_eq!(count(&app, QuietMetric::PreparedCellCacheInvalidation), 3);
}

#[test]
fn a_folded_run_takes_one_row_at_every_width() {
    let mut app = app(true);
    read_run(&mut app, &[("row-1", "one.rs"), ("row-2", "two.rs")]);
    let row = PagerItem {
        spaced: false,
        body: ItemBody::Cell {
            cell: ViewCell::Work(wrapper_at(screen(&app), 0)),
            mode: HistoryRenderMode::Rich,
        },
        prepared: None,
    };
    for width in [1_u16, 3, 8, 80] {
        assert_eq!(row.desired_height(width), 1, "width {width}");
    }
}

#[test]
fn background_promotion_dissolves_only_its_group_and_retains_the_suffix_projection() {
    let mut app = app(true);
    read_run(&mut app, &[("background-1", "one.rs"), ("background-2", "two.rs")]);
    read_run(&mut app, &[("suffix-1", "three.rs"), ("suffix-2", "four.rs")]);

    let groups = compact_tool_group_ids_in_order(&mut QuietLedger::new(), &screen(&app).source_cells);
    assert_eq!(groups.len(), 2);
    let (background_group, suffix_group) = (groups[0], groups[1]);
    let suffix_wrapper = {
        let App { parent, metrics, .. } = &mut app;
        let screen = parent.owned_screen.as_mut().expect("an owned screen");
        assert!(screen.apply_tool_group_projection(
            metrics,
            suffix_group,
            /*expanded*/ true,
            /*respect_anchor_guard*/ false,
            RangeReplacementReason::UserToggle,
        ));
        screen.expanded_tool_groups.push(suffix_group);
        screen.tool_group_hover.update(Some(suffix_group));
        screen.last_clicked_tool_group = Some(suffix_group);
        let position = screen.projected_group_position(suffix_group).expect("suffix group header");
        wrapper_at(screen, position)
    };

    reset_for_test(&mut app.metrics.counters);
    let mut lifecycle = BackgroundTerminalLifecycleCell::new(
        "background-1".to_string(),
        "process-1".to_string(),
        "cat one.rs".to_string(),
    );
    lifecycle.activate();
    let promoted = Arc::new(cell(
        "background lifecycle",
        CellKind::BackgroundTerminal(lifecycle),
        vec!["▸ Terminal: cat one.rs".to_string()],
        Vec::new(),
    ));
    assert!(app
        .promote_background_terminal_lifecycle("background-1", promoted, false, true)
        .is_ok());

    let screen = screen(&app);
    let groups = compact_tool_group_ids_in_order(&mut QuietLedger::new(), &screen.source_cells);
    assert!(!groups.contains(&background_group));
    assert!(groups.contains(&suffix_group));
    assert!(screen.expanded_tool_groups.contains(&suffix_group));
    assert_eq!(screen.tool_group_hover.hovered(), Some(suffix_group));
    assert_eq!(screen.last_clicked_tool_group, Some(suffix_group));
    let position =
        screen.projected_group_position(suffix_group).expect("retained suffix group header");
    assert!(Arc::ptr_eq(&suffix_wrapper, &wrapper_at(screen, position)));
    assert_eq!(screen.viewport.committed_cell_count(), 5);
    assert_eq!(count(&app, QuietMetric::RangeReplacement), 1);
    assert_eq!(count(&app, QuietMetric::FullProjection), 0);
}

#[test]
fn structural_prepend_and_backtrack_splice_preserve_unaffected_group_wrappers() {
    let mut app = app(true);
    read_run(&mut app, &[("first-1", "one.rs"), ("first-2", "two.rs")]);
    read_run(&mut app, &[("suffix-1", "three.rs"), ("suffix-2", "four.rs")]);

    let groups = compact_tool_group_ids_in_order(&mut QuietLedger::new(), &screen(&app).source_cells);
    assert_eq!(groups.len(), 2);
    let suffix_group = groups[1];
    let position = screen(&app).projected_group_position(suffix_group).expect("a header");
    let suffix_wrapper = wrapper_at(screen(&app), position);

    reset_for_test(&mut app.metrics.counters);
    let prepended = Arc::new(plain("older page"));
    app.parent.transcript_cells.insert(/*index*/ 0, Arc::clone(&prepended));
    assert!(app.splice_owned_screen_source_cells(
        /*source_index*/ 0,
        /*remove_count*/ 0,
        vec![prepended],
    ));

    assert!(screen(&app).source_cells_match(&app.parent.transcript_cells));
    assert_eq!(shown_count(&app), 3);
    assert_eq!(shown_text(&app, 0), "older page");
    let position = screen(&app).projected_group_position(suffix_group).expect("a header");
    assert!(Arc::ptr_eq(&suffix_wrapper, &wrapper_at(screen(&app), position)));
    assert_eq!(count(&app, QuietMetric::RangeReplacement), 1);
    assert_eq!(count(&app, QuietMetric::FullProjection), 0);

    assert!(app.splice_owned_screen_source_cells(
        /*source_index*/ 0,
        /*remove_count*/ 1,
        Vec::new(),
    ));
    app.parent.transcript_cells.remove(/*index*/ 0);
    assert!(screen(&app).source_cells_match(&app.parent.transcript_cells));
    let position = screen(&app).projected_group_position(suffix_group).expect("a header");
    assert!(Arc::ptr_eq(&suffix_wrapper, &wrapper_at(screen(&app), position)));
    assert_eq!(count(&app, QuietMetric::RangeReplacement), 2);
    assert_eq!(count(&app, QuietMetric::FullProjection), 0);
}

#[test]
fn singleton_seal_budget_keeps_the_ordinary_row() {
    let mut app = app(true);
    reset_for_test(&mut app.metrics.counters);

    read_run(&mut app, &[("singleton", "main.rs")]);

    assert_eq!(count(&app, QuietMetric::SourceAppend), 1);
    assert_eq!(count(&app, QuietMetric::ToolRunSeal), 1);
    assert_eq!(count(&app, QuietMetric::RangeReplacement), 0);
    assert_eq!(shown_count(&app), 1);
}

#[test]
fn source_append_open_metric_counts_only_cells_that_leave_a_run_open() {
    let mut app = app(true);
    reset_for_test(&mut app.metrics.counters);

    insert(&mut app, plain("ordinary barrier"));
    begin_run(&mut app);
    insert(&mut app, completed_read_exec("metric-read", "main.rs"));
    insert(&mut app, plain("closing barrier"));

    assert_eq!(count(&app, QuietMetric::SourceAppend), 3);
    assert_eq!(
        count(&app, QuietMetric::SourceAppendOpen),
        1,
        "ordinary and sealing barrier appends must not inherit the open-run dimension"
    );
}

fn seal_reflows(app: &App) -> usize {
    app.effects
        .iter()
        .filter(|effect| {
            matches!(effect, Effect::ReflowTranscript(InlineReflowReason::Seal))
        })
        .count()
}

#[test]
fn inline_grouping_budget_reflows_once_at_the_foldable_seal() {
    let mut app = app(false);
    reset_for_test(&mut app.metrics.counters);

    begin_run(&mut app);
    insert(&mut app, completed_read_exec("inline-1", "app.rs"));
    insert(&mut app, completed_read_exec("inline-2", "lib.rs"));
    assert_eq!(seal_reflows(&app), 0);

    seal_run(&mut app);

    assert_eq!(seal_reflows(&app), 1);
    assert_eq!(count(&app, QuietMetric::RangeReplacement), 0);
}

#[test]
fn owned_tool_groups_toggle_between_compact_expanded_and_raw_projections() {
    let mut app = app(true);
    read_run(&mut app, &[("read-1", "app.rs"), ("read-2", "lib.rs")]);

    assert_eq!(app.parent.transcript_cells.len(), 3);
    assert_eq!(shown_count(&app), 1, "rich mode should retain one group");
    show_all(&mut app, true);
    assert_eq!(shown_count(&app), 2);
    show_all(&mut app, false);
    assert_eq!(shown_count(&app), 1);
    set_raw_mode(&mut app, true);
    assert_eq!(shown_count(&app), 2, "raw mode should expose source cells");
    set_raw_mode(&mut app, false);
    assert_eq!(shown_count(&app), 1, "rich mode should restore grouping");
}

fn inspected_text(app: &mut App) -> String {
    screen_mut(app)
        .inspection_cells(&mut QuietLedger::new())
        .expect("Work source")
        .iter()
        .flat_map(|cell| cell.display_lines_for_mode(80, HistoryRenderMode::Rich))
        .collect()
}

#[test]
fn work_inspection_prefers_clicked_then_hovered_then_visible_then_latest() {
    let mut app = app(true);
    for (turn, first, second) in [
        ("first", "one.rs", "two.rs"),
        ("second", "three.rs", "four.rs"),
        ("third", "five.rs", "six.rs"),
    ] {
        read_run(
            &mut app,
            &[(&format!("{turn}-1"), first), (&format!("{turn}-2"), second)],
        );
    }

    let groups = compact_tool_group_ids_in_order(&mut QuietLedger::new(), &screen(&app).source_cells);
    assert_eq!(groups.len(), 3);

    screen_mut(&mut app).last_clicked_tool_group = Some(groups[0]);
    screen_mut(&mut app).tool_group_hover.update(Some(groups[1]));
    let clicked = inspected_text(&mut app);
    assert!(clicked.contains("one.rs"));
    assert!(!clicked.contains("three.rs"));

    screen_mut(&mut app).last_clicked_tool_group = None;
    let hovered = inspected_text(&mut app);
    assert!(hovered.contains("three.rs"));
    assert!(!hovered.contains("five.rs"));

    {
        let screen = screen_mut(&mut app);
        screen.tool_group_hover.update(None);
        screen.last_conversation_area =
            Rect::new(/*x*/ 0, /*y*/ 0, /*width*/ 80, /*height*/ 1);
        screen.viewport.preserve_scroll_offset_through_next_render(/*scroll_offset*/ 0);
        let area = screen.last_conversation_area;
        screen.viewport.render(&mut QuietLedger::new(), area, None);
    }
    let visible = inspected_text(&mut app);
    assert!(visible.contains("one.rs"));
    assert!(!visible.contains("five.rs"));

    screen_mut(&mut app).last_conversation_area = Rect::new(0, 0, 0, 0);
    let latest = inspected_text(&mut app);
    assert!(latest.contains("five.rs"));
    assert!(!latest.contains("one.rs"));
}

#[test]
fn clicking_work_header_expands_and_collapses_without_losing_sources() {
    let mut app = app(true);
    read_run(&mut app, &[("read-1", "app.rs"), ("read-2", "lib.rs")]);
    render_app(&mut app, 80, 12);

    assert!(shown_text(&app, 0).starts_with("▸ Work"));
    click(&mut app, 0, 0);

    assert_eq!(shown_count(&app), 3);
    assert!(shown_text(&app, 0).starts_with("▾ Work"));
    assert!(shown_text(&app, 1).contains("app.rs"));
    assert!(shown_text(&app, 2).contains("lib.rs"));

    render_app(&mut app, 80, 12);
    click(&mut app, 0, 0);

    assert_eq!(shown_count(&app), 1);
    assert!(shown_text(&app, 0).starts_with("▸ Work"));
}

#[test]
fn hovering_work_header_only_redraws_on_target_changes() {
    let mut app = app(true);
    read_run(&mut app, &[("read-1", "app.rs"), ("read-2", "lib.rs")]);
    render_app(&mut app, 80, 12);
    let conversation = screen(&app).last_conversation_area;

    let header = Position { x: conversation.right() - 1, y: conversation.y };
    assert!(app.handle_owned_screen_mouse_move(header));
    assert!(
        !app.handle_owned_screen_mouse_move(header),
        "moving within the same Work target should not request another redraw"
    );

    let page_up =
        NavigationKey { kind: KeyEventKind::Press, code: KeyCode::Other, plain_text: false };
    assert!(app.handle_owned_screen_navigation_key(page_up, Some(0)));
    assert_eq!(
        screen(&app).tool_group_hover.hovered(),
        None,
        "keyboard navigation can move rows and must invalidate the old pointer hit"
    );
    assert!(app.handle_owned_screen_mouse_move(header));
    let outside = Position { x: conversation.x, y: conversation.y + 1 };
    assert!(app.handle_owned_screen_mouse_move(outside));
    assert!(
        !app.handle_owned_screen_mouse_move(outside),
        "remaining outside a Work target should not request another redraw"
    );
}

#[test]
fn work_hover_is_pane_local_and_clears_on_focus_loss() {
    let mut app = app_with_side();
    read_run(&mut app, &[("parent-1", "parent-a.rs"), ("parent-2", "parent-b.rs")]);
    app.focused = PaneSlot::Side;
    read_run(&mut app, &[("side-1", "side-a.rs"), ("side-2", "side-b.rs")]);
    app.focused = PaneSlot::Parent;
    render_split(&mut app, 14);
    let area = side_screen(&app).last_conversation_area;

    assert!(app.handle_owned_screen_mouse_move(Position { x: area.x, y: area.y }));
    assert_eq!(screen(&app).tool_group_hover.hovered(), None);
    assert!(side_screen(&app).tool_group_hover.hovered().is_some());

    assert!(app.clear_owned_screen_tool_group_hover());
    assert_eq!(side_screen(&app).tool_group_hover.hovered(), None);
}

#[test]
fn work_header_click_survives_a_tool_completion_between_press_and_release() {
    let mut app = app(true);
    read_run(&mut app, &[("read-1", "app.rs"), ("read-2", "lib.rs")]);
    render_app(&mut app, 80, 12);

    assert!(primary(&mut app, MousePrimaryEventKind::Press, 0, 0));
    insert(&mut app, completed_read_exec("read-3", "main.rs"));
    render_app(&mut app, 80, 12);
    assert!(primary(&mut app, MousePrimaryEventKind::Release, 0, 0));

    assert_eq!(shown_count(&app), 4);
    assert!(shown_text(&app, 0).starts_with("▾ Work"));
    assert!(shown_text(&app, 3).contains("main.rs"));
}

/// The screen cells that are drawn as hovered.
fn hover_mask(app: &mut App, area: Rect) -> String {
    let screen = screen_mut(app);
    (area.y..area.bottom())
        .map(|y| {
            (area.x..area.right())
                .map(|x| match screen.compact_tool_group_header_at(Position { x, y }) {
                    Some(id) if screen.tool_group_hover.contains(id) => '#',
                    _ => '.',
                })
                .collect::<String>()
        })
        .collect::<Vec<_>>()
        .join("\n")
}

#[test]
fn source_mutation_clears_hover_and_raw_mode_cannot_reacquire_it() {
    let mut app = app(true);
    read_run(&mut app, &[("read-1", "app.rs"), ("read-2", "lib.rs")]);
    render_app(&mut app, 80, 12);
    let conversation = screen(&app).last_conversation_area;
    let corner = Position { x: conversation.x, y: conversation.y };

    assert!(app.handle_owned_screen_mouse_move(corner));
    let rows = Rect::new(conversation.x, conversation.y, conversation.width, 2);
    assert_eq!(hover_mask(&mut app, rows), format!("{}\n{}", "#".repeat(80), ".".repeat(80)));
    insert(&mut app, plain("following response"));
    assert_eq!(
        screen(&app).tool_group_hover.hovered(),
        None,
        "a source mutation can move rows and must invalidate the old pointer hit"
    );

    set_raw_mode(&mut app, true);
    render_app(&mut app, 80, 12);
    assert!(
        !app.handle_owned_screen_mouse_move(corner),
        "raw source rows are not clickable Work headers"
    );
    assert_eq!(screen(&app).tool_group_hover.hovered(), None);
    let rows = Rect::new(conversation.x, conversation.y, conversation.width, 2);
    assert_eq!(hover_mask(&mut app, rows), format!("{}\n{}", ".".repeat(80), ".".repeat(80)));
}

#[test]
fn side_pane_work_click_changes_only_the_clicked_pane() {
    let mut app = app_with_side();
    read_run(&mut app, &[("parent-1", "parent-a.rs"), ("parent-2", "parent-b.rs")]);
    app.focused = PaneSlot::Side;
    read_run(&mut app, &[("side-1", "side-a.rs"), ("side-2", "side-b.rs")]);
    app.focused = PaneSlot::Parent;
    render_split(&mut app, 14);
    let area = side_screen(&app).last_conversation_area;

    assert!(primary(&mut app, MousePrimaryEventKind::Press, area.x, area.y));
    render_split(&mut app, 14);
    assert!(primary(&mut app, MousePrimaryEventKind::Release, area.x, area.y));

    assert_eq!(app.focused, PaneSlot::Side);
    assert_eq!(shown_count(&app), 1);
    assert_eq!(side_screen(&app).viewport.committed_cell_count(), 3);
}

#[test]
fn expanding_tall_work_group_keeps_header_anchored_across_a_pre_render_commit() {
    let mut app = app(true);
    begin_run(&mut app);
    for index in 0..8 {
        insert(
            &mut app,
            completed_read_exec(&format!("read-{index}"), &format!("file-{index}.rs")),
        );
    }
    seal_run(&mut app);
    render_app(&mut app, 80, 8);
    assert_eq!(screen(&app).viewport.scroll_offset(), 0);

    assert!(primary(&mut app, MousePrimaryEventKind::Press, 0, 0));
    render_app(&mut app, 80, 8);
    assert!(primary(&mut app, MousePrimaryEventKind::Release, 0, 0));

    insert(&mut app, completed_read_exec("read-8", "file-8.rs"));
    render_app(&mut app, 80, 8);
    assert!(shown_text(&app, 0).starts_with("▾ Work"));
    assert_eq!(screen(&app).viewport.scroll_offset(), 0, "the header stays in the first row");
    assert!(!screen(&app).viewport.is_following_bottom());
}

#[test]
fn dragging_from_work_header_selects_without_toggling() {
    let mut app = app(true);
    read_run(&mut app, &[("read-1", "app.rs"), ("read-2", "lib.rs")]);
    render_app(&mut app, 80, 12);

    assert!(primary(&mut app, MousePrimaryEventKind::Press, 0, 0));
    assert!(primary(&mut app, MousePrimaryEventKind::Drag, 6, 0));
    let (handled, copied) = app.handle_owned_screen_mouse_primary(
        MousePrimaryEventKind::Release,
        Position { x: 6, y: 0 },
        None,
        still(),
        Some("▸ Work:".to_string()),
        true,
    );
    assert!(handled);
    assert_eq!(copied.as_deref(), Some("▸ Work:"));
    assert!(app
        .effects
        .iter()
        .any(|effect| matches!(effect, Effect::CopySelectedText(PaneSlot::Parent))));

    assert_eq!(shown_count(&app), 1);
    assert!(shown_text(&app, 0).starts_with("▸ Work"));
}

#[test]
fn per_group_expansion_survives_show_all_raw_mode_and_a_growing_tool_tail() {
    let mut app = app(true);
    read_run(&mut app, &[("read-1", "app.rs"), ("read-2", "lib.rs")]);
    render_app(&mut app, 80, 12);
    click(&mut app, 0, 0);

    show_all(&mut app, true);
    assert_eq!(shown_count(&app), 2);
    show_all(&mut app, false);
    assert_eq!(shown_count(&app), 3);
    assert!(shown_text(&app, 0).starts_with("▾ Work"));

    set_raw_mode(&mut app, true);
    assert_eq!(shown_count(&app), 2);
    set_raw_mode(&mut app, false);
    assert_eq!(shown_count(&app), 3);

    insert(&mut app, completed_read_exec("read-3", "main.rs"));
    assert_eq!(shown_count(&app), 4);
    assert!(shown_text(&app, 0).starts_with("▾ Work"));
    assert!(shown_text(&app, 3).contains("main.rs"));
}

fn sealed_read_cells(
    lifecycle: &mut ToolRunLifecycle,
    turn: &str,
    reads: &[(&str, &str)],
) -> Vec<Arc<HistoryCell>> {
    let mut cells = Vec::new();
    lifecycle.begin_turn(turn.to_string());
    for (call_id, name) in reads {
        let cell = completed_read_exec(call_id, name);
        if let Some(seal) = lifecycle.before_source_append(&mut QuietLedger::new(), &cell) {
            cells.push(seal_record(seal));
        }
        cells.push(Arc::new(cell));
    }
    if let Some(seal) = lifecycle.seal_turn(turn) {
        cells.push(seal_record(seal));
    }
    cells
}

#[test]
fn replacing_sources_prunes_expanded_ids_even_while_showing_all() {
    let mut app = app(true);
    read_run(&mut app, &[("old-1", "old-a.rs"), ("old-2", "old-b.rs")]);
    render_app(&mut app, 80, 12);
    click(&mut app, 0, 0);
    assert_eq!(screen(&app).expanded_tool_groups.len(), 1);

    let replacement = sealed_read_cells(
        &mut app.parent.tool_run_lifecycle,
        "replacement-turn",
        &[("new-1", "new-a.rs"), ("new-2", "new-b.rs")],
    );
    let App { parent, metrics, .. } = &mut app;
    let screen = parent.owned_screen.as_mut().expect("an owned screen");
    screen.replace_source_cells(
        metrics,
        replacement.clone(),
        /*compact_tool_groups*/ false,
        QuietMetric::FullProjectionGlobalMode,
    );
    assert!(screen.expanded_tool_groups.is_empty());
    screen.replace_source_cells(
        metrics,
        replacement,
        /*compact_tool_groups*/ true,
        QuietMetric::FullProjectionGlobalMode,
    );

    assert_eq!(screen.viewport.committed_cell_count(), 1);
    assert!(shown_text(&app, 0).starts_with('▸'));
}

#[test]
fn replay_retains_cells_while_draw_scheduling_is_deferred() {
    let mut app = app(true);
    app.begin_owned_screen_replay();
    insert(&mut app, plain("first"));
    insert(&mut app, plain("second"));

    assert!(app.owned_screen_replay_in_progress());
    assert!(!app.effects.iter().any(|effect| matches!(effect, Effect::ScheduleFrame)));
    assert_eq!(shown_count(&app), 2);

    app.finish_owned_screen_replay();
    assert!(!app.owned_screen_replay_in_progress());

    insert(&mut app, plain("third"));
    assert!(app.effects.iter().any(|effect| matches!(effect, Effect::ScheduleFrame)));
    render_app(&mut app, 80, 12);
    assert!(screen(&app).last_rendered_conversation_area.height > 0);
    assert_eq!(shown_count(&app), 3);
}

#[test]
fn replay_end_seals_trailing_tool_run() {
    let mut app = app(true);
    reset_for_test(&mut app.metrics.counters);
    app.begin_owned_screen_replay();
    begin_run(&mut app);
    insert(&mut app, completed_read_exec("replay-read-1", "app.rs"));
    insert(&mut app, completed_read_exec("replay-read-2", "lib.rs"));
    assert_eq!(shown_count(&app), 2);

    assert!(app.seal_trailing_tool_run(4_000).is_some());
    app.finish_owned_screen_replay();
    app.sync_owned_screen_cells_with_reason(QuietMetric::FullProjectionReplayCommit);

    assert_eq!(count(&app, QuietMetric::ToolRunSeal), 1);
    assert_eq!(app.parent.transcript_cells.len(), 3);
    assert_eq!(shown_count(&app), 1);
    assert!(shown_text(&app, 0).contains("Work"));
}

#[test]
fn navigation_preserves_composer_keys_and_draft_input() {
    let mut app = app(true);
    let key = |code, plain_text| NavigationKey { kind: KeyEventKind::Press, code, plain_text };
    let cases = [
        (key(KeyCode::Other, true), Some(0), false),
        (key(KeyCode::Up, false), Some(0), false),
        (key(KeyCode::Down, false), Some(0), false),
        (key(KeyCode::Home, false), Some(0), false),
        (key(KeyCode::Other, false), None, false),
        (key(KeyCode::Other, false), Some(0), true),
    ];
    for (key, target, expected) in cases {
        assert_eq!(app.handle_owned_screen_navigation_key(key, target), expected);
    }

    app.parent.facts.composer_is_empty = false;
    assert!(!app.handle_owned_screen_navigation_key(key(KeyCode::Other, false), Some(0)));
}

#[test]
fn mouse_wheel_routes_by_pointer_without_changing_focus() {
    let mut app = app_with_side();
    for slot in [PaneSlot::Parent, PaneSlot::Side] {
        app.focused = slot;
        for text in ["one", "two", "three", "four", "five", "six", "seven", "eight"] {
            insert(&mut app, plain(text));
        }
    }
    app.focused = PaneSlot::Parent;
    render_split(&mut app, 10);
    let parent_area = screen(&app).last_conversation_area;
    let side_area = side_screen(&app).last_conversation_area;

    assert!(app.handle_owned_screen_mouse_scroll(
        MouseScrollDirection::Up,
        3,
        Position { x: parent_area.x, y: parent_area.y },
        still(),
    ));
    assert_eq!(app.focused, PaneSlot::Parent);
    assert!(!screen(&app).viewport.is_following_bottom());
    assert!(side_screen(&app).viewport.is_following_bottom());

    assert!(app.handle_owned_screen_mouse_scroll(
        MouseScrollDirection::Up,
        3,
        Position { x: side_area.x, y: side_area.y },
        still(),
    ));
    assert_eq!(app.focused, PaneSlot::Parent);
    assert!(!side_screen(&app).viewport.is_following_bottom());
}

#[test]
fn mouse_wheel_routes_to_the_pane_with_an_active_selection() {
    let mut app = app_with_side();
    for slot in [PaneSlot::Parent, PaneSlot::Side] {
        app.focused = slot;
        for text in ["one", "two", "three", "four", "five", "six", "seven", "eight"] {
            insert(&mut app, plain(text));
        }
    }
    app.focused = PaneSlot::Parent;
    render_split(&mut app, 10);
    let parent_area = screen(&app).last_conversation_area;
    let side_area = side_screen(&app).last_conversation_area;
    assert!(primary(
        &mut app,
        MousePrimaryEventKind::Press,
        parent_area.x,
        parent_area.bottom() - 1
    ));
    assert!(primary(&mut app, MousePrimaryEventKind::Drag, parent_area.x, parent_area.y));

    assert!(app.handle_owned_screen_mouse_scroll(
        MouseScrollDirection::Up,
        3,
        Position { x: side_area.x, y: side_area.y },
        still(),
    ));

    assert!(!screen(&app).viewport.is_following_bottom());
    assert!(side_screen(&app).viewport.is_following_bottom());
    assert!(screen(&app).selection_is_active());
}

#[test]
fn narrow_side_clears_parent_hit_area_before_wheel_routing() {
    let mut app = app_with_side();
    for slot in [PaneSlot::Parent, PaneSlot::Side] {
        app.focused = slot;
        for text in ["one", "two", "three", "four", "five", "six"] {
            insert(&mut app, plain(text));
        }
    }
    render_split(&mut app, 9);
    render_app(&mut app, 82, 9);
    let side_area = side_screen(&app).last_conversation_area;
    assert!(side_area.height > 0);

    assert!(app.handle_owned_screen_mouse_scroll(
        MouseScrollDirection::Up,
        3,
        Position { x: side_area.x, y: side_area.y },
        still(),
    ));
    assert!(screen(&app).viewport.is_following_bottom());
    assert!(!side_screen(&app).viewport.is_following_bottom());
}

#[test]
fn primary_press_focuses_the_pane_under_the_pointer() {
    let mut app = app_with_side();
    insert(&mut app, plain("parent transcript"));
    app.focused = PaneSlot::Side;
    insert(&mut app, plain("side transcript"));
    app.focused = PaneSlot::Parent;
    render_split(&mut app, 16);
    let parent_area = screen(&app).last_pane_area;
    let side_area = side_screen(&app).last_pane_area;

    app.backtrack_primed = true;
    assert!(primary(&mut app, MousePrimaryEventKind::Press, side_area.x, side_area.y));
    assert_eq!(app.focused, PaneSlot::Side);
    assert!(!app.backtrack_primed);
    assert!(primary(&mut app, MousePrimaryEventKind::Press, parent_area.x, parent_area.y));
    assert_eq!(app.focused, PaneSlot::Parent);
    assert!(!primary(&mut app, MousePrimaryEventKind::Press, parent_area.right(), parent_area.y));
    assert!(!primary(&mut app, MousePrimaryEventKind::Press, side_area.right(), side_area.y));
    assert_eq!(app.focused, PaneSlot::Parent);
}

#[test]
fn the_pointer_is_dropped_behind_a_popup() {
    let mut app = app_with_side();
    render_split(&mut app, 16);
    let side_area = side_screen(&app).last_pane_area;
    app.parent.facts.no_modal_or_popup_active = false;
    assert!(!primary(&mut app, MousePrimaryEventKind::Press, side_area.x, side_area.y));
    assert_eq!(app.focused, PaneSlot::Parent);
}

#[test]
fn a_divider_that_takes_the_event_leaves_the_panes_alone() {
    let mut app = app_with_side();
    render_split(&mut app, 16);
    let (handled, copied) = app.handle_owned_screen_mouse_primary(
        MousePrimaryEventKind::Press,
        Position { x: 41, y: 3 },
        Some(true),
        still(),
        None,
        true,
    );
    assert!(handled);
    assert!(copied.is_none());
    assert!(app.split_is_dragging);
    assert_eq!(app.focused, PaneSlot::Parent);
    assert!(!screen(&app).selection_is_active());
}

#[test]
fn owned_resize_waits_for_a_quiet_period_before_rendering() {
    let mut app = app(true);
    insert(&mut app, plain("one"));
    insert(&mut app, plain("two"));

    assert!(app.schedule_owned_resize_draw(/*due*/ 100, /*debounce*/ 75));
    let first_deadline = app.parent.reflow_pending_until.expect("owned resize deadline");
    assert_eq!(first_deadline, 100);
    assert!(app
        .effects
        .iter()
        .any(|effect| matches!(effect, Effect::ScheduleFrameIn(75))));
    assert!(app.defer_owned_draw_until_resize_quiet(/*now*/ 50));
    assert!(app
        .effects
        .iter()
        .any(|effect| matches!(effect, Effect::ScheduleFrameIn(50))));
    assert_eq!(screen(&app).last_rendered_conversation_area, Rect::new(0, 0, 0, 0));

    assert!(app.schedule_owned_resize_draw(/*due*/ 140, /*debounce*/ 75));
    let renewed = app.parent.reflow_pending_until.expect("renewed owned resize deadline");
    assert!(renewed >= first_deadline);
    assert!(app.defer_owned_draw_until_resize_quiet(/*now*/ 100));

    assert!(!app.defer_owned_draw_until_resize_quiet(/*now*/ 140));
    assert!(app.handle_owned_draw_pre_render(true));
    render_app(&mut app, 80, 12);
    let rendered = screen(&app).last_rendered_conversation_area;
    assert!(rendered.width > 0 && rendered.height > 0);
    assert!(app.parent.reflow_pending_until.is_none());
    assert!(!app.defer_owned_draw_until_resize_quiet(/*now*/ 141));
}

#[test]
fn usage_cards_wait_until_nothing_blocks_them() {
    let mut app = app(true);
    app.parent.completed_token_activity = Some(Arc::new(plain("token activity")));
    app.parent.rate_limit_reset_hint = Some(Arc::new(plain("rate limit")));
    app.parent.facts.usage_history_insertion_blocked = true;
    assert!(app.pending_usage_output_insertion_blocked());
    app.insert_pending_usage_output_if_ready(5_000, 5_001);
    assert_eq!(shown_count(&app), 0);

    app.parent.facts.usage_history_insertion_blocked = false;
    app.insert_pending_usage_output_if_ready(5_000, 5_001);
    assert_eq!(shown_count(&app), 2);
    assert_eq!(shown_text(&app, 0), "token activity");
    assert_eq!(shown_text(&app, 1), "rate limit");
    assert!(app.parent.completed_token_activity.is_none());
    assert!(app.parent.rate_limit_reset_hint.is_none());
}

#[test]
fn clearing_forgets_the_conversation_but_not_its_run_ids() {
    let mut app = app(true);
    read_run(&mut app, &[("read-1", "app.rs"), ("read-2", "lib.rs")]);
    begin_run(&mut app);
    insert(&mut app, completed_read_exec("open", "open.rs"));
    app.reset_app_ui_state_after_clear();
    assert!(app.parent.transcript_cells.is_empty());
    assert_eq!(shown_count(&app), 0);
    assert!(!app.parent.tool_run_lifecycle.is_active());
    assert_eq!(app.parent.tool_run_lifecycle.next_run_id, 3);
}

#[test]
fn a_terminal_that_cannot_be_cleared_is_reported() {
    let mut app = app(true);
    assert!(app.clear_terminal_ui(true, false, 0, false, "1.2.3", header_record).is_err());
    assert!(app.clear_terminal_ui(true, true, 3, false, "1.2.3", header_record).is_ok());
    assert_eq!(shown_count(&app), 0);
    let mut inline = app_inline();
    assert!(inline.promote_background_terminal_lifecycle(
        "missing",
        Arc::new(plain("card")),
        false,
        false,
    )
    .is_err());
}

fn app_inline() -> App {
    app(false)
}

fn header_record(header: SessionHeader) -> Arc<HistoryCell> {
    let text = format!(
        "{} {} {} {}",
        header.model,
        header.reasoning_effort.unwrap_or_default(),
        header.version,
        header.cwd
    );
    Arc::new(plain(&text))
}

#[test]
fn a_cleared_terminal_shows_the_header_of_its_session() {
    let mut app = app(true);
    app.session.reasoning_effort = Some("high".to_string());
    assert!(app.clear_terminal_ui(true, true, 3, true, "1.2.3", header_record).is_ok());
    assert_eq!(shown_count(&app), 1);
    assert_eq!(shown_text(&app, 0), "model high 1.2.3 /repo");
    assert!(app.effects.iter().any(|effect| matches!(effect, Effect::AnchorViewportAtTop)));
    assert!(app.effects.iter().any(|effect| matches!(effect, Effect::ScheduleFrame)));
    assert_eq!(app.session.model, "model");
}

#[test]
fn an_app_starts_with_nothing_held_back_and_nothing_counted() {
    let app = app(true);
    assert_eq!(app.focused, PaneSlot::Parent);
    assert!(app.side.is_none());
    assert!(app.effects.is_empty());
    assert!(!app.has_emitted_history_lines);
    for metric in [
        QuietMetric::SourceAppend,
        QuietMetric::ToolRunSeal,
        QuietMetric::ClassificationOutputScan,
        QuietMetric::LiveTailMaxRows,
    ] {
        assert_eq!(count(&app, metric), 0);
    }
}

#[test]
fn header_lines_are_laid_out_for_the_session() {
    let app = app(true);
    let lines = app.clear_ui_header_lines(40, "quiet 1.2.3", |header, width| {
        vec![header.model, header.version, width.to_string()]
    });
    assert_eq!(lines, vec!["model", "quiet 1.2.3", "40"]);
}

#[test]
fn a_pane_is_found_by_its_slot() {
    let single = app(true);
    assert!(single.by_slot(PaneSlot::Parent).is_some());
    assert!(single.by_slot(PaneSlot::Side).is_none());
    assert!(app_with_side().by_slot(PaneSlot::Side).is_some());
}

#[test]
fn an_activity_frame_draws_the_bottom_band_alone() {
    let mut app = app(true);
    assert!(!app.render_owned_activity_frame(true));
    app.parent.facts.activity_animation_active = true;
    assert!(!app.owned_activity_animation_active());
    render_app(&mut app, 80, 12);
    assert!(app.owned_activity_animation_active());
    let band = screen(&app).last_bottom_area;
    assert!(app.render_owned_activity_frame(true));
    assert!(app
        .effects
        .iter()
        .any(|effect| matches!(effect, Effect::DrawPartial(area) if *area == band)));
}

#[test]
fn both_panes_follow_the_mode_of_their_groups() {
    let mut app = app_with_side();
    read_run(&mut app, &[("parent-1", "parent-a.rs"), ("parent-2", "parent-b.rs")]);
    app.focused = PaneSlot::Side;
    read_run(&mut app, &[("side-1", "side-a.rs"), ("side-2", "side-b.rs")]);
    app.focused = PaneSlot::Parent;
    app.parent.facts.compact_tool_groups_expanded = true;
    app.side.as_mut().expect("a side pane").facts.compact_tool_groups_expanded = true;
    app.sync_all_owned_screen_cells();
    assert_eq!(shown_count(&app), 2);
    assert_eq!(side_screen(&app).viewport.committed_cell_count(), 2);
}

#[test]
fn an_inspection_takes_classified_cells_from_the_memo() {
    let mut app = app(true);
    assert!(app.owned_screen_tool_group_inspection_cells().is_none());
    read_run(&mut app, &[("read-1", "app.rs"), ("read-2", "lib.rs")]);
    reset_for_test(&mut app.metrics.counters);
    let cells = app.owned_screen_tool_group_inspection_cells().expect("Work source");
    assert_eq!(cells.len(), 2);
    assert_eq!(count(&app, QuietMetric::ClassificationOutputScan), 0);
    assert!(count(&app, QuietMetric::ClassificationCacheHit) > 0);
    assert_eq!(count(&app, QuietMetric::ClassificationCacheMiss), 0);
    assert_eq!(count(&app, QuietMetric::ClassificationInFlightBypass), 0);
    assert_eq!(count(&app, QuietMetric::SealClassificationDivergence), 0);
}

#[test]
fn usage_cards_follow_the_end_of_a_stream() {
    let mut app = app(true);
    app.parent.completed_token_activity = Some(Arc::new(plain("token activity")));
    app.parent.facts.usage_history_insertion_blocked = true;
    app.insert_pending_usage_output_after_stream_shutdown(5_000, 5_001);
    assert_eq!(shown_count(&app), 0);
    app.parent.facts.usage_history_insertion_blocked = false;
    app.insert_pending_usage_output_after_stream_shutdown(5_000, 5_001);
    assert_eq!(shown_count(&app), 1);
    assert_eq!(shown_text(&app, 0), "token activity");
}

fn card_lines(card: &BackgroundTerminalLifecycleCell) -> RecordLines {
    let rich = match card.display_lines(80, 0) {
        Some(card) => vec![card.header.iter().map(|span| span.text.clone()).collect::<String>()],
        None => Vec::new(),
    };
    RecordLines { rich, raw: card.raw_lines(0) }
}

#[test]
fn later_events_change_the_one_committed_card() {
    let mut app = app(true);
    insert(&mut app, plain("before"));
    insert(&mut app, completed_read_exec("call-9", "app.rs"));
    insert(&mut app, plain("after"));
    let mut card = BackgroundTerminalLifecycleCell::new(
        "call-9".to_string(),
        "proc-9".to_string(),
        "make check".to_string(),
    );
    card.activate();
    let lines = card_lines(&card);
    let promoted = cell("card", CellKind::BackgroundTerminal(card), lines.rich, lines.raw);
    let record = promoted.id;
    app.promote_background_terminal_lifecycle("call-9", Arc::new(promoted), false, true)
        .expect("shown");
    let records = app.parent.transcript_cells.len();
    assert_eq!(shown_count(&app), 3);
    assert_eq!(
        shown_text(&app, 1),
        "▸ Terminal: make check · running 0s · Ctrl+T details"
    );

    assert!(!app.update_background_terminal("missing", TerminalEvent::Activated, card_lines));
    assert!(app.update_background_terminal(
        "call-9",
        TerminalEvent::Interaction(String::new()),
        card_lines,
    ));
    assert!(app.update_background_terminal(
        "call-9",
        TerminalEvent::Output("building\n".to_string()),
        card_lines,
    ));
    assert!(app.update_background_terminal(
        "call-9",
        TerminalEvent::Completed {
            exit_code: 0,
            duration: Some("3.00s".to_string()),
            elapsed: "9s".to_string(),
            aggregated_output: Some("ok\n".to_string()),
        },
        card_lines,
    ));
    app.refresh_lifecycle_history(false, true).expect("shown");

    assert_eq!(app.parent.transcript_cells.len(), records);
    assert_eq!(app.parent.transcript_cells[1].id, record);
    assert_eq!(shown_count(&app), 3);
    assert_eq!(shown_text(&app, 0), "before");
    assert_eq!(
        shown_text(&app, 1),
        "▸ Terminal: make check · 1 interaction · completed in 3.00s · Ctrl+T details"
    );
    assert_eq!(shown_text(&app, 2), "after");
    assert!(screen(&app).source_cells_match(&app.parent.transcript_cells));
    let raw = app.parent.transcript_cells[1].display_lines_for_mode(80, HistoryRenderMode::Raw);
    assert!(raw.join("\n").contains("[output]\nok"));
}

#[test]
fn lifecycle_cells_replay_from_shared_source_state() {
    let new_card = || {
        BackgroundTerminalLifecycleCell::new(
            "call-replay".to_string(),
            "proc-replay".to_string(),
            "make check".to_string(),
        )
    };
    let mut app = app(true);
    app.overlay = Overlay::Transcript(Vec::new());
    let committed = cell("card", CellKind::BackgroundTerminal(new_card()), Vec::new(), Vec::new());
    app.promote_background_terminal_lifecycle("call-replay", Arc::new(committed), false, true)
        .expect("shown");

    let mut card = new_card();
    card.activate();
    card.record_interaction(String::new());
    card.complete(
        0,
        Some("3.00s".to_string()),
        "0ms".to_string(),
        Some("ok\n".to_string()),
    );
    for event in [
        TerminalEvent::Activated,
        TerminalEvent::Interaction(String::new()),
        TerminalEvent::Completed {
            exit_code: 0,
            duration: Some("3.00s".to_string()),
            elapsed: "0ms".to_string(),
            aggregated_output: Some("ok\n".to_string()),
        },
    ] {
        assert!(app.update_background_terminal("call-replay", event, card_lines));
    }

    let Overlay::Transcript(replay) = &app.overlay else {
        panic!("no transcript overlay");
    };
    assert_eq!(replay.len(), 1);
    let expected = card_lines(&card);
    for handle in [&replay[0], &app.parent.transcript_cells[0], &screen(&app).source_cells[0]] {
        assert_eq!(handle.display_lines_for_mode(80, HistoryRenderMode::Rich), expected.rich);
        assert_eq!(handle.display_lines_for_mode(80, HistoryRenderMode::Raw), expected.raw);
    }
    assert_eq!(
        expected.rich,
        vec!["▸ Terminal: make check · 1 interaction · completed in 3.00s · Ctrl+T details"]
    );
}
