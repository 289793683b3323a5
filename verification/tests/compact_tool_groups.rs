use std::sync::Arc;

use quiet_tui::compact_tool_groups::{
    analyze_compact_tool_group_at, compact_tool_group_before_seal, compact_tool_group_cells_by_id,
    compact_tool_group_containing_source_index, compact_tool_group_header_id,
    compact_tool_group_id_containing_cell, compact_tool_group_ids_in_order,
    latest_compact_tool_group_cells, latest_compact_tool_group_id, project_owned_cells,
    project_owned_cells_with_expanded, render_compact_tool_group_lines, render_transcript_lines,
    truncate_line_with_ellipsis,
    fit_work_row, seal_completes_compact_tool_group,
    CompactToolGroupHover, CompactToolGroupId, TranscriptLine, ViewCell, WorkRow, WorkRowCache,
    WorkRowColumns,
};
use quiet_tui::dynamic_tool::{new_dynamic_tool_call, DynamicToolCallStatus};
use quiet_tui::history_cell::{
    CellKind, CommandOutput, ExecCall, ExecCell, HistoryCell, HistoryRenderMode, McpToolCallCell,
    ParsedCommand, PatchHistoryCell, ReasoningSummaryCell, WebSearchAction, WebSearchCell,
};
use quiet_tui::json::Json;
use quiet_tui::output_scan::{ActionScan, MAX_COMPACT_OUTPUT_SCAN_BYTES};
use quiet_tui::ledger::QuietLedger;
use quiet_tui::quiet_metrics::{get_for_test, reset_for_test, QuietMetric};
use quiet_tui::tool_classification::{
    bounded_transcript_for_compaction, exec_tool_group_item, mcp_tool_group_item, tool_group_item,
};
use quiet_tui::tool_run_projection::{ToolRunLifecycle, ToolRunSealCell};
use quiet_tui::web_url::{contains_web_url, web_urls_have_action_markers};
use ratatui::style::Style;
use ratatui::text::{Line, Span};

fn counters() -> QuietLedger {
    QuietLedger::new()
}

/// A number for each name, so that records with different names differ.
fn record_id(name: &str) -> u64 {
    let mut id: u64 = 1469598103934665603;
    for byte in name.bytes() {
        id = (id ^ u64::from(byte)).wrapping_mul(1099511628211);
    }
    id
}

fn lines_of(lines: &[&str]) -> Vec<String> {
    lines.iter().map(|line| line.to_string()).collect()
}

fn cell(name: &str, kind: CellKind, rich: Vec<String>, raw: Vec<String>) -> Arc<HistoryCell> {
    Arc::new(HistoryCell {
        id: record_id(name),
        kind,
        stream_continuation: false,
        rich_lines: rich,
        layouts: Vec::new(),
        raw_lines: raw,
    })
}

fn seal_record(seal: ToolRunSealCell) -> Arc<HistoryCell> {
    let name = format!("seal-{}", seal.run_id().get());
    cell(&name, CellKind::Seal(seal), Vec::new(), Vec::new())
}

/// A scan in the manner of a host: it looks for words and links that ask the user to act.
fn asks_the_user(text: &str) -> bool {
    let lower = text.to_lowercase();
    ["sign in", "log in", "approval required", "confirm", "http://", "https://"]
        .iter()
        .any(|marker| lower.contains(marker))
}

fn command_output(exit_code: i32, text: &str) -> CommandOutput {
    CommandOutput::new(exit_code, text.lines().map(str::to_string).collect(), asks_the_user)
}

fn shell_line(command: &[String]) -> String {
    if command.len() == 3 && command[0] == "bash" && command[1] == "-lc" {
        return command[2].clone();
    }
    shlex::try_join(command.iter().map(String::as_str)).expect("a command without NUL")
}

fn exec_call(
    call_id: &str,
    command: Vec<String>,
    parsed: Vec<ParsedCommand>,
    output: Option<CommandOutput>,
) -> ExecCall {
    ExecCall {
        call_id: call_id.to_string(),
        shell_line: shell_line(&command),
        command,
        parsed,
        output,
        user_shell_command: false,
    }
}

fn read_call(call_id: &str, name: &str, output: Option<CommandOutput>) -> ExecCall {
    let command = vec!["cat".to_string(), name.to_string()];
    let parsed = vec![ParsedCommand::Read {
        cmd: command.join(" "),
        name: name.to_string(),
        path: name.to_string(),
    }];
    exec_call(call_id, command, parsed, output)
}

fn completed_read_exec(call_id: &str, name: &str) -> Arc<HistoryCell> {
    cell(
        call_id,
        CellKind::Exec(ExecCell { calls: vec![read_call(call_id, name, Some(command_output(0, "")))] }),
        vec!["• Explored".to_string(), format!("  └ Read file {name}")],
        vec![format!("$ cat {name}")],
    )
}

fn mcp_tool(server: &str, tool: &str, completed: Option<bool>, safe: bool) -> McpToolCallCell {
    McpToolCallCell {
        server: server.to_string(),
        tool: tool.to_string(),
        completed,
        safe_to_compact: safe,
    }
}

fn completed_mcp(call_id: &str, server: &str, tool: &str) -> Arc<HistoryCell> {
    cell(
        call_id,
        CellKind::Mcp(mcp_tool(server, tool, Some(true), true)),
        vec![format!("• Called {server}.{tool}")],
        vec![format!("Called {server}.{tool}")],
    )
}

fn dynamic_tool(
    name: &str,
    namespace: Option<&str>,
    tool: &str,
    status: DynamicToolCallStatus,
) -> Arc<HistoryCell> {
    let call =
        new_dynamic_tool_call(namespace.map(str::to_string), tool.to_string(), Json::Null, status);
    let raw = call.raw_lines();
    cell(name, CellKind::Dynamic(call), raw.clone(), raw)
}

fn web_search(call_id: &str, action: WebSearchAction) -> Arc<HistoryCell> {
    cell(
        call_id,
        CellKind::Web(WebSearchCell { completed_action: Some(action) }),
        lines_of(&["• Searched the web"]),
        lines_of(&["Searched the web"]),
    )
}

fn completed_command(call_id: &str, command: &str, exit_code: i32) -> Arc<HistoryCell> {
    completed_command_with_output(
        call_id,
        command,
        exit_code,
        if exit_code == 0 { "" } else { "permission denied" },
    )
}

fn completed_command_with_output(
    call_id: &str,
    command: &str,
    exit_code: i32,
    output: &str,
) -> Arc<HistoryCell> {
    let words: Vec<String> = command.split_whitespace().map(str::to_string).collect();
    let mut rich = vec![format!("• Ran {command}")];
    rich.extend(output.lines().take(20).map(|line| format!("  └ {line}")));
    if exit_code != 0 {
        rich.push(format!("  failed (exit {exit_code})"));
    }
    let mut raw = vec![format!("$ {command}")];
    raw.extend(output.lines().take(20).map(str::to_string));
    let call = exec_call(call_id, words, Vec::new(), Some(command_output(exit_code, output)));
    cell(call_id, CellKind::Exec(ExecCell { calls: vec![call] }), rich, raw)
}

fn completed_patch(paths: &[&str]) -> Arc<HistoryCell> {
    let lines: Vec<String> = paths.iter().map(|path| format!("Added {path}")).collect();
    cell(
        &paths.join(","),
        CellKind::Patch(PatchHistoryCell { changed_file_count: paths.len() }),
        lines.clone(),
        lines,
    )
}

fn reasoning_summary(content: &str, transcript_only: bool) -> Arc<HistoryCell> {
    let shown = if transcript_only || content.is_empty() {
        Vec::new()
    } else {
        vec![format!("• {content}")]
    };
    cell(
        &format!("reasoning {content}"),
        CellKind::Reasoning(ReasoningSummaryCell {
            tool_run_transparent: transcript_only && content.is_empty(),
        }),
        shown.clone(),
        shown,
    )
}

fn with_tool_run_seals(cells: Vec<Arc<HistoryCell>>) -> Vec<Arc<HistoryCell>> {
    let mut lifecycle = ToolRunLifecycle::default();
    let turn_id = "test-turn".to_string();
    assert!(lifecycle.begin_turn(turn_id.clone()).is_none());
    let mut sealed: Vec<Arc<HistoryCell>> = Vec::new();
    for cell in cells {
        if let Some(seal) = lifecycle.before_source_append(&mut counters(), cell.as_ref()) {
            sealed.push(seal_record(seal));
        }
        sealed.push(cell);
    }
    if let Some(seal) = lifecycle.seal_turn(&turn_id) {
        sealed.push(seal_record(seal));
    }
    sealed
}

fn columns_of(text: &str) -> usize {
    Line::raw(text.to_string()).width()
}

fn work_header(detail: &str, action_count: usize, width: u16, expanded: bool) -> WorkRow {
    render_compact_tool_group_lines(detail, action_count, width, expanded)
}

fn graphemes(text: &str) -> Vec<String> {
    Span::raw(text.to_string())
        .styled_graphemes(Style::default())
        .map(|grapheme| grapheme.symbol.to_string())
        .collect()
}

fn compact_tool_group_at(
    cells: &Vec<Arc<HistoryCell>>,
    start: usize,
    width: u16,
) -> Option<(usize, String)> {
    let group = analyze_compact_tool_group_at(&mut counters(), cells, start)?;
    let header = work_header(&group.detail, group.action_count, width, false);
    Some((group.consumed_cells, header.text))
}

fn render_lines_text(lines: &[TranscriptLine], width: u16) -> String {
    lines
        .iter()
        .map(|line| match line {
            TranscriptLine::Blank => String::new(),
            TranscriptLine::Text(text) => text.clone(),
            TranscriptLine::Work { detail, action_count } => {
                work_header(detail, *action_count, width, false).text
            }
        })
        .collect::<Vec<_>>()
        .join("\n")
}

fn rendered(cells: &Vec<Arc<HistoryCell>>, width: u16, mode: HistoryRenderMode, compact: bool) -> String {
    render_lines_text(&render_transcript_lines(&mut counters(), cells, width, mode, compact, None).0, width)
}

fn text_lines(lines: &[TranscriptLine]) -> String {
    render_lines_text(lines, u16::MAX)
}

fn chars(text: &str) -> Vec<char> {
    text.chars().collect()
}

#[test]
fn first_run_id_is_distinct_from_the_no_hover_sentinel() {
    let mut hover = CompactToolGroupHover::default();
    let first = CompactToolGroupId(1);

    assert_eq!(hover.hovered(), None);
    assert!(hover.update(Some(first)));
    assert_eq!(hover.hovered(), Some(first));
    assert!(hover.update(None));
    assert_eq!(hover.hovered(), None);
}

#[test]
fn work_header_width_matrix_preserves_extended_graphemes_on_one_row() {
    let detail = "read 文件.rs · inspected 👩‍💻-e\u{301}.md · opened https://example.com/路径";
    let candidates = [
        format!("▸ Work: {detail}"),
        "▸ Work: 7 actions".to_string(),
        "▸ Work".to_string(),
    ];

    for width in [0_u16, 1, 20, 40, 80, 120] {
        let row = work_header(detail, /*action_count*/ 7, width, /*expanded*/ false);
        let rendered = row.text;
        assert!(
            columns_of(&rendered) <= usize::from(width.max(1)),
            "width {width}: {rendered:?}"
        );
        let base = rendered.strip_suffix('…').unwrap_or(&rendered);
        assert!(
            candidates.iter().any(|candidate| {
                let mut prefixes = vec![String::new()];
                let mut prefix = String::new();
                for grapheme in graphemes(candidate) {
                    prefix.push_str(&grapheme);
                    prefixes.push(prefix.clone());
                }
                prefixes.iter().any(|prefix| prefix == base)
            }),
            "width {width} split or reordered a grapheme: {rendered:?}"
        );
    }
}

#[test]
fn work_header_exact_fit_counts_halfwidth_sound_mark_graphemes() {
    let detail = "read ｶﾞ.rs";
    let full = work_header(detail, /*action_count*/ 2, u16::MAX, /*expanded*/ false);
    let exact_width = u16::try_from(columns_of(&full.text)).expect("header width fits u16");

    let exact = work_header(detail, /*action_count*/ 2, exact_width, /*expanded*/ false);

    assert_eq!(exact.text, full.text);
    assert!(!exact.text.contains('…'));
}

#[test]
fn seal_classification_divergence_fails_open_and_turns_detector_red() {
    let cells = vec![
        completed_read_exec("read-1", "app.rs"),
        completed_read_exec("read-2", "lib.rs"),
        seal_record(ToolRunSealCell::with_test_counts(
            /*run_id*/ 1, /*first_source_id*/ 0, /*last_source_id*/ 1,
            /*action_count*/ 99,
        )),
    ];

    let mut metrics = counters();

    assert!(analyze_compact_tool_group_at(&mut metrics, &cells, 0).is_none());
    assert_eq!(get_for_test(&metrics.counters, QuietMetric::SealClassificationDivergence), 1);
}

#[test]
fn false_candidate_before_declared_run_does_not_count_as_divergence() {
    let cells = vec![
        completed_read_exec("outside-run", "outside.rs"),
        completed_read_exec("read-1", "app.rs"),
        completed_read_exec("read-2", "lib.rs"),
        seal_record(ToolRunSealCell::with_test_counts(
            /*run_id*/ 1, /*first_source_id*/ 1, /*last_source_id*/ 2,
            /*action_count*/ 2,
        )),
    ];

    let mut metrics = counters();

    let projected = project_owned_cells(&mut metrics, &cells, /*compact_tool_groups*/ true);

    assert_eq!(projected.len(), 2, "ordinary prefix plus one Work row");
    assert_eq!(get_for_test(&metrics.counters, QuietMetric::SealClassificationDivergence), 0);
}

#[test]
fn unterminated_tool_suffix_projects_without_quadratic_classification_scans() {
    let cells = (0..128)
        .map(|index| completed_read_exec(&format!("open-{index}"), &format!("source-{index}.rs")))
        .collect::<Vec<_>>();

    let mut metrics = counters();

    let projected = project_owned_cells(&mut metrics, &cells, /*compact_tool_groups*/ true);

    assert_eq!(projected.len(), cells.len());
    assert_eq!(
        get_for_test(&metrics.counters, QuietMetric::ClassificationMemoPopulate),
        0,
        "without a seal, projection should copy the chronological suffix without classifying it"
    );
    assert_eq!(get_for_test(&metrics.counters, QuietMetric::ClassificationOutputScan), 0);
    for (shown, source) in projected.iter().zip(&cells) {
        assert!(matches!(shown, ViewCell::Source(shown) if Arc::ptr_eq(shown, source)));
    }
}

#[test]
fn zero_and_single_action_seals_add_no_visible_rows_in_rich_raw_or_inline_views() {
    let empty_seal = seal_record(ToolRunSealCell::with_test_counts(
        /*run_id*/ 1, /*first_source_id*/ 0, /*last_source_id*/ 0, /*action_count*/ 0,
    ));
    let singleton = completed_read_exec("read-1", "app.rs");
    let singleton_seal = seal_record(ToolRunSealCell::with_test_counts(
        /*run_id*/ 2, /*first_source_id*/ 1, /*last_source_id*/ 1, /*action_count*/ 1,
    ));

    for (mode, compact) in [
        (HistoryRenderMode::Rich, true),
        (HistoryRenderMode::Raw, false),
        (HistoryRenderMode::Rich, false),
    ] {
        let (empty_lines, _) = render_transcript_lines(
            &mut counters(),
            &vec![Arc::clone(&empty_seal)],
            /*width*/ 80,
            mode,
            compact,
            None,
        );
        assert!(empty_lines.is_empty(), "mode={mode:?} compact={compact}");

        let rendered = rendered(
            &vec![Arc::clone(&singleton), Arc::clone(&singleton_seal)],
            /*width*/ 80,
            mode,
            compact,
        );
        assert!(rendered.contains("app.rs"), "{mode:?}: {rendered}");
        assert!(!rendered.contains("Work"), "{mode:?}: {rendered}");
    }
}

#[test]
fn large_exec_output_stays_out_of_compact_work_groups() {
    let at_limit = completed_command_with_output(
        "bounded",
        "generate report",
        0,
        &"x".repeat(MAX_COMPACT_OUTPUT_SCAN_BYTES),
    );
    let bounded_cells =
        with_tool_run_seals(vec![at_limit, completed_read_exec("read-1", "report.txt")]);
    assert!(
        compact_tool_group_at(&bounded_cells, 0, 100).is_some(),
        "the byte limit itself should remain eligible"
    );

    let over_limit = completed_command_with_output(
        "oversized",
        "generate report",
        0,
        &"x".repeat(MAX_COMPACT_OUTPUT_SCAN_BYTES + 1),
    );
    assert!(tool_group_item(&mut counters(), over_limit.as_ref()).is_none());
    let oversized_cells =
        with_tool_run_seals(vec![over_limit, completed_read_exec("read-2", "report.txt")]);
    assert!(
        compact_tool_group_at(&oversized_cells, 0, 100).is_none(),
        "oversized output should remain expanded without full classification"
    );

    let blank_lines = completed_command_with_output(
        "blank-lines",
        "generate report",
        0,
        &"\n".repeat(MAX_COMPACT_OUTPUT_SCAN_BYTES + 2),
    );
    assert!(tool_group_item(&mut counters(), blank_lines.as_ref()).is_none());
    let blank_line_cells =
        with_tool_run_seals(vec![blank_lines, completed_read_exec("read-3", "report.txt")]);
    assert!(
        compact_tool_group_at(&blank_line_cells, 0, 100).is_none(),
        "oversized blank-line output must count its separators toward the limit"
    );
}

#[test]
fn bounded_exec_transcript_preserves_leading_empty_lines() {
    let output = command_output(/*exit_code*/ 0, "\n\nx");
    assert_eq!(bounded_transcript_for_compaction(&output).as_deref(), Some("\n\nx"));
}

#[test]
fn action_markers_remain_ascii_case_insensitive_without_lowercase_copies() {
    assert!(asks_the_user("Please SIGN IN to continue"));
    assert!(contains_web_url(&chars("Open HTTPS://example.com/device")));
    assert!(web_urls_have_action_markers(&chars("Open HTTPS://example.com/OAuth/device")));

    let metadata = completed_command_with_output(
        "metadata",
        "fetch artifact",
        0,
        "manifest_url=HTTPS://example.com/data",
    );
    assert!(
        compact_tool_group_at(
            &with_tool_run_seals(vec![
                metadata,
                completed_read_exec("read-meta", "artifact.json"),
            ]),
            0,
            100,
        )
        .is_some(),
        "mixed-case metadata URLs should remain compactable"
    );

    let action = completed_command_with_output(
        "action",
        "service login",
        0,
        "OPEN HTTPS://example.com/OAuth/device",
    );
    assert!(tool_group_item(&mut counters(), action.as_ref()).is_none());
    assert!(
        compact_tool_group_at(
            &with_tool_run_seals(vec![
                action,
                completed_read_exec("read-action", "artifact.json"),
            ]),
            0,
            100,
        )
        .is_none(),
        "mixed-case action URLs must remain visible"
    );
}

#[test]
fn compact_group_summarizes_adjacent_tool_cells() {
    let cells = with_tool_run_seals(vec![
        completed_read_exec("read-1", "app.rs"),
        completed_read_exec("read-2", "lib.rs"),
        completed_mcp("mcp-1", "gmail", "read_thread"),
    ]);

    let (consumed_cells, text) = compact_tool_group_at(&cells, 0, 120).expect("compact group");

    assert_eq!(consumed_cells, 4);
    assert_eq!(text, "▸ Work: read 2 files · called gmail.read_thread");
}

#[test]
fn safe_single_tools_fold_while_plan_updates_remain_expanded() {
    let plan = lines_of(&["• Updated Plan", "  └ □ Keep this checklist visible"]);
    let cells = with_tool_run_seals(vec![
        completed_read_exec("read-before", "before.rs"),
        cell("plan", CellKind::Other, plan.clone(), plan),
        completed_read_exec("read-after", "after.rs"),
    ]);

    let projected = project_owned_cells(&mut counters(), &cells, /*compact_tool_groups*/ true);
    let sources: Vec<Arc<HistoryCell>> = projected
        .iter()
        .map(|cell| match cell {
            ViewCell::Source(source) => Arc::clone(source),
            ViewCell::Work(_) => panic!("a single tool was replaced by a Work row"),
        })
        .collect();

    assert_eq!(
        rendered(&sources, /*width*/ 100, HistoryRenderMode::Rich, false),
        "• Explored\n  └ Read file before.rs\n\n• Updated Plan\n  └ □ Keep this checklist visible\n\n• Explored\n  └ Read file after.rs"
    );
}

#[test]
fn completed_safe_single_tool_kinds_with_lifecycle_stay_ordinary() {
    let cases: Vec<(&str, Arc<HistoryCell>)> = vec![
        ("exec", completed_read_exec("read", "app.rs")),
        ("mcp", completed_mcp("mcp", "files", "read")),
        (
            "dynamic",
            dynamic_tool("dynamic", Some("functions"), "exec", DynamicToolCallStatus::Completed),
        ),
        ("web", web_search("web", WebSearchAction::Search)),
    ];

    for (label, cell) in cases {
        let source = with_tool_run_seals(vec![Arc::clone(&cell)]);
        let projected = project_owned_cells(&mut counters(), &source, /*compact_tool_groups*/ true);
        assert_eq!(projected.len(), 1, "{label} projection changed cardinality");
        assert!(
            matches!(&projected[0], ViewCell::Source(shown) if Arc::ptr_eq(shown, &cell)),
            "{label} singleton was replaced by a Work header"
        );
    }
}

#[test]
fn patch_singletons_remain_expanded_without_completion_state() {
    let cell = completed_patch(&["src/app.rs"]);

    let projected = project_owned_cells(&mut counters(), &vec![cell], /*compact_tool_groups*/ true);

    assert_eq!(projected.len(), 1);
    assert!(
        matches!(&projected[0], ViewCell::Source(shown) if matches!(shown.kind, CellKind::Patch(_)))
    );
}

#[test]
fn compact_group_summarizes_replayed_dynamic_tool_calls() {
    let cells = with_tool_run_seals(vec![
        dynamic_tool("first", Some("functions"), "exec", DynamicToolCallStatus::Completed),
        dynamic_tool("second", Some("functions"), "exec", DynamicToolCallStatus::Completed),
    ]);

    let (consumed_cells, text) = compact_tool_group_at(&cells, 0, 120).expect("compact group");

    assert_eq!(consumed_cells, 3);
    assert_eq!(text, "▸ Work: called functions.exec x2");
}

#[test]
fn unfinished_replayed_dynamic_tool_calls_remain_expanded() {
    let cells = vec![
        dynamic_tool(
            "first",
            Some("collaboration"),
            "wait_agent",
            DynamicToolCallStatus::InProgress,
        ),
        dynamic_tool(
            "second",
            Some("collaboration"),
            "wait_agent",
            DynamicToolCallStatus::Completed,
        ),
    ];

    assert!(compact_tool_group_at(&cells, 0, 120).is_none());
}

#[test]
fn empty_transcript_only_reasoning_bridges_tools_and_preserves_source_order() {
    let hidden_reasoning = reasoning_summary("", true);
    assert!(hidden_reasoning.display_lines_for_mode(80, HistoryRenderMode::Rich).is_empty());
    assert!(hidden_reasoning.display_lines_for_mode(80, HistoryRenderMode::Raw).is_empty());
    let cells = with_tool_run_seals(vec![
        completed_read_exec("read-1", "app.rs"),
        hidden_reasoning,
        completed_read_exec("read-2", "lib.rs"),
    ]);

    let (consumed_cells, text) = compact_tool_group_at(&cells, 0, 120).expect("compact group");
    assert_eq!(consumed_cells, 4);
    assert_eq!(text, "▸ Work: read 2 files");

    let projected = project_owned_cells(&mut counters(), &cells, /*compact_tool_groups*/ true);
    assert_eq!(projected.len(), 1);
    let ViewCell::Work(work) = &projected[0] else {
        panic!("no Work row");
    };
    let raw = text_lines(&work.expanded_lines(u16::MAX, HistoryRenderMode::Raw));
    let app_position = raw.find("$ cat app.rs").expect("first raw source");
    let lib_position = raw.find("$ cat lib.rs").expect("second raw source");
    assert!(app_position < lib_position, "raw source order changed: {raw}");

    let inspected = latest_compact_tool_group_cells(&mut counters(), &cells).expect("latest group");
    assert_eq!(inspected.len(), 3);
    assert!(inspected[1].display_lines_for_mode(80, HistoryRenderMode::Rich).is_empty());
}

#[test]
fn nonempty_transcript_only_reasoning_is_a_hard_group_boundary() {
    let hidden_reasoning = reasoning_summary("hidden reasoning detail", true);
    assert!(hidden_reasoning.display_lines_for_mode(80, HistoryRenderMode::Rich).is_empty());
    assert!(hidden_reasoning.display_lines_for_mode(80, HistoryRenderMode::Raw).is_empty());
    let cells = with_tool_run_seals(vec![
        completed_read_exec("read-1", "app.rs"),
        hidden_reasoning,
        completed_read_exec("read-2", "lib.rs"),
    ]);

    assert!(compact_tool_group_at(&cells, 0, 120).is_none());
    assert!(latest_compact_tool_group_cells(&mut counters(), &cells).is_none());
}

#[test]
fn visible_reasoning_remains_a_hard_group_boundary() {
    let cells = with_tool_run_seals(vec![
        completed_read_exec("read-1", "app.rs"),
        completed_read_exec("read-2", "lib.rs"),
        reasoning_summary("Visible reasoning", false),
        completed_read_exec("read-3", "main.rs"),
        completed_read_exec("read-4", "mod.rs"),
    ]);

    assert_eq!(compact_tool_group_at(&cells, 0, 100).expect("first compact group").0, 3);
    assert!(compact_tool_group_at(&cells, 3, 100).is_none());
    assert_eq!(compact_tool_group_at(&cells, 4, 100).expect("second compact group").0, 3);
    let rendered = rendered(&cells, 100, HistoryRenderMode::Rich, true);
    assert!(rendered.contains("Visible reasoning"));
}

#[test]
fn owned_projection_compacts_rich_view_and_preserves_raw_sources() {
    let cells = with_tool_run_seals(vec![
        completed_read_exec("read-1", "app.rs"),
        completed_read_exec("read-2", "lib.rs"),
    ]);

    let projected = project_owned_cells(&mut counters(), &cells, /*compact_tool_groups*/ true);
    assert_eq!(projected.len(), 1);
    let ViewCell::Work(work) = &projected[0] else {
        panic!("no Work row");
    };
    let rich = work_header(&work.detail, work.action_count, /*width*/ 80, work.expanded);
    assert_eq!(rich.text, "▸ Work: read 2 files");

    let raw = text_lines(&work.expanded_lines(u16::MAX, HistoryRenderMode::Raw));
    assert!(raw.contains("app.rs"), "raw projection lost first source: {raw}");
    assert!(raw.contains("lib.rs"), "raw projection lost second source: {raw}");

    let expanded = project_owned_cells(&mut counters(), &cells, /*compact_tool_groups*/ false);
    assert_eq!(expanded.len(), 2);
}

#[test]
fn retained_work_header_caches_semantics_and_wrapping_between_draws() {
    let cells = with_tool_run_seals(vec![
        completed_read_exec("read-1", "app.rs"),
        completed_read_exec("read-2", "lib.rs"),
    ]);
    let projected = project_owned_cells(&mut counters(), &cells, /*compact_tool_groups*/ true);
    assert_eq!(projected.len(), 1);
    let ViewCell::Work(work) = &projected[0] else {
        panic!("no Work row");
    };
    let mut cache = WorkRowCache::new();

    let first = cache.display_lines(work, /*width*/ 80);
    assert_eq!(first.text, "▸ Work: read 2 files");
    // A row that was kept is handed out again; a rendered one would hold the detail.
    cache.drawn = Some((80, WorkRow { text: "kept".to_string() }));
    let second = cache.display_lines(work, /*width*/ 80);
    assert_eq!(second.text, "kept");

    let resized = cache.display_lines(work, /*width*/ 40);
    assert_eq!(resized.text, "▸ Work: read 2 files");
    let back = cache.display_lines(work, /*width*/ 80);
    assert_eq!(back.text, first.text);
}

#[test]
fn in_flight_exec_does_not_poison_completed_classification_cache() {
    let first = read_call("read-1", "app.rs", Some(command_output(0, "")));
    let mut exec = ExecCell { calls: vec![first, read_call("read-2", "lib.rs", None)] };
    let id = record_id("exec-cache");
    let mut metrics = counters();
    assert!(exec_tool_group_item(&mut metrics, id, &exec).is_none());
    assert_eq!(get_for_test(&metrics.counters, QuietMetric::ClassificationOutputScan), 0);
    assert_eq!(get_for_test(&metrics.counters, QuietMetric::ClassificationInFlightBypass), 1);
    assert_eq!(get_for_test(&metrics.counters, QuietMetric::ClassificationCacheMiss), 0);

    reset_for_test(&mut metrics.counters);
    exec.calls[1].output = Some(command_output(0, ""));
    let classified =
        exec_tool_group_item(&mut metrics, id, &exec).expect("completed classification");
    assert_eq!(classified.summary.actions, 2);
    assert_eq!(get_for_test(&metrics.counters, QuietMetric::ClassificationOutputScan), 1);

    let cached = exec_tool_group_item(&mut metrics, id, &exec).expect("cached classification");
    assert_eq!(cached.summary.actions, 2);
    assert_eq!(get_for_test(&metrics.counters, QuietMetric::ClassificationOutputScan), 1);
    assert_eq!(get_for_test(&metrics.counters, QuietMetric::ClassificationCacheInvalidation), 1);
    assert_eq!(get_for_test(&metrics.counters, QuietMetric::ClassificationCacheMiss), 1);
    assert_eq!(get_for_test(&metrics.counters, QuietMetric::ClassificationCacheHit), 1);

    reset_for_test(&mut metrics.counters);
    exec.calls[1].output = Some(command_output(0, "late output\n"));
    assert!(exec_tool_group_item(&mut metrics, id, &exec).is_some());
    assert_eq!(get_for_test(&metrics.counters, QuietMetric::ClassificationCacheInvalidation), 1);
    assert_eq!(get_for_test(&metrics.counters, QuietMetric::ClassificationCacheMiss), 1);
}

#[test]
fn in_flight_mcp_does_not_poison_completed_classification_cache() {
    let mut mcp = mcp_tool("files", "read", None, true);
    let id = record_id("mcp-cache");
    let mut metrics = counters();
    assert!(mcp_tool_group_item(&mut metrics, id, &mcp).is_none());
    assert_eq!(get_for_test(&metrics.counters, QuietMetric::ClassificationInFlightBypass), 1);
    assert_eq!(get_for_test(&metrics.counters, QuietMetric::ClassificationCacheMiss), 0);

    reset_for_test(&mut metrics.counters);
    mcp.completed = Some(true);
    assert!(mcp_tool_group_item(&mut metrics, id, &mcp).is_some());
    assert!(mcp_tool_group_item(&mut metrics, id, &mcp).is_some());
    assert_eq!(get_for_test(&metrics.counters, QuietMetric::ClassificationCacheInvalidation), 1);
    assert_eq!(get_for_test(&metrics.counters, QuietMetric::ClassificationCacheMiss), 1);
    assert_eq!(get_for_test(&metrics.counters, QuietMetric::ClassificationCacheHit), 1);

    reset_for_test(&mut metrics.counters);
    mcp.completed = Some(false);
    assert!(mcp_tool_group_item(&mut metrics, id, &mcp).is_none());
    assert_eq!(get_for_test(&metrics.counters, QuietMetric::ClassificationCacheInvalidation), 1);
    assert_eq!(get_for_test(&metrics.counters, QuietMetric::ClassificationCacheMiss), 1);
}

#[test]
fn single_multi_action_exploring_cell_can_collapse() {
    let command = vec!["rg".to_string(), "needle".to_string()];
    let parsed = vec![
        ParsedCommand::Search { cmd: "rg needle".to_string() },
        ParsedCommand::Read {
            cmd: "sed -n 1,20p app.rs".to_string(),
            name: "app.rs".to_string(),
            path: "app.rs".to_string(),
        },
    ];
    let call = exec_call("search-read", command, parsed, Some(command_output(0, "")));
    let cells = with_tool_run_seals(vec![cell(
        "search-read",
        CellKind::Exec(ExecCell { calls: vec![call] }),
        Vec::new(),
        Vec::new(),
    )]);

    let (consumed_cells, text) = compact_tool_group_at(&cells, 0, 80).expect("compact group");

    assert_eq!(consumed_cells, 2);
    assert_eq!(text, "▸ Work: read app.rs · searched");
}

#[test]
fn web_searches_compact_when_adjacent() {
    let cells = with_tool_run_seals(vec![
        web_search("web-1", WebSearchAction::Search),
        web_search("web-2", WebSearchAction::OpenPage),
        web_search("web-3", WebSearchAction::FindInPage),
    ]);

    let (consumed_cells, text) = compact_tool_group_at(&cells, 0, 120).expect("compact group");

    assert_eq!(consumed_cells, 4);
    assert_eq!(text, "▸ Work: searched web · opened web page · found on page");
}

#[test]
fn outcome_first_work_bundle_golden() {
    let cells = with_tool_run_seals(vec![
        completed_read_exec("read-1", "app.rs"),
        completed_read_exec("read-2", "lib.rs"),
        completed_patch(&["src/app.rs", "src/lib.rs"]),
        completed_command("test-1", "just test -p codex-tui", 0),
        completed_command("build-1", "cargo build", 0),
        completed_command("check-1", "cargo clippy", 0),
        completed_mcp("mcp-1", "gmail", "read_thread"),
    ]);

    let (_, text) = compact_tool_group_at(&cells, 0, 120).unwrap();

    assert_eq!(
        text,
        "▸ Work: read 2 files · 2 files edited · tests passed · build passed · check passed · called gmail.read_thread"
    );
}

#[test]
fn failures_break_groups_and_render_their_error_tail() {
    let cells = with_tool_run_seals(vec![
        completed_read_exec("read-1", "app.rs"),
        completed_read_exec("read-2", "lib.rs"),
        completed_command("failed", "cargo build", 7),
        completed_read_exec("read-3", "main.rs"),
        completed_read_exec("read-4", "mod.rs"),
    ]);

    assert_eq!(compact_tool_group_at(&cells, 0, 100).unwrap().0, 3);
    assert!(compact_tool_group_at(&cells, 3, 100).is_none());
    assert_eq!(compact_tool_group_at(&cells, 4, 100).unwrap().0, 3);

    let rendered = rendered(&cells, 100, HistoryRenderMode::Rich, true);
    assert!(rendered.contains("permission denied"));
    assert!(rendered.contains("failed (exit 7)"));
    assert_eq!(
        rendered,
        "▸ Work: read 2 files\n\n• Ran cargo build\n  └ permission denied\n  failed (exit 7)\n\n▸ Work: read 2 files"
    );
}

#[test]
fn failed_and_action_required_mcp_calls_never_compact() {
    let failed = cell(
        "mcp-failed",
        CellKind::Mcp(mcp_tool("calendar", "create", Some(false), true)),
        lines_of(&["• Called calendar.create", "  └ Error: permission denied"]),
        lines_of(&["Error: permission denied"]),
    );
    let action_required = cell(
        "mcp-auth",
        CellKind::Mcp(mcp_tool("drive", "read", Some(true), false)),
        lines_of(&["• Called drive.read", "  └ Log in at https://example.com/device"]),
        lines_of(&["Log in at https://example.com/device"]),
    );
    assert!(tool_group_item(&mut counters(), failed.as_ref()).is_none());
    assert!(tool_group_item(&mut counters(), action_required.as_ref()).is_none());
    let cells = vec![
        completed_read_exec("read-1", "app.rs"),
        completed_read_exec("read-2", "lib.rs"),
        failed,
        action_required,
        completed_read_exec("read-3", "main.rs"),
        completed_read_exec("read-4", "mod.rs"),
    ];

    assert!(compact_tool_group_at(&cells, 2, 100).is_none());
    assert!(compact_tool_group_at(&cells, 3, 100).is_none());
    let rendered = rendered(&cells, 100, HistoryRenderMode::Rich, true);
    assert!(rendered.contains("Error: permission denied"));
    assert!(rendered.contains("https://example.com/device"));
}

#[test]
fn action_required_exec_output_never_compacts() {
    let action_required = completed_command_with_output(
        "login",
        "service login",
        0,
        "Open the following URL to sign in: https://example.com/device",
    );
    assert!(tool_group_item(&mut counters(), action_required.as_ref()).is_none());
    let cells = vec![
        completed_read_exec("read-1", "app.rs"),
        completed_read_exec("read-2", "lib.rs"),
        action_required,
        completed_read_exec("read-3", "main.rs"),
        completed_read_exec("read-4", "mod.rs"),
    ];

    assert!(compact_tool_group_at(&cells, 2, 100).is_none());
    let rendered = rendered(&cells, 100, HistoryRenderMode::Rich, true);
    assert!(rendered.contains("https://example.com/device"));
}

#[test]
fn real_yt_dlp_tsv_and_json_metadata_can_join_work_groups() {
    let cases = [
        (
            "tsv",
            "yt-dlp --flat-playlist --dump-json ytsearch10:Ziak Grabba",
            "pos7SwbEXoI\tZiak - Grabba\t140\thttps://www.youtube.com/watch?v=pos7SwbEXoI\nabc123\tZiak - Akimbo\t161\thttps://www.youtube.com/watch?v=abc123",
        ),
        (
            "json",
            "yt-dlp --dump-single-json --skip-download https://youtu.be/pos7SwbEXoI",
            "{\"webpage_url\":\"https://www.youtube.com/watch?v=pos7SwbEXoI\",\"thumbnail\":\"https://i.ytimg.com/vi/pos7SwbEXoI/maxresdefault.jpg\",\"subtitles\":{\"fr\":[{\"url\":\"https://www.youtube.com/api/timedtext?v=pos7SwbEXoI\"}]}}",
        ),
        (
            "quoted-playlist-url",
            "yt-dlp --print '%(id)s\\t%(webpage_url)s' 'https://www.youtube.com/playlist?list=PL123&si=abc'",
            "pos7SwbEXoI\thttps://www.youtube.com/watch?v=pos7SwbEXoI",
        ),
    ];

    for (call_id, command, output) in cases {
        let url_output = completed_command_with_output(call_id, command, 0, output);
        let cells = with_tool_run_seals(vec![
            url_output,
            completed_read_exec("read", "metadata.json"),
        ]);
        let (consumed_cells, text) = compact_tool_group_at(&cells, 0, 120)
            .unwrap_or_else(|| panic!("real {call_id} metadata did not compact"));

        assert_eq!(consumed_cells, 3);
        assert_eq!(text, "▸ Work: read metadata.json · ran command");
    }
}

#[test]
fn explicit_approval_output_with_a_url_remains_a_hard_boundary() {
    let approval_required = completed_command_with_output(
        "approval",
        "deploy preview",
        0,
        "Approval required: confirm in https://example.com/deploy/123",
    );
    assert!(tool_group_item(&mut counters(), approval_required.as_ref()).is_none());
    let cells = with_tool_run_seals(vec![
        completed_read_exec("read-1", "app.rs"),
        completed_read_exec("read-2", "lib.rs"),
        approval_required,
        completed_read_exec("read-3", "main.rs"),
        completed_read_exec("read-4", "mod.rs"),
    ]);

    assert!(compact_tool_group_at(&cells, 2, 100).is_none());
    let rendered = rendered(&cells, 100, HistoryRenderMode::Rich, true);
    assert!(rendered.contains("Approval required"));
    assert!(rendered.contains("https://example.com/deploy/123"));
}

#[test]
fn bare_and_prose_urls_remain_hard_boundaries() {
    for (call_id, output) in [
        ("bare", "https://github.com/login/device"),
        ("prose", "Please open https://example.com/device"),
        ("prefixed-assignment", "Open webpage_url=https://example.com/watch?v=123"),
        ("auth-assignment", "webpage_url=https://github.com/login/device"),
        ("activation-assignment", "webpage_url=https://www.youtube.com/activate"),
        (
            "yt-warning",
            "WARNING: No supported JavaScript runtime was found. See https://github.com/yt-dlp/yt-dlp/wiki/EJS",
        ),
        ("spoofed-ytdlp", "Confirm\thttps://example.com/continue"),
    ] {
        let command = match call_id {
            "yt-warning" => "yt-dlp --dump-single-json example",
            "spoofed-ytdlp" => "printf Confirm # yt-dlp --print",
            _ => "service status",
        };
        let action_required = completed_command_with_output(call_id, command, 0, output);
        assert!(tool_group_item(&mut counters(), action_required.as_ref()).is_none());
        let cells = vec![action_required, completed_read_exec("read", "status.json")];

        assert!(
            compact_tool_group_at(&cells, 0, 100).is_none(),
            "user-facing URL was compacted: {output}"
        );
    }
}

#[test]
fn chained_yt_dlp_commands_do_not_gain_the_metadata_exception() {
    for (call_id, script) in [
        (
            "semicolon-chain",
            "yt-dlp --print '%(id)s\\t%(webpage_url)s' URL;printf 'Confirm\\thttps://example.com/continue'",
        ),
        (
            "newline-chain",
            "yt-dlp --print '%(id)s\\t%(webpage_url)s' URL\nprintf 'Confirm\\thttps://example.com/continue'",
        ),
        (
            "pipe-chain",
            "yt-dlp --print '%(id)s\\t%(webpage_url)s' URL | printf 'Confirm\\thttps://example.com/continue'",
        ),
        (
            "attached-pipe-chain",
            "yt-dlp --print '%(id)s\\t%(webpage_url)s' URL|printf 'Confirm\\thttps://example.com/continue'",
        ),
        (
            "background-chain",
            "yt-dlp --print '%(id)s\\t%(webpage_url)s' URL & printf 'Confirm\\thttps://example.com/continue'",
        ),
    ] {
        let command = vec!["bash".to_string(), "-lc".to_string(), script.to_string()];
        let output = command_output(/*exit_code*/ 0, "Confirm\thttps://example.com/continue");
        // The words of the output alone would not keep it from being folded.
        let scanned = CommandOutput {
            scan: ActionScan { verbatim: true, without_urls: false },
            ..output
        };
        let call = exec_call(call_id, command, Vec::new(), Some(scanned));
        let chained =
            cell(call_id, CellKind::Exec(ExecCell { calls: vec![call] }), Vec::new(), Vec::new());
        assert!(tool_group_item(&mut counters(), chained.as_ref()).is_none());
        let cells = vec![chained, completed_read_exec("read", "metadata.json")];

        assert!(
            compact_tool_group_at(&cells, 0, 100).is_none(),
            "chained shell output was compacted: {script:?}"
        );
    }
}

#[test]
fn latest_group_inspector_returns_only_the_latest_bundle_source_cells() {
    let cells = with_tool_run_seals(vec![
        completed_read_exec("read-1", "app.rs"),
        completed_read_exec("read-2", "lib.rs"),
        completed_command("failed", "false", 1),
        completed_read_exec("read-3", "main.rs"),
        completed_read_exec("read-4", "mod.rs"),
    ]);

    let inspected = latest_compact_tool_group_cells(&mut counters(), &cells).unwrap();
    let rendered = rendered(&inspected, 100, HistoryRenderMode::Raw, false);

    assert_eq!(inspected.len(), 2);
    assert!(rendered.contains("$ cat main.rs"));
    assert!(rendered.contains("$ cat mod.rs"));
    assert!(!rendered.contains("$ cat app.rs"));
    assert!(!rendered.contains("permission denied"));
}

#[test]
fn compact_rows_are_bounded_and_raw_source_remains_recoverable() {
    let cells = with_tool_run_seals(
        (0..8)
            .map(|index| {
                completed_read_exec(&format!("read-{index}"), &format!("file-{index}.rs"))
            })
            .collect::<Vec<_>>(),
    );

    let (compact, _) = render_transcript_lines(&mut counters(), &cells, 120, HistoryRenderMode::Rich, true, Some(2));
    let (raw, _) = render_transcript_lines(&mut counters(), &cells, 120, HistoryRenderMode::Raw, false, None);
    let raw_text = text_lines(&raw);

    assert!(compact.len() <= 2);
    assert!(raw.len() > compact.len());
    for index in 0..8 {
        assert!(raw_text.contains(&format!("$ cat file-{index}.rs")));
    }
}

#[test]
fn a_row_cap_keeps_the_newest_rows() {
    let cells = vec![completed_read_exec("read-1", "app.rs"), completed_read_exec("read-2", "lib.rs")];
    let (all, cut) = render_transcript_lines(&mut counters(), &cells, 80, HistoryRenderMode::Rich, true, Some(5));
    assert!(!cut);
    assert_eq!(all.len(), 5);
    let (kept, cut) = render_transcript_lines(&mut counters(), &cells, 80, HistoryRenderMode::Rich, true, Some(2));
    assert!(cut);
    assert_eq!(text_lines(&kept), "• Explored\n  └ Read file lib.rs");
}

#[test]
fn every_source_stays_in_the_projection_in_order() {
    let cells = with_tool_run_seals(vec![
        completed_read_exec("read-1", "app.rs"),
        completed_read_exec("read-2", "lib.rs"),
        cell("message", CellKind::AgentMessage, lines_of(&["done"]), lines_of(&["done"])),
        completed_read_exec("read-3", "main.rs"),
    ]);
    let expected: Vec<u64> = cells
        .iter()
        .filter(|cell| !matches!(cell.kind, CellKind::Seal(_)))
        .map(|cell| cell.id)
        .collect();
    let mut held: Vec<u64> = Vec::new();
    for shown in project_owned_cells(&mut counters(), &cells, true) {
        match shown {
            ViewCell::Source(source) => held.push(source.id),
            ViewCell::Work(work) => held.extend(work.source_cells.iter().map(|cell| cell.id)),
        }
    }
    assert_eq!(held, expected);
}

#[test]
fn an_open_group_shows_its_row_and_its_sources() {
    let cells = with_tool_run_seals(vec![
        completed_read_exec("read-1", "app.rs"),
        completed_read_exec("read-2", "lib.rs"),
    ]);
    let id = latest_compact_tool_group_id(&mut counters(), &cells).expect("a group");
    assert_eq!(id, CompactToolGroupId(1));
    let projected = project_owned_cells_with_expanded(&mut counters(), &cells, true, &vec![id]);
    assert_eq!(projected.len(), 3);
    assert_eq!(compact_tool_group_header_id(&projected[0], 0), Some(id));
    assert_eq!(compact_tool_group_header_id(&projected[0], 1), None);
    assert_eq!(compact_tool_group_header_id(&projected[1], 0), None);
    let ViewCell::Work(work) = &projected[0] else {
        panic!("no Work row");
    };
    assert!(work.expanded);
    assert_eq!(work_header(&work.detail, work.action_count, 80, true).text, "▾ Work: read 2 files");
}

#[test]
fn groups_are_found_by_id_source_and_seal() {
    let first = completed_read_exec("read-1", "app.rs");
    let cells = with_tool_run_seals(vec![
        Arc::clone(&first),
        completed_read_exec("read-2", "lib.rs"),
        cell("message", CellKind::AgentMessage, Vec::new(), Vec::new()),
        completed_read_exec("read-3", "main.rs"),
        completed_read_exec("read-4", "mod.rs"),
    ]);
    assert_eq!(
        compact_tool_group_ids_in_order(&mut counters(), &cells),
        vec![CompactToolGroupId(1), CompactToolGroupId(2)]
    );
    assert_eq!(
        compact_tool_group_id_containing_cell(&mut counters(), &cells, first.id),
        Some(CompactToolGroupId(1))
    );
    assert_eq!(compact_tool_group_id_containing_cell(&mut counters(), &cells, cells[3].id), None);
    let second = compact_tool_group_cells_by_id(&mut counters(), &cells, CompactToolGroupId(2)).expect("a group");
    assert_eq!(second.len(), 2);
    assert_eq!(second[0].id, cells[4].id);
    assert!(compact_tool_group_cells_by_id(&mut counters(), &cells, CompactToolGroupId(9)).is_none());
    assert!(compact_tool_group_containing_source_index(&mut counters(), &cells, 5).is_some());
    assert!(compact_tool_group_containing_source_index(&mut counters(), &cells, 3).is_none());
    assert!(seal_completes_compact_tool_group(&mut counters(), &cells, 2));
    assert!(!seal_completes_compact_tool_group(&mut counters(), &cells, 3));
    assert!(compact_tool_group_before_seal(&mut counters(), &cells, 6, false).is_some());
}

#[test]
fn live_and_user_commands_are_never_folded() {
    let mut user = read_call("user", "app.rs", Some(command_output(0, "")));
    user.user_shell_command = true;
    assert!(exec_tool_group_item(&mut counters(), 1, &ExecCell { calls: vec![user] }).is_none());
    let live = read_call("live", "app.rs", None);
    assert!(exec_tool_group_item(&mut counters(), 1, &ExecCell { calls: vec![live] }).is_none());
}

#[test]
fn a_work_row_is_measured_in_screen_columns() {
    // Four characters that take two columns each: the full row is 4 columns wider than it is long.
    let detail = "read 文件路径";
    let full = "▸ Work: read 文件路径";
    assert_eq!(full.chars().count(), 17);
    assert_eq!(columns_of(full), 21);
    assert_eq!(work_header(detail, 3, 21, false).text, full);
    assert_eq!(work_header(detail, 3, 20, false).text, "▸ Work: 3 actions");
    assert_eq!(work_header(detail, 3, 17, false).text, "▸ Work: 3 actions");
    assert_eq!(work_header(detail, 3, 16, false).text, "▸ Work");
    let wide = WorkRowColumns { full: 90, medium: 17 };
    assert_eq!(fit_work_row(detail, 3, 80, false, wide), "▸ Work: 3 actions");
    let wider = WorkRowColumns { full: 90, medium: 81 };
    assert_eq!(fit_work_row(detail, 3, 80, false, wider), "▸ Work");
}

#[test]
fn a_label_that_comes_back_is_listed_once() {
    let cells = with_tool_run_seals(vec![
        completed_read_exec("read-1", "app.rs"),
        completed_read_exec("read-2", "app.rs"),
        completed_mcp("mcp-1", "files", "stat"),
        completed_mcp("mcp-2", "files", "stat"),
    ]);
    let (_, text) = compact_tool_group_at(&cells, 0, 120).expect("compact group");
    assert_eq!(text, "▸ Work: read app.rs · called files.stat x2");
}

#[test]
fn a_search_stops_at_the_group_that_it_looks_for() {
    let cells = with_tool_run_seals(vec![
        completed_read_exec("read-1", "app.rs"),
        completed_read_exec("read-2", "lib.rs"),
        cell("message", CellKind::AgentMessage, Vec::new(), Vec::new()),
        completed_read_exec("read-3", "main.rs"),
        completed_read_exec("read-4", "mod.rs"),
    ]);
    let mut first = counters();
    assert!(compact_tool_group_cells_by_id(&mut first, &cells, CompactToolGroupId(1)).is_some());
    let mut all = counters();
    assert_eq!(compact_tool_group_ids_in_order(&mut all, &cells).len(), 2);
    let scans = |metrics: &QuietLedger| {
        get_for_test(&metrics.counters, QuietMetric::ClassificationOutputScan)
    };
    assert!(scans(&first) > 0);
    assert!(scans(&first) < scans(&all));
}

#[test]
fn the_narrowest_rows_are_cut_with_an_ellipsis() {
    let narrow = |width| work_header("read 2 files", 2, width, false).text;
    assert_eq!(narrow(6), "▸ Work");
    assert_eq!(narrow(5), "▸ Wo…");
    assert_eq!(narrow(2), "▸…");
    assert_eq!(narrow(1), "…");
    assert_eq!(narrow(0), "…");
}

#[test]
fn a_line_is_cut_between_graphemes() {
    // The woman at her computer is one grapheme of two columns, made of three characters.
    let line = "ab👩‍💻e\u{301}z";
    assert_eq!(truncate_line_with_ellipsis(line, 6), line);
    assert_eq!(truncate_line_with_ellipsis(line, 5), "ab👩‍💻…");
    assert_eq!(truncate_line_with_ellipsis(line, 4), "ab…");
    assert_eq!(truncate_line_with_ellipsis(line, 3), "ab…");
    assert_eq!(truncate_line_with_ellipsis(line, 1), "…");
}

#[test]
fn cells_are_classified_once_for_all_searches() {
    let cells = with_tool_run_seals(vec![
        completed_read_exec("read-1", "app.rs"),
        completed_mcp("mcp-1", "files", "stat"),
    ]);
    let mut metrics = counters();
    assert_eq!(compact_tool_group_ids_in_order(&mut metrics, &cells).len(), 1);
    assert_eq!(get_for_test(&metrics.counters, QuietMetric::ClassificationOutputScan), 2);
    assert_eq!(get_for_test(&metrics.counters, QuietMetric::ClassificationMemoPopulate), 2);
    assert_eq!(project_owned_cells(&mut metrics, &cells, true).len(), 1);
    assert!(latest_compact_tool_group_cells(&mut metrics, &cells).is_some());
    assert_eq!(get_for_test(&metrics.counters, QuietMetric::ClassificationOutputScan), 2);
    assert!(get_for_test(&metrics.counters, QuietMetric::ClassificationCacheHit) > 0);
    assert_eq!(get_for_test(&metrics.counters, QuietMetric::ClassificationCacheInvalidation), 0);
}
