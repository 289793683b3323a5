use quiet_tui::agent_fleet::{
    collab_tool_label, spawn_configuration, AgentFleetLifecycleCell, CollabAgentState,
    CollabAgentStatus, CollabAgentTool, CollabAgentToolCallStatus, CollabToolCall, FleetCounts,
    SubAgentActivity, SubAgentActivityKind,
};
use quiet_tui::card::{Card, Span};
use quiet_tui::lifecycle::{
    format_coarse_elapsed, last_nonempty_lines, make_interactions_label,
    BackgroundTerminalLifecycleCell,
};

fn line_text(line: &[Span]) -> String {
    line.iter()
        .map(|span| match span.clip {
            Some(clip) => span.text.chars().take(clip).collect::<String>(),
            None => span.text.clone(),
        })
        .collect()
}

fn card_text(card: Option<Card>) -> String {
    match card {
        None => String::new(),
        Some(card) => {
            let mut lines = vec![line_text(&card.header)];
            lines.extend(card.details.iter().map(|line| line_text(line)));
            lines.join("\n")
        }
    }
}

fn terminal(call_id: &str, process_id: &str, command: &str) -> BackgroundTerminalLifecycleCell {
    BackgroundTerminalLifecycleCell::new(
        call_id.to_string(),
        process_id.to_string(),
        command.to_string(),
    )
}

fn seconds(text: &str) -> Option<String> {
    Some(text.to_string())
}

#[test]
fn background_terminal_lifecycle_keeps_interleaved_events_in_one_card() {
    let mut cell = terminal("call-1", "proc-1", "cargo test -p codex-tui");
    assert!(cell.activate());
    cell.record_interaction(String::new());
    cell.append_output("running suite\n");
    cell.record_interaction("y\n".to_string());
    cell.complete(0, seconds("42.00s"), "0ms".to_string(), None);

    assert_eq!(
        card_text(cell.display_lines(100, 0)),
        "▸ Terminal: cargo test -p codex-tui · 2 interactions · completed in 42.00s · Ctrl+T details"
    );
    let raw = cell.raw_lines(0).join("\n");
    assert!(raw.contains("[poll]"));
    assert!(raw.contains("[stdin]\ny"));
    assert!(raw.contains("[output]\nrunning suite"));
}

#[test]
fn background_terminal_failure_is_never_hidden() {
    let mut cell = terminal("call-2", "proc-2", "cargo test");
    cell.activate();
    cell.complete(
        101,
        seconds("1.50s"),
        "0ms".to_string(),
        Some("compile line\nerror: assertion failed\nFAILED".to_string()),
    );
    let output = card_text(cell.display_lines(100, 0));
    assert!(output.contains("failed (exit 101)"));
    assert!(output.contains("error: assertion failed"));
    assert!(output.contains("FAILED"));
}

fn tool_call(
    id: &str,
    tool: CollabAgentTool,
    status: CollabAgentToolCallStatus,
    receivers: &[&str],
    prompt: Option<&str>,
    states: Vec<(String, CollabAgentState)>,
) -> CollabToolCall {
    CollabToolCall {
        id: id.to_string(),
        tool,
        status,
        receiver_thread_ids: receivers.iter().map(|id| id.to_string()).collect(),
        prompt: prompt.map(str::to_string),
        model: None,
        reasoning_effort: None,
        agents_states: states,
    }
}

fn agent_state(status: CollabAgentStatus, message: &str) -> CollabAgentState {
    CollabAgentState { status, message: Some(message.to_string()) }
}

fn labels() -> Vec<(String, String)> {
    vec![
        ("thread-a".to_string(), "builder".to_string()),
        ("thread-b".to_string(), "auditor".to_string()),
    ]
}

#[test]
fn agent_fleet_card_preserves_results_and_failures() {
    let mut cell = AgentFleetLifecycleCell::new();
    cell.update_tool_call(
        &tool_call(
            "spawn-a",
            CollabAgentTool::SpawnAgent,
            CollabAgentToolCallStatus::Completed,
            &["thread-a"],
            Some("implement it"),
            Vec::new(),
        ),
        &labels(),
    );
    cell.update_tool_call(
        &tool_call(
            "wait",
            CollabAgentTool::Wait,
            CollabAgentToolCallStatus::Completed,
            &["thread-a", "thread-b"],
            None,
            vec![
                (
                    "thread-a".to_string(),
                    agent_state(CollabAgentStatus::Completed, "implemented and tested"),
                ),
                (
                    "thread-b".to_string(),
                    agent_state(CollabAgentStatus::Errored, "review timed out"),
                ),
            ],
        ),
        &labels(),
    );

    let output = card_text(cell.display_lines(100, 0));
    assert!(output.contains("2 · 1 done · 1 failed"), "{output}");
    assert!(output.contains("builder: implemented and tested"), "{output}");
    assert!(output.contains("auditor: review timed out"), "{output}");
    assert!(cell.raw_lines(0).len() >= 6, "raw event trail should be retained");

    let counts = FleetCounts::from_state(&cell);
    assert_eq!((counts.running, counts.completed, counts.failed, counts.other), (0, 1, 1, 0));
    assert!(
        output.find("review timed out") < output.find("implemented and tested"),
        "failures come first: {output}"
    );
}

#[test]
fn an_inactive_terminal_has_no_card() {
    let mut cell = terminal("call-3", "proc-3", "sleep 5");
    assert!(!cell.is_active());
    assert!(cell.display_lines(100, 3).is_none());
    assert!(cell.activate());
    assert!(!cell.activate());
    assert!(cell.display_lines(0, 3).is_none());
    assert!(cell.display_lines(100, 3).is_some());
}

#[test]
fn reported_output_replaces_collected_output_unless_it_is_empty() {
    let mut cell = terminal("call-4", "proc-4", "make");
    cell.append_output("collected\n");
    cell.complete(0, None, "12ms".to_string(), Some(String::new()));
    assert!(cell.raw_lines(0).join("\n").contains("[output]\ncollected"));
    let mut cell = terminal("call-5", "proc-5", "make");
    cell.append_output("collected\n");
    cell.complete(0, None, "12ms".to_string(), Some("reported\n".to_string()));
    let raw = cell.raw_lines(0).join("\n");
    assert!(raw.contains("[output]\nreported"));
    assert!(!raw.contains("collected"));
}

#[test]
fn elapsed_times_are_coarse() {
    assert_eq!(format_coarse_elapsed(0), "0s");
    assert_eq!(format_coarse_elapsed(59), "59s");
    assert_eq!(format_coarse_elapsed(60), "1m 00s");
    assert_eq!(format_coarse_elapsed(125), "2m 05s");
}

#[test]
fn output_tails_skip_blank_lines() {
    assert_eq!(last_nonempty_lines("a\n\n b \n\nc\n", 2), vec!["b", "c"]);
    assert_eq!(last_nonempty_lines("\n\n", 2), Vec::<String>::new());
    assert_eq!(make_interactions_label(1), "1 interaction");
    assert_eq!(make_interactions_label(3), "3 interactions");
}

#[test]
fn failed_operations_are_shown() {
    let mut cell = AgentFleetLifecycleCell::new();
    cell.update_tool_call(
        &tool_call(
            "close-a",
            CollabAgentTool::CloseAgent,
            CollabAgentToolCallStatus::Failed,
            &["thread-a"],
            None,
            Vec::new(),
        ),
        &labels(),
    );
    let output = card_text(cell.display_lines(100, 0));
    assert!(output.contains("close"), "{output}");
    assert!(output.contains("failed"), "{output}");
}

#[test]
fn agents_are_kept_in_the_order_of_their_threads() {
    let mut cell = AgentFleetLifecycleCell::new();
    for thread in ["thread-c", "thread-a", "thread-b"] {
        cell.update_activity(&SubAgentActivity {
            kind: SubAgentActivityKind::Started,
            agent_thread_id: thread.to_string(),
            agent_path: format!("/root/{thread}"),
        });
    }
    let threads: Vec<&str> = cell.agents.iter().map(|(id, _)| id.as_str()).collect();
    assert_eq!(threads, vec!["thread-a", "thread-b", "thread-c"]);
    assert_eq!(FleetCounts::from_state(&cell).running, 3);
}

#[test]
fn spawn_configurations_name_model_and_effort() {
    assert_eq!(spawn_configuration(&None, &None), None);
    let both = spawn_configuration(&Some("small".to_string()), &Some("high".to_string()))
        .expect("a configuration");
    assert!(both.contains("small"));
    assert!(both.contains("high"));
    assert_eq!(collab_tool_label(CollabAgentTool::Wait), "wait");
}

#[test]
fn an_agent_without_a_name_is_named_by_the_start_of_its_thread() {
    let mut cell = AgentFleetLifecycleCell::new();
    cell.update_tool_call(
        &tool_call(
            "wait",
            CollabAgentTool::Wait,
            CollabAgentToolCallStatus::Completed,
            &["0123456789abcdef"],
            None,
            vec![(
                "0123456789abcdef".to_string(),
                agent_state(CollabAgentStatus::Completed, "done"),
            )],
        ),
        &labels(),
    );
    let record: Vec<String> = cell.raw_lines(0).iter().map(|line| line_text(line)).collect();
    assert!(record.contains(&"[agent] 0123456789ab: completed".to_string()), "{record:?}");
    let output = card_text(cell.display_lines(100, 0));
    assert!(output.contains("0123456789ab: done"), "{output}");
}
