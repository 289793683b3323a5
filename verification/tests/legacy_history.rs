use quiet_tui::dynamic_tool::DynamicToolCallStatus;
use quiet_tui::hook_lifecycle::{ChatWidget, HookCell, PendingCommit};
use quiet_tui::json::parse_json;
use quiet_tui::keyed::TextSet;
use quiet_tui::legacy_tool_history::{
    compact_function_arguments, compact_parsed_arguments, counter_error_text, increment_counter,
    materializes_legacy_history, route_record, update_restore_counters, ActiveTurn, BuilderAction,
    CompactArguments, CounterError, LegacyToolProjector, LegacyToolRestoreCounters,
    LegacyToolRestoreOutcome, RecordRoute, SlimResponseItem,
};
use quiet_tui::legacy_turns::{
    baseline_turns, begin_restore, finish_restore, merge_authoritative_hook_prompts,
    merge_authoritative_turn_state, LegacyToolReplay, RestoreStart, ThreadItem, ThreadItemKind,
    Turn, TurnState, TurnStatus,
};

fn active(turn_id: &str) -> ActiveTurn {
    ActiveTurn { has_active_turn: true, turn_id: Some(turn_id.to_string()) }
}

fn function_call(turn_id: &str, call_id: &str, name: &str, arguments: &str) -> SlimResponseItem {
    SlimResponseItem::FunctionCall {
        name: name.to_string(),
        namespace: None,
        arguments: arguments.to_string(),
        call_id: call_id.to_string(),
        turn_id: Some(turn_id.to_string()),
    }
}

fn function_output(turn_id: &str, call_id: &str) -> SlimResponseItem {
    SlimResponseItem::FunctionCallOutput {
        call_id: call_id.to_string(),
        turn_id: Some(turn_id.to_string()),
    }
}

fn completed_id(actions: &[BuilderAction]) -> Option<String> {
    actions.iter().find_map(|action| match action {
        BuilderAction::ItemCompleted { item, .. } => Some(item.call_id.clone()),
        _ => None,
    })
}

#[test]
fn calls_are_restored_without_output_bodies() {
    let mut projector = LegacyToolProjector::new();
    let turn = active("turn-1");
    let started = projector.handle_response_item(
        &turn,
        function_call(
            "turn-1",
            "exec-1",
            "exec_command",
            r#"{"cmd":"printf hello","workdir":"/tmp","max_output_tokens":99999}"#,
        ),
    );
    let [BuilderAction::ItemStarted { turn_id, item }] = started.as_slice() else {
        panic!("one item starts");
    };
    assert_eq!(turn_id, "turn-1");
    assert_eq!(item.call_id, "exec-1");
    assert_eq!(item.tool, "exec_command");
    assert_eq!(item.status, DynamicToolCallStatus::InProgress);
    assert!(matches!(
        &item.arguments,
        CompactArguments::Exec { cmd: Some(cmd), workdir: Some(workdir) }
            if cmd == "printf hello" && workdir == "/tmp"
    ));

    let completed = projector.handle_response_item(&turn, function_output("turn-1", "exec-1"));
    let [BuilderAction::ItemCompleted { item, .. }] = completed.as_slice() else {
        panic!("one item completes");
    };
    assert_eq!(item.status, DynamicToolCallStatus::Completed);

    let other = projector.handle_response_item(
        &turn,
        function_call("turn-1", "goal-1", "get_goal", r#"{"unused":"large input"}"#),
    );
    let [BuilderAction::ItemStarted { item, .. }] = other.as_slice() else {
        panic!("one item starts");
    };
    assert!(matches!(item.arguments, CompactArguments::Null));
    assert!(projector.inserted_call_ids.contains("exec-1"));
    assert!(projector.inserted_call_ids.contains("goal-1"));
}

#[test]
fn richer_items_are_not_restored_twice() {
    let mut projector = LegacyToolProjector::new();
    let turn = active("turn-1");
    projector
        .handle_response_item(&turn, function_call("turn-1", "patch-1", "apply_patch", "{}"));
    projector.handle_materialized_event(&vec!["patch-1".to_string()]);
    let actions = projector.handle_response_item(&turn, function_output("turn-1", "patch-1"));
    assert!(matches!(actions.as_slice(), [BuilderAction::Noop]));
    projector.handle_response_item(&turn, function_call("turn-1", "plan-1", "update_plan", "{}"));
    let actions = projector.handle_response_item(&turn, function_output("turn-1", "plan-1"));
    assert_eq!(completed_id(&actions).as_deref(), Some("plan-1"));
    assert!(!projector.inserted_call_ids.contains("patch-1"));
    assert!(projector.inserted_call_ids.contains("plan-1"));
}

#[test]
fn tool_searches_are_restored() {
    let mut projector = LegacyToolProjector::new();
    let turn = active("turn-1");
    let started = projector.handle_response_item(
        &turn,
        SlimResponseItem::ToolSearchCall {
            id: None,
            call_id: Some("search-1".to_string()),
            status: Some("completed".to_string()),
            execution: "client".to_string(),
            turn_id: Some("turn-1".to_string()),
        },
    );
    assert!(matches!(
        started.as_slice(),
        [BuilderAction::ItemStarted { item, .. }]
            if item.tool == "tool_search" && item.namespace.as_deref() == Some("client")
    ));
    let output = projector.handle_response_item(
        &turn,
        SlimResponseItem::ToolSearchOutput {
            call_id: Some("search-1".to_string()),
            turn_id: Some("turn-1".to_string()),
        },
    );
    assert_eq!(completed_id(&output).as_deref(), Some("search-1"));
}

#[test]
fn completed_server_tool_searches_do_not_remain_unfinished() {
    let mut projector = LegacyToolProjector::new();
    let turn = active("turn-1");
    let search = |id: Option<&str>| SlimResponseItem::ToolSearchCall {
        id: id.map(str::to_string),
        call_id: None,
        status: Some("completed".to_string()),
        execution: "server".to_string(),
        turn_id: Some("turn-1".to_string()),
    };
    let without_id = projector.handle_response_item(&turn, search(None));
    assert!(matches!(without_id.as_slice(), [BuilderAction::Noop]));
    let output = projector.handle_response_item(
        &turn,
        SlimResponseItem::ToolSearchOutput { call_id: None, turn_id: None },
    );
    assert!(matches!(output.as_slice(), [BuilderAction::Noop]));
    let with_id = projector.handle_response_item(&turn, search(Some("tsc-1")));
    assert_eq!(with_id.len(), 2);
    assert_eq!(completed_id(&with_id).as_deref(), Some("tsc-1"));
    assert!(projector.pending_calls.entries.is_empty());
}

#[test]
fn the_active_turn_comes_before_the_metadata_of_a_call() {
    let mut projector = LegacyToolProjector::new();
    let started = projector
        .handle_response_item(&active("turn-2"), function_call("turn-1", "a", "tool", ""));
    assert!(matches!(
        started.as_slice(),
        [BuilderAction::ItemStarted { turn_id, .. }] if turn_id == "turn-2"
    ));
    let idle = ActiveTurn { has_active_turn: false, turn_id: Some("turn-3".to_string()) };
    let started = projector.handle_response_item(&idle, function_call("turn-1", "b", "tool", ""));
    assert!(matches!(
        started.as_slice(),
        [BuilderAction::ItemStarted { turn_id, .. }] if turn_id == "turn-1"
    ));
    let started = projector.handle_response_item(&idle, function_call("", "c", "tool", ""));
    assert!(matches!(
        started.as_slice(),
        [BuilderAction::ItemStarted { turn_id, .. }] if turn_id == "turn-3"
    ));
    let nowhere = ActiveTurn { has_active_turn: false, turn_id: None };
    let started = projector.handle_response_item(&nowhere, function_call("", "d", "tool", ""));
    assert!(matches!(started.as_slice(), [BuilderAction::Noop]));
}

#[test]
fn an_output_of_another_turn_is_a_conflict() {
    let mut projector = LegacyToolProjector::new();
    let turn = active("turn-1");
    projector.handle_response_item(&turn, function_call("turn-1", "a", "tool", ""));
    let actions = projector.handle_response_item(&turn, function_output("turn-9", "a"));
    assert!(matches!(actions.as_slice(), [BuilderAction::Noop]));
    assert!(projector.turn_assignment_conflict);
    projector.handle_response_item(&turn, function_call("turn-1", "b", "tool", ""));
    projector.handle_response_item(&turn, function_output("turn-1", "b"));
    assert!(projector.turn_assignment_conflict, "a conflict is kept");
}

#[test]
fn only_two_arguments_of_commands_are_kept() {
    assert!(matches!(
        compact_function_arguments("exec_command", r#"{"cmd":"ls","workdir":3}"#),
        CompactArguments::Exec { cmd: Some(cmd), workdir: None } if cmd == "ls"
    ));
    assert!(matches!(
        compact_function_arguments("exec_command", "[1]"),
        CompactArguments::Null
    ));
    assert!(matches!(
        compact_function_arguments("exec_command", "not json"),
        CompactArguments::Null
    ));
    assert!(matches!(
        compact_function_arguments("other", r#"{"cmd":"ls"}"#),
        CompactArguments::Null
    ));
    assert!(matches!(
        compact_parsed_arguments("exec_command", &parse_json("{}")),
        CompactArguments::Exec { cmd: None, workdir: None }
    ));
}

#[test]
fn records_are_routed_by_their_type() {
    assert_eq!(route_record("  ", "event_msg"), RecordRoute::Blank);
    assert_eq!(route_record("{}", "event_msg"), RecordRoute::Event);
    assert_eq!(route_record("{}", "compacted"), RecordRoute::Compacted);
    assert_eq!(route_record("{}", "response_item"), RecordRoute::ResponseItem);
    assert_eq!(route_record("{}", "world_state"), RecordRoute::Ignored);
    assert!(materializes_legacy_history("patch_apply_end"));
    assert!(!materializes_legacy_history("token_count"));
}

fn no_counters() -> LegacyToolRestoreCounters {
    LegacyToolRestoreCounters {
        attempts: 0,
        restore_success: 0,
        invalid_thread: 0,
        restore_read_failure: 0,
        turn_assignment_conflict: 0,
        baseline_mismatch: 0,
    }
}

#[test]
fn each_try_is_counted_with_its_outcome() {
    let outcomes = [
        LegacyToolRestoreOutcome::RestoreSuccess,
        LegacyToolRestoreOutcome::InvalidThread,
        LegacyToolRestoreOutcome::RestoreReadFailure,
        LegacyToolRestoreOutcome::TurnAssignmentConflict,
        LegacyToolRestoreOutcome::BaselineMismatch,
    ];
    let mut counters = no_counters();
    for outcome in outcomes {
        counters = update_restore_counters(counters, Some(outcome)).unwrap_or_else(|_| panic!());
    }
    counters = update_restore_counters(counters, None).unwrap_or_else(|_| panic!());
    assert_eq!(counters.attempts, 6);
    assert_eq!(counters.restore_success, 1);
    assert_eq!(counters.invalid_thread, 1);
    assert_eq!(counters.restore_read_failure, 1);
    assert_eq!(counters.turn_assignment_conflict, 1);
    assert_eq!(counters.baseline_mismatch, 1);
    assert!(counters.validate().is_ok());
}

#[test]
fn inconsistent_counters_are_refused() {
    let over = LegacyToolRestoreCounters { restore_success: 2, attempts: 1, ..no_counters() };
    assert!(matches!(over.validate(), Err(CounterError::OutcomesExceedAttempts)));
    let sum = LegacyToolRestoreCounters {
        attempts: 1,
        restore_success: u64::MAX,
        invalid_thread: 1,
        ..no_counters()
    };
    assert!(matches!(sum.validate(), Err(CounterError::OutcomeTotalOverflowed)));
    let full = LegacyToolRestoreCounters { attempts: u64::MAX, ..no_counters() };
    assert!(matches!(
        update_restore_counters(full, None),
        Err(CounterError::CounterOverflowed)
    ));
    let mut value = u64::MAX;
    assert!(increment_counter(&mut value).is_err());
    assert_eq!(value, u64::MAX);
    assert_eq!(
        counter_error_text(CounterError::CounterOverflowed),
        "legacy tool history counter overflowed"
    );
}

fn item(id: &str, kind: ThreadItemKind) -> ThreadItem {
    ThreadItem { id: id.to_string(), kind, body: String::new() }
}

fn restored(id: &str) -> ThreadItem {
    item(id, ThreadItemKind::DynamicToolCall { has_content_items: false, has_success: false })
}

fn turn(id: &str, status: TurnStatus, items: Vec<ThreadItem>) -> Turn {
    Turn {
        id: id.to_string(),
        items,
        state: TurnState {
            items_view: "full".to_string(),
            error: None,
            status,
            started_at: None,
            completed_at: None,
            duration_ms: None,
        },
    }
}

fn ids(turn: &Turn) -> Vec<&str> {
    turn.items.iter().map(|item| item.id.as_str()).collect()
}

fn inserted(ids: &[&str]) -> TextSet {
    let mut set = TextSet::new();
    for id in ids {
        set.insert(id);
    }
    set
}

#[test]
fn authoritative_hook_prompts_are_merged_at_their_anchor() {
    let authoritative = vec![turn(
        "turn-1",
        TurnStatus::Completed,
        vec![
            item("user", ThreadItemKind::Other),
            item("hook-1", ThreadItemKind::HookPrompt),
            item("agent", ThreadItemKind::Other),
        ],
    )];
    let mut rebuilt = vec![turn(
        "turn-1",
        TurnStatus::Completed,
        vec![
            item("user", ThreadItemKind::Other),
            restored("goal-1"),
            item("agent", ThreadItemKind::Other),
        ],
    )];
    merge_authoritative_hook_prompts(&mut rebuilt, &authoritative);
    assert_eq!(ids(&rebuilt[0]), vec!["user", "hook-1", "goal-1", "agent"]);
    merge_authoritative_hook_prompts(&mut rebuilt, &authoritative);
    assert_eq!(ids(&rebuilt[0]).len(), 4, "a prompt is merged once");
    let baseline = baseline_turns(&rebuilt, &inserted(&["goal-1"]));
    assert_eq!(ids(&baseline[0]), ids(&authoritative[0]));
}

#[test]
fn turn_states_come_from_the_authoritative_history() {
    let authoritative = vec![turn("turn-1", TurnStatus::Failed, Vec::new())];
    let mut rebuilt = vec![
        turn("turn-1", TurnStatus::Completed, Vec::new()),
        turn("turn-2", TurnStatus::Completed, Vec::new()),
    ];
    merge_authoritative_turn_state(&mut rebuilt, &authoritative);
    assert_eq!(rebuilt[0].state.status, TurnStatus::Failed);
    assert_eq!(rebuilt[1].state.status, TurnStatus::Completed);
}

#[test]
fn a_restoration_is_tried_only_for_idle_legacy_threads() {
    let idle = vec![turn("turn-1", TurnStatus::Completed, Vec::new())];
    let running = vec![turn("turn-1", TurnStatus::InProgress, Vec::new())];
    assert_eq!(begin_restore(true, true, &idle, true, true), RestoreStart::ReadRollout);
    assert_eq!(begin_restore(true, true, &idle, true, false), RestoreStart::InvalidThread);
    assert_eq!(begin_restore(true, true, &idle, false, true), RestoreStart::Skip);
    assert_eq!(begin_restore(true, true, &running, true, true), RestoreStart::Skip);
    assert_eq!(begin_restore(false, true, &idle, true, true), RestoreStart::Skip);
    assert_eq!(begin_restore(true, false, &idle, true, true), RestoreStart::Skip);
}

#[test]
fn rebuilt_turns_replace_the_thread_only_where_they_agree() {
    let thread = vec![turn(
        "turn-1",
        TurnStatus::Completed,
        vec![item("user", ThreadItemKind::Other)],
    )];
    let replay = |items, conflict, ids: &[&str]| {
        Some(LegacyToolReplay {
            turns: vec![turn("turn-1", TurnStatus::Interrupted, items)],
            inserted_call_ids: inserted(ids),
            turn_assignment_conflict: conflict,
        })
    };
    let both = || vec![item("user", ThreadItemKind::Other), restored("goal-1")];

    let read_failure = finish_restore(&thread, None);
    assert_eq!(read_failure.outcome, Some(LegacyToolRestoreOutcome::RestoreReadFailure));
    let conflict = finish_restore(&thread, replay(both(), true, &["goal-1"]));
    assert_eq!(conflict.outcome, Some(LegacyToolRestoreOutcome::TurnAssignmentConflict));
    assert!(conflict.turns.is_none());
    let nothing = finish_restore(&thread, replay(both(), false, &[]));
    assert_eq!(nothing.outcome, None);
    assert!(nothing.turns.is_none());
    let strange = vec![item("stranger", ThreadItemKind::Other), restored("goal-1")];
    let mismatch = finish_restore(&thread, replay(strange, false, &["goal-1"]));
    assert_eq!(mismatch.outcome, Some(LegacyToolRestoreOutcome::BaselineMismatch));
    assert!(mismatch.turns.is_none());

    let success = finish_restore(&thread, replay(both(), false, &["goal-1"]));
    assert_eq!(success.outcome, Some(LegacyToolRestoreOutcome::RestoreSuccess));
    let turns = success.turns.expect("the rebuilt turns");
    assert_eq!(ids(&turns[0]), vec!["user", "goal-1"]);
    assert_eq!(turns[0].state.status, TurnStatus::Completed);
}

fn hook_cell(cell_id: u64) -> HookCell {
    HookCell {
        cell_id,
        is_empty: false,
        should_flush: false,
        completed_persistent: None,
        empty_without_completed: false,
        running_status: Some("Running hook".to_string()),
        next_deadline_ms: Some(500),
    }
}

fn widget(active: Option<HookCell>) -> ChatWidget {
    ChatWidget {
        active_hook_cell: active,
        hook_status: None,
        needs_final_message_separator: false,
        pending_commits: Vec::new(),
        usage_insertion_requested: false,
        redraw_requested: false,
        answer_stream_flushed: false,
    }
}

#[test]
fn a_cleared_hook_cell_is_not_committed() {
    let mut widget = widget(Some(hook_cell(7)));
    widget.clear_active_hook_cell();
    assert!(widget.active_hook_cell.is_none());
    assert!(widget.pending_commits.is_empty());
    assert!(widget.usage_insertion_requested);
}

#[test]
fn completed_hook_output_is_flushed_once() {
    let cell = HookCell {
        completed_persistent: Some(9),
        empty_without_completed: true,
        ..hook_cell(7)
    };
    let mut widget = widget(Some(cell));
    widget.flush_completed_hook_output();
    assert_eq!(
        widget.pending_commits,
        vec![PendingCommit { cell_id: 9, retained_stream: false }]
    );
    assert!(widget.active_hook_cell.is_none());
    widget.flush_completed_hook_output();
    assert_eq!(widget.pending_commits.len(), 1);
}

#[test]
fn a_started_hook_shows_its_status_and_its_timer() {
    let mut widget = widget(None);
    assert_eq!(widget.schedule_hook_timer_if_needed(200), None);
    widget.on_hook_started(hook_cell(7));
    assert_eq!(widget.hook_status.as_deref(), Some("Running hook"));
    assert!(widget.answer_stream_flushed);
    assert!(widget.redraw_requested);
    assert_eq!(widget.schedule_hook_timer_if_needed(200), Some(300));
    assert_eq!(widget.schedule_hook_timer_if_needed(900), Some(0));
}

#[test]
fn a_completed_hook_is_committed_when_nothing_of_it_runs() {
    let mut widget = widget(Some(hook_cell(7)));
    widget.on_hook_completed(HookCell { should_flush: true, ..hook_cell(7) });
    assert!(widget.active_hook_cell.is_none());
    assert_eq!(
        widget.pending_commits,
        vec![PendingCommit { cell_id: 7, retained_stream: false }]
    );
    assert_eq!(widget.hook_status, None);
    assert!(widget.needs_final_message_separator);
    assert!(widget.redraw_requested);
}

#[test]
fn a_due_hook_cell_takes_the_place_of_the_active_one() {
    let mut idle = widget(None);
    idle.update_due_hook_visibility(hook_cell(8));
    assert!(idle.active_hook_cell.is_none());
    let mut active = widget(Some(hook_cell(7)));
    let later = HookCell { running_status: Some("Still running".to_string()), ..hook_cell(7) };
    active.update_due_hook_visibility(later);
    assert_eq!(active.hook_status.as_deref(), Some("Still running"));
    active.update_due_hook_visibility(HookCell { is_empty: true, ..hook_cell(7) });
    assert!(active.active_hook_cell.is_none());
    assert!(active.pending_commits.is_empty());
}
