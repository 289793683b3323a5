//! Laws of the restoration of tool calls from legacy rollouts.

use vstd::prelude::*;

use crate::dynamic_tool::DynamicToolCallStatus;
use crate::json::JsonTree;
use crate::legacy_tool_history;
use crate::legacy_tool_history::ActiveTurn;
use crate::legacy_tool_history::BuilderAction;
use crate::legacy_tool_history::CompactArguments;
use crate::legacy_tool_history::LegacyToolProjector;
use crate::legacy_tool_history::LegacyToolRestoreCounters;
use crate::legacy_tool_history::LegacyToolRestoreOutcome;
use crate::legacy_tool_history::RecordRoute;
use crate::legacy_tool_history::SlimResponseItem;
use crate::text;

verus! {

/// Whether an item is a call that awaits its output under the given name: a function call, a
/// custom tool call, or a search that the client runs.
pub open spec fn begins(item: SlimResponseItem, id: Seq<char>, turn: Option<String>) -> bool {
    match item {
        SlimResponseItem::FunctionCall { call_id, turn_id, .. } => call_id@ == id && turn_id
            == turn,
        SlimResponseItem::CustomToolCall { call_id, turn_id, .. } => call_id@ == id && turn_id
            == turn,
        SlimResponseItem::ToolSearchCall { id: own, call_id, execution, turn_id, .. } => {
            &&& turn_id == turn
            &&& match call_id {
                Some(named) => named@ == id,
                None => execution@ != "server"@ && (own matches Some(named) && named@ == id),
            }
        },
        _ => false,
    }
}

/// Whether an item is the output of the call of the given name.
pub open spec fn ends(item: SlimResponseItem, id: Seq<char>, turn: Option<String>) -> bool {
    match item {
        SlimResponseItem::FunctionCallOutput { call_id, turn_id } => call_id@ == id && turn_id
            == turn,
        SlimResponseItem::CustomToolCallOutput { call_id, turn_id } => call_id@ == id && turn_id
            == turn,
        SlimResponseItem::ToolSearchOutput { call_id, turn_id } => (call_id matches Some(named)
            && named@ == id) && turn_id == turn,
        _ => false,
    }
}

/// Whether an item is a search that the server ran under the given name.
pub open spec fn server_search(item: SlimResponseItem, id: Seq<char>) -> bool {
    item matches SlimResponseItem::ToolSearchCall { id: own, call_id, execution, .. } && call_id
        is None && execution@ == "server"@ && (own matches Some(named) && named@ == id)
}

/// The tool that a call calls.
pub open spec fn tool_called(item: SlimResponseItem) -> Seq<char> {
    match item {
        SlimResponseItem::FunctionCall { name, .. } => name@,
        SlimResponseItem::CustomToolCall { name, .. } => name@,
        _ => "tool_search"@,
    }
}

/// Whether a text is given and says something.
pub open spec fn says(value: Option<String>) -> bool {
    value matches Some(s) && s@.len() > 0
}

/// Whether a call belongs to a turn: the one that is active, or else the one that the call names,
/// or else the one that the builder would take.
pub open spec fn belongs(active: ActiveTurn, named: Option<String>, turn: Seq<char>) -> bool {
    let open = active.has_active_turn && active.turn_id is Some;
    ||| open && (active.turn_id matches Some(t) && t@ == turn)
    ||| !open && says(named) && (named matches Some(t) && t@ == turn)
    ||| !open && !says(named) && (active.turn_id matches Some(t) && t@ == turn)
}

/// A row of a call that was started.
pub open spec fn starts_row(action: BuilderAction, turn: Seq<char>, id: Seq<char>, tool: Seq<char>) -> bool {
    action matches BuilderAction::ItemStarted { turn_id, item } && turn_id@ == turn && item.call_id@
        == id && item.tool@ == tool && item.status == DynamicToolCallStatus::InProgress
}

/// A row of a call that was completed.
pub open spec fn completes_row(
    action: BuilderAction,
    turn: Seq<char>,
    id: Seq<char>,
    tool: Seq<char>,
) -> bool {
    action matches BuilderAction::ItemCompleted { turn_id, item } && turn_id@ == turn
        && item.call_id@ == id && item.tool@ == tool && item.status
        == DynamicToolCallStatus::Completed
}

/// Whether a call awaits its output in a turn.
pub open spec fn awaits(
    projector: LegacyToolProjector,
    id: Seq<char>,
    turn: Seq<char>,
    tool: Seq<char>,
) -> bool {
    projector.pending_calls.value(id) matches Some(call) && call.turn_id@ == turn && call.tool@
        == tool
}

/// Whether an output names no other turn than the given one.
pub open spec fn agrees(named: Option<String>, turn: Seq<char>) -> bool {
    says(named) ==> (named matches Some(t) && t@ == turn)
}

/// Every call is started in its turn, and from then on awaits its output.
pub proof fn law_call_is_started_in_its_turn(
    before: LegacyToolProjector,
    after: LegacyToolProjector,
    actions: Seq<BuilderAction>,
    active: ActiveTurn,
    item: SlimResponseItem,
    id: Seq<char>,
    named: Option<String>,
    turn: Seq<char>,
)
    requires
        legacy_tool_history::handled(before, after, actions, active, item),
        begins(item, id, named),
        belongs(active, named, turn),
    ensures
        actions.len() == 1,
        starts_row(actions[0], turn, id, tool_called(item)),
        awaits(after, id, turn, tool_called(item)),
        after.inserted_call_ids@.contains(id),
        after.richer_item_ids == before.richer_item_ids,
        after.turn_assignment_conflict == before.turn_assignment_conflict,
{
}

/// A call that belongs to no turn is left out, but counts as a record.
pub proof fn law_call_without_a_turn_is_left_out(
    before: LegacyToolProjector,
    after: LegacyToolProjector,
    actions: Seq<BuilderAction>,
    active: ActiveTurn,
    item: SlimResponseItem,
    id: Seq<char>,
    named: Option<String>,
)
    requires
        legacy_tool_history::handled(before, after, actions, active, item),
        begins(item, id, named),
        active.turn_id is None,
        !says(named),
    ensures
        actions == seq![BuilderAction::Noop],
        after == before,
{
}

/// Every output completes the call that it carries the name of, in the turn of the call and with
/// what the call said, unless the call is recorded richly or the output names another turn.
/// Nothing awaits under that name afterwards.
pub proof fn law_output_completes_its_call(
    before: LegacyToolProjector,
    after: LegacyToolProjector,
    actions: Seq<BuilderAction>,
    active: ActiveTurn,
    item: SlimResponseItem,
    id: Seq<char>,
    named: Option<String>,
    turn: Seq<char>,
    tool: Seq<char>,
)
    requires
        legacy_tool_history::handled(before, after, actions, active, item),
        ends(item, id, named),
        awaits(before, id, turn, tool),
        agrees(named, turn),
        !before.richer_item_ids@.contains(id),
    ensures
        actions.len() == 1,
        completes_row(actions[0], turn, id, tool),
        actions[0] matches BuilderAction::ItemCompleted { turn_id: _, item: row }
            && row.namespace == before.pending_calls.value(id)->0.namespace && row.arguments
            == before.pending_calls.value(id)->0.arguments,
        after.pending_calls.value(id) is None,
        after.inserted_call_ids@ == before.inserted_call_ids@,
        after.turn_assignment_conflict == before.turn_assignment_conflict,
{
}

/// A call and its output make one row: started and then completed, in the same turn, for the same
/// tool. It does not matter of which kind the two items are, nor which turn is active when the
/// output is met.
pub proof fn law_call_and_output_make_one_row(
    before: LegacyToolProjector,
    between: LegacyToolProjector,
    after: LegacyToolProjector,
    first: Seq<BuilderAction>,
    second: Seq<BuilderAction>,
    active: ActiveTurn,
    later: ActiveTurn,
    call: SlimResponseItem,
    output: SlimResponseItem,
    id: Seq<char>,
    named: Option<String>,
    answered: Option<String>,
    turn: Seq<char>,
)
    requires
        legacy_tool_history::handled(before, between, first, active, call),
        legacy_tool_history::handled(between, after, second, later, output),
        begins(call, id, named),
        ends(output, id, answered),
        belongs(active, named, turn),
        agrees(answered, turn),
        !before.richer_item_ids@.contains(id),
    ensures
        first.len() == 1 && starts_row(first[0], turn, id, tool_called(call)),
        second.len() == 1 && completes_row(second[0], turn, id, tool_called(call)),
        after.pending_calls.value(id) is None,
        after.inserted_call_ids@.contains(id),
        after.turn_assignment_conflict == before.turn_assignment_conflict,
{
    law_call_is_started_in_its_turn(before, between, first, active, call, id, named, turn);
    law_output_completes_its_call(
        between,
        after,
        second,
        later,
        output,
        id,
        answered,
        turn,
        tool_called(call),
    );
}

/// No call is completed twice: an output without a call that awaits it counts as a record and does
/// nothing else.
pub proof fn law_no_call_is_completed_twice(
    before: LegacyToolProjector,
    after: LegacyToolProjector,
    actions: Seq<BuilderAction>,
    active: ActiveTurn,
    item: SlimResponseItem,
    id: Seq<char>,
    named: Option<String>,
)
    requires
        legacy_tool_history::handled(before, after, actions, active, item),
        ends(item, id, named),
        before.pending_calls.value(id) is None,
    ensures
        actions == seq![BuilderAction::Noop],
        forall|k: Seq<char>|
            #![trigger after.pending_calls.value(k)]
            after.pending_calls.value(k) == before.pending_calls.value(k),
        after.inserted_call_ids == before.inserted_call_ids,
        after.turn_assignment_conflict == before.turn_assignment_conflict,
{
}

/// An output that names another turn than its call puts the restoration in doubt and completes
/// nothing.
pub proof fn law_output_of_another_turn_is_a_conflict(
    before: LegacyToolProjector,
    after: LegacyToolProjector,
    actions: Seq<BuilderAction>,
    active: ActiveTurn,
    item: SlimResponseItem,
    id: Seq<char>,
    named: Option<String>,
    turn: Seq<char>,
    tool: Seq<char>,
)
    requires
        legacy_tool_history::handled(before, after, actions, active, item),
        ends(item, id, named),
        awaits(before, id, turn, tool),
        !agrees(named, turn),
    ensures
        after.turn_assignment_conflict,
        actions =~= seq![BuilderAction::Noop],
{
}

/// What is recorded richly is never restored a second time: the output of such a call drops its
/// row.
pub proof fn law_output_of_a_rich_record_drops_its_row(
    before: LegacyToolProjector,
    after: LegacyToolProjector,
    actions: Seq<BuilderAction>,
    active: ActiveTurn,
    item: SlimResponseItem,
    id: Seq<char>,
    named: Option<String>,
    turn: Seq<char>,
    tool: Seq<char>,
)
    requires
        legacy_tool_history::handled(before, after, actions, active, item),
        ends(item, id, named),
        awaits(before, id, turn, tool),
        agrees(named, turn),
        before.richer_item_ids@.contains(id),
    ensures
        actions =~= seq![BuilderAction::Noop],
        !after.inserted_call_ids@.contains(id),
        after.pending_calls.value(id) is None,
        after.turn_assignment_conflict == before.turn_assignment_conflict,
{
}

/// Items that are recorded richly have no compact row, and never get one completed later; no other
/// item is touched.
pub proof fn law_rich_records_take_the_place_of_rows(
    before: LegacyToolProjector,
    after: LegacyToolProjector,
    ids: Seq<Seq<char>>,
    id: Seq<char>,
)
    requires
        legacy_tool_history::recorded_richly(before, after, ids),
    ensures
        ids.contains(id) ==> !after.inserted_call_ids@.contains(id)
            && after.richer_item_ids@.contains(id),
        !ids.contains(id) ==> after.inserted_call_ids@.contains(id)
            == before.inserted_call_ids@.contains(id) && after.richer_item_ids@.contains(id)
            == before.richer_item_ids@.contains(id),
        after.pending_calls.value(id) == before.pending_calls.value(id),
        after.turn_assignment_conflict == before.turn_assignment_conflict,
{
    assert(ids.to_set().contains(id) <==> ids.contains(id));
}

/// An item leaves alone every call that it does not carry the name of: what awaits goes on
/// awaiting, and what was restored stays so.
pub proof fn law_items_leave_other_calls_alone(
    before: LegacyToolProjector,
    after: LegacyToolProjector,
    actions: Seq<BuilderAction>,
    active: ActiveTurn,
    item: SlimResponseItem,
    id: Seq<char>,
)
    requires
        legacy_tool_history::handled(before, after, actions, active, item),
        forall|turn: Option<String>| !begins(item, id, turn) && !ends(item, id, turn),
        !server_search(item, id),
    ensures
        after.pending_calls.value(id) == before.pending_calls.value(id),
        after.inserted_call_ids@.contains(id) == before.inserted_call_ids@.contains(id),
        after.richer_item_ids@ == before.richer_item_ids@,
        actions.len() > 0,
{
    match item {
        SlimResponseItem::FunctionCall { turn_id, .. } => {
            assert(!begins(item, id, turn_id));
        },
        SlimResponseItem::CustomToolCall { turn_id, .. } => {
            assert(!begins(item, id, turn_id));
        },
        SlimResponseItem::ToolSearchCall { turn_id, .. } => {
            assert(!begins(item, id, turn_id));
        },
        SlimResponseItem::FunctionCallOutput { turn_id, .. } => {
            assert(!ends(item, id, turn_id));
        },
        SlimResponseItem::CustomToolCallOutput { turn_id, .. } => {
            assert(!ends(item, id, turn_id));
        },
        SlimResponseItem::ToolSearchOutput { turn_id, .. } => {
            assert(!ends(item, id, turn_id));
        },
        SlimResponseItem::Other => {},
    }
}

/// A search on the server is restored whole once it is complete: started and completed in its
/// turn, with nothing left to await. One that is not complete is left out.
pub proof fn law_server_search_is_restored_whole(
    before: LegacyToolProjector,
    after: LegacyToolProjector,
    actions: Seq<BuilderAction>,
    active: ActiveTurn,
    item: SlimResponseItem,
    id: Seq<char>,
    turn: Seq<char>,
)
    requires
        legacy_tool_history::handled(before, after, actions, active, item),
        server_search(item, id),
        item matches SlimResponseItem::ToolSearchCall { turn_id, .. } && belongs(
            active,
            turn_id,
            turn,
        ),
        !before.richer_item_ids@.contains(id),
    ensures
        item matches SlimResponseItem::ToolSearchCall { status, .. } && (if status matches Some(
            s,
        ) && s@ == "completed"@ {
            &&& actions.len() == 2
            &&& starts_row(actions[0], turn, id, "tool_search"@)
            &&& completes_row(actions[1], turn, id, "tool_search"@)
            &&& after.pending_calls.value(id) is None
            &&& after.inserted_call_ids@.contains(id)
        } else {
            actions == seq![BuilderAction::Noop] && after == before
        }),
{
    if let SlimResponseItem::ToolSearchCall { id: own, call_id, status, execution, turn_id } =
        item {
        if status matches Some(s) && s@ == "completed"@ {
            let search = own->0;
            assert(legacy_tool_history::searched(
                before,
                after,
                actions,
                active,
                search,
                execution,
                turn_id,
            ));
            let (middle, tool) = choose|middle: LegacyToolProjector, tool: String|
                tool@ == "tool_search"@ && actions.len() == 2
                    && #[trigger] legacy_tool_history::started(
                    before,
                    middle,
                    actions.take(1),
                    active,
                    search,
                    Some(execution),
                    tool,
                    CompactArguments::Null,
                    turn_id,
                ) && legacy_tool_history::completed(
                    middle,
                    after,
                    actions.skip(1),
                    search@,
                    None,
                );
            assert(actions.take(1)[0] == actions[0]);
            assert(actions.skip(1)[0] == actions[1]);
        }
    }
}

/// Of the arguments of a command its text and its directory are kept, as the document spells them
/// under the first key of that name; of every other tool nothing is kept.
pub proof fn law_only_command_and_directory_are_kept(
    kept: CompactArguments,
    tool: Seq<char>,
    entries: Seq<(Seq<char>, JsonTree)>,
    i: int,
)
    requires
        legacy_tool_history::kept_arguments(kept, tool, Some(JsonTree::Object(entries))),
        0 <= i < entries.len(),
    ensures
        tool != "exec_command"@ ==> kept is Null,
        tool == "exec_command"@ ==> kept is Exec,
        kept matches CompactArguments::Exec { cmd, workdir } ==> {
            &&& (entries[i].0 == "cmd"@ && first_of_its_name(entries, i)) ==> match entries[i].1 {
                JsonTree::Text(t) => cmd matches Some(c) && c@ == t,
                _ => cmd is None,
            }
            &&& (entries[i].0 == "workdir"@ && first_of_its_name(entries, i))
                ==> match entries[i].1 {
                JsonTree::Text(t) => workdir matches Some(w) && w@ == t,
                _ => workdir is None,
            }
        },
{
    if first_of_its_name(entries, i) {
        lemma_first_entry(entries, i);
    }
}

pub open spec fn first_of_its_name(entries: Seq<(Seq<char>, JsonTree)>, i: int) -> bool {
    forall|k: int| 0 <= k < i ==> (#[trigger] entries[k]).0 != entries[i].0
}

proof fn lemma_first_entry(entries: Seq<(Seq<char>, JsonTree)>, i: int)
    requires
        0 <= i < entries.len(),
        first_of_its_name(entries, i),
    ensures
        legacy_tool_history::tree_entry_index(entries, entries[i].0) == i,
    decreases entries.len(),
{
    if i > 0 {
        assert(entries[0].0 != entries[i].0);
        let rest = entries.skip(1);
        assert forall|k: int| 0 <= k < i - 1 implies (#[trigger] rest[k]).0 != rest[i - 1].0 by {
            assert(entries[k + 1].0 != entries[i].0);
        }
        lemma_first_entry(rest, i - 1);
    }
}

/// An argument that the document does not name is not made up, and a document that is no object
/// gives no arguments.
pub proof fn law_missing_arguments_are_not_made_up(
    kept: CompactArguments,
    tool: Seq<char>,
    document: Option<JsonTree>,
)
    requires
        legacy_tool_history::kept_arguments(kept, tool, document),
    ensures
        document is None ==> kept is Null,
        document matches Some(tree) ==> !(tree is Object) ==> kept is Null,
        document matches Some(JsonTree::Object(entries)) ==> (
        kept matches CompactArguments::Exec { cmd, workdir } ==> {
            &&& (forall|k: int| 0 <= k < entries.len() ==> (#[trigger] entries[k]).0 != "cmd"@)
                ==> cmd is None
            &&& (forall|k: int| 0 <= k < entries.len() ==> (#[trigger] entries[k]).0 != "workdir"@)
                ==> workdir is None
        }),
{
    if let Some(JsonTree::Object(entries)) = document {
        lemma_no_entry(entries, "cmd"@);
        lemma_no_entry(entries, "workdir"@);
    }
}

proof fn lemma_no_entry(entries: Seq<(Seq<char>, JsonTree)>, key: Seq<char>)
    ensures
        (forall|k: int| 0 <= k < entries.len() ==> (#[trigger] entries[k]).0 != key)
            ==> legacy_tool_history::tree_entry_index(entries, key) == entries.len(),
    decreases entries.len(),
{
    if entries.len() > 0 {
        let rest = entries.skip(1);
        lemma_no_entry(rest, key);
        if forall|k: int| 0 <= k < entries.len() ==> (#[trigger] entries[k]).0 != key {
            assert(entries[0].0 != key);
            assert forall|k: int| 0 <= k < rest.len() implies (#[trigger] rest[k]).0 != key by {
                assert(entries[k + 1].0 != key);
            }
        }
    }
}

/// A try counts under its own end and under no other.
pub proof fn law_each_end_has_its_own_counter(
    counters: LegacyToolRestoreCounters,
    outcome: Option<LegacyToolRestoreOutcome>,
)
    requires
        counters.problem() is None,
        counters.attempts < u64::MAX,
    ensures
        ({
            let next = legacy_tool_history::counted_try(counters, outcome);
            &&& next.attempts - counters.attempts == 1
            &&& next.restore_success - counters.restore_success == if outcome == Some(
                LegacyToolRestoreOutcome::RestoreSuccess,
            ) {
                1int
            } else {
                0int
            }
            &&& next.invalid_thread - counters.invalid_thread == if outcome == Some(
                LegacyToolRestoreOutcome::InvalidThread,
            ) {
                1int
            } else {
                0int
            }
            &&& next.restore_read_failure - counters.restore_read_failure == if outcome == Some(
                LegacyToolRestoreOutcome::RestoreReadFailure,
            ) {
                1int
            } else {
                0int
            }
            &&& next.turn_assignment_conflict - counters.turn_assignment_conflict == if outcome
                == Some(LegacyToolRestoreOutcome::TurnAssignmentConflict) {
                1int
            } else {
                0int
            }
            &&& next.baseline_mismatch - counters.baseline_mismatch == if outcome == Some(
                LegacyToolRestoreOutcome::BaselineMismatch,
            ) {
                1int
            } else {
                0int
            }
        }),
{
}

/// Counters are usable exactly where their ends, added up, do not outnumber the tries.
pub proof fn law_usable_counters_add_up(counters: LegacyToolRestoreCounters)
    ensures
        counters.problem() is None <==> counters.restore_success + counters.invalid_thread
            + counters.restore_read_failure + counters.turn_assignment_conflict
            + counters.baseline_mismatch <= counters.attempts,
        counters.restore_success + counters.invalid_thread + counters.restore_read_failure
            + counters.turn_assignment_conflict + counters.baseline_mismatch > u64::MAX
            ==> counters.problem() == Some(
            legacy_tool_history::CounterError::OutcomeTotalOverflowed,
        ),
{
}

/// A blank line is passed over whatever it claims to be, and the three kinds of records that are
/// read are told apart by their type; every other record is ignored.
pub proof fn law_records_are_told_apart_by_type(line: Seq<char>, kind: Seq<char>)
    ensures
        text::trimmed(line).len() == 0 ==> legacy_tool_history::routed(line, kind)
            == RecordRoute::Blank,
        text::trimmed(line).len() > 0 ==> {
            let route = legacy_tool_history::routed(line, kind);
            &&& kind == "event_msg"@ ==> route == RecordRoute::Event
            &&& kind == "compacted"@ ==> route == RecordRoute::Compacted
            &&& kind == "response_item"@ ==> route == RecordRoute::ResponseItem
            &&& kind != "event_msg"@ && kind != "compacted"@ && kind != "response_item"@ ==> route
                == RecordRoute::Ignored
        },
{
    reveal_strlit("event_msg");
    reveal_strlit("compacted");
    reveal_strlit("response_item");
    assert("event_msg"@.len() == 9 && "compacted"@.len() == 9 && "response_item"@.len() == 13);
    assert("event_msg"@[0] == 'e' && "compacted"@[0] == 'c');
}

/// What a user or an agent said, the ends of tool calls and of items, and the bounds of turns
/// belong to the history.
pub proof fn law_history_holds_what_was_said_and_done()
    ensures
        legacy_tool_history::materialized("user_message"@),
        legacy_tool_history::materialized("agent_message"@),
        legacy_tool_history::materialized("agent_reasoning"@),
        legacy_tool_history::materialized("agent_reasoning_raw_content"@),
        legacy_tool_history::materialized("web_search_end"@),
        legacy_tool_history::materialized("patch_apply_end"@),
        legacy_tool_history::materialized("mcp_tool_call_end"@),
        legacy_tool_history::materialized("image_generation_end"@),
        legacy_tool_history::materialized("sub_agent_activity"@),
        legacy_tool_history::materialized("context_compacted"@),
        legacy_tool_history::materialized("entered_review_mode"@),
        legacy_tool_history::materialized("exited_review_mode"@),
        legacy_tool_history::materialized("item_completed"@),
        legacy_tool_history::materialized("thread_rolled_back"@),
        legacy_tool_history::materialized("turn_aborted"@),
        legacy_tool_history::materialized("task_started"@),
        legacy_tool_history::materialized("turn_started"@),
        legacy_tool_history::materialized("task_complete"@),
        legacy_tool_history::materialized("turn_complete"@),
{
}

} // verus!
