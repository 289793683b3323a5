//! Restoration of compact tool-call rows from legacy local rollouts.
//!
//! Older rollouts hold response tool calls, but not the richer command events that history replay
//! uses. This projector restores only bounded call metadata.

use vstd::prelude::*;

use crate::dynamic_tool;
use crate::dynamic_tool::DynamicToolCallStatus;
use crate::json;
use crate::json::Json;
use crate::json::JsonTree;
use crate::keyed::TextMap;
use crate::keyed::TextSet;
use crate::text;

verus! {

#[derive(Clone, Copy, Debug, PartialEq, Eq, Structural)]
pub enum LegacyToolRestoreOutcome {
    RestoreSuccess,
    InvalidThread,
    RestoreReadFailure,
    TurnAssignmentConflict,
    BaselineMismatch,
}

/// Why stored counters cannot be used.
#[derive(Clone, Copy, Debug, PartialEq, Eq, Structural)]
pub enum CounterError {
    OutcomeTotalOverflowed,
    OutcomesExceedAttempts,
    CounterOverflowed,
}

pub fn counter_error_text(error: CounterError) -> (r: &'static str)
    ensures
        r@ == (match error {
            CounterError::OutcomeTotalOverflowed =>
                "legacy tool history counter outcome total overflowed"@,
            CounterError::OutcomesExceedAttempts =>
                "legacy tool history counter outcomes exceed attempts"@,
            CounterError::CounterOverflowed => "legacy tool history counter overflowed"@,
        }),
{
    match error {
        CounterError::OutcomeTotalOverflowed =>
            "legacy tool history counter outcome total overflowed",
        CounterError::OutcomesExceedAttempts =>
            "legacy tool history counter outcomes exceed attempts",
        CounterError::CounterOverflowed => "legacy tool history counter overflowed",
    }
}

/// How often a restoration was tried, and how the tries ended.
#[derive(Clone, Copy, Debug, PartialEq, Eq, Structural)]
pub struct LegacyToolRestoreCounters {
    pub attempts: u64,
    pub restore_success: u64,
    pub invalid_thread: u64,
    pub restore_read_failure: u64,
    pub turn_assignment_conflict: u64,
    pub baseline_mismatch: u64,
}

impl Default for LegacyToolRestoreCounters {
    fn default() -> (r: Self)
        ensures
            r.attempts == 0 && r.outcomes() == 0,
    {
        LegacyToolRestoreCounters {
            attempts: 0,
            restore_success: 0,
            invalid_thread: 0,
            restore_read_failure: 0,
            turn_assignment_conflict: 0,
            baseline_mismatch: 0,
        }
    }
}

impl LegacyToolRestoreCounters {
    pub open spec fn outcomes(&self) -> int {
        self.restore_success + self.invalid_thread + self.restore_read_failure
            + self.turn_assignment_conflict + self.baseline_mismatch
    }

    /// What is wrong with the counters.
    pub open spec fn problem(&self) -> Option<CounterError> {
        if self.outcomes() > u64::MAX {
            Some(CounterError::OutcomeTotalOverflowed)
        } else if self.outcomes() > self.attempts {
            Some(CounterError::OutcomesExceedAttempts)
        } else {
            None
        }
    }

    pub fn validate(&self) -> (r: Result<(), CounterError>)
        ensures
            match r {
                Ok(_) => self.problem() is None,
                Err(error) => self.problem() == Some(error),
            },
    {
        let second = match self.restore_success.checked_add(self.invalid_thread) {
            Some(n) => n,
            None => {
                return Err(CounterError::OutcomeTotalOverflowed);
            },
        };
        let third = match second.checked_add(self.restore_read_failure) {
            Some(n) => n,
            None => {
                return Err(CounterError::OutcomeTotalOverflowed);
            },
        };
        let fourth = match third.checked_add(self.turn_assignment_conflict) {
            Some(n) => n,
            None => {
                return Err(CounterError::OutcomeTotalOverflowed);
            },
        };
        let sum = match fourth.checked_add(self.baseline_mismatch) {
            Some(n) => n,
            None => {
                return Err(CounterError::OutcomeTotalOverflowed);
            },
        };
        if sum > self.attempts {
            return Err(CounterError::OutcomesExceedAttempts);
        }
        Ok(())
    }
}

pub fn increment_counter(value: &mut u64) -> (r: Result<(), CounterError>)
    ensures
        match r {
            Ok(_) => *old(value) < u64::MAX && *final(value) == *old(value) + 1,
            Err(error) => *old(value) == u64::MAX && *final(value) == *old(value) && error
                == CounterError::CounterOverflowed,
        },
{
    if *value == u64::MAX {
        return Err(CounterError::CounterOverflowed);
    }
    *value = *value + 1;
    Ok(())
}

/// The counters after one more try with the given end, before they are validated.
pub open spec fn counted_try(
    counters: LegacyToolRestoreCounters,
    outcome: Option<LegacyToolRestoreOutcome>,
) -> LegacyToolRestoreCounters {
    let tried = LegacyToolRestoreCounters {
        attempts: (counters.attempts + 1) as u64,
        ..counters
    };
    match outcome {
        Some(LegacyToolRestoreOutcome::RestoreSuccess) => LegacyToolRestoreCounters {
            restore_success: (counters.restore_success + 1) as u64,
            ..tried
        },
        Some(LegacyToolRestoreOutcome::InvalidThread) => LegacyToolRestoreCounters {
            invalid_thread: (counters.invalid_thread + 1) as u64,
            ..tried
        },
        Some(LegacyToolRestoreOutcome::RestoreReadFailure) => LegacyToolRestoreCounters {
            restore_read_failure: (counters.restore_read_failure + 1) as u64,
            ..tried
        },
        Some(LegacyToolRestoreOutcome::TurnAssignmentConflict) => LegacyToolRestoreCounters {
            turn_assignment_conflict: (counters.turn_assignment_conflict + 1) as u64,
            ..tried
        },
        Some(LegacyToolRestoreOutcome::BaselineMismatch) => LegacyToolRestoreCounters {
            baseline_mismatch: (counters.baseline_mismatch + 1) as u64,
            ..tried
        },
        None => tried,
    }
}

/// Counts one more try. Stored counters that are not consistent are refused, and so is a try that
/// no longer fits.
pub fn update_restore_counters(
    counters: LegacyToolRestoreCounters,
    outcome: Option<LegacyToolRestoreOutcome>,
) -> (r: Result<LegacyToolRestoreCounters, CounterError>)
    ensures
        match r {
            Ok(next) => counters.problem() is None && counters.attempts < u64::MAX && next
                == counted_try(counters, outcome),
            Err(error) => if counters.problem() is Some {
                counters.problem() == Some(error)
            } else {
                counters.attempts == u64::MAX && error == CounterError::CounterOverflowed
            },
        },
{
    let mut next = counters;
    if let Err(error) = next.validate() {
        return Err(error);
    }
    if let Err(error) = increment_counter(&mut next.attempts) {
        return Err(error);
    }
    let counted = match outcome {
        Some(LegacyToolRestoreOutcome::RestoreSuccess) => increment_counter(
            &mut next.restore_success,
        ),
        Some(LegacyToolRestoreOutcome::InvalidThread) => increment_counter(
            &mut next.invalid_thread,
        ),
        Some(LegacyToolRestoreOutcome::RestoreReadFailure) => increment_counter(
            &mut next.restore_read_failure,
        ),
        Some(LegacyToolRestoreOutcome::TurnAssignmentConflict) => increment_counter(
            &mut next.turn_assignment_conflict,
        ),
        Some(LegacyToolRestoreOutcome::BaselineMismatch) => increment_counter(
            &mut next.baseline_mismatch,
        ),
        None => Ok(()),
    };
    if let Err(error) = counted {
        return Err(error);
    }
    if let Err(error) = next.validate() {
        return Err(error);
    }
    Ok(next)
}

/// Counting a try keeps the counters consistent: the ends never outnumber the tries.
pub proof fn law_counted_try_is_consistent(
    counters: LegacyToolRestoreCounters,
    outcome: Option<LegacyToolRestoreOutcome>,
)
    requires
        counters.problem() is None,
        counters.attempts < u64::MAX,
    ensures
        counted_try(counters, outcome).problem() is None,
        counted_try(counters, outcome).attempts == counters.attempts + 1,
        counted_try(counters, outcome).outcomes() == counters.outcomes() + (if outcome is Some {
            1int
        } else {
            0int
        }),
{
}

/// The arguments of a call that are kept: those of a command, and nothing of other tools.
pub enum CompactArguments {
    Null,
    Exec { cmd: Option<String>, workdir: Option<String> },
}

/// The text that an object holds under a key.
pub open spec fn tree_text(tree: JsonTree, key: Seq<char>) -> Option<Seq<char>> {
    match tree {
        JsonTree::Object(entries) => {
            let i = tree_entry_index(entries, key);
            if 0 <= i < entries.len() {
                match entries[i].1 {
                    JsonTree::Text(t) => Some(t),
                    _ => None,
                }
            } else {
                None
            }
        },
        _ => None,
    }
}

pub open spec fn tree_entry_index(entries: Seq<(Seq<char>, JsonTree)>, key: Seq<char>) -> int
    decreases entries.len(),
{
    if entries.len() == 0 || entries[0].0 == key {
        0
    } else {
        1 + tree_entry_index(entries.skip(1), key)
    }
}

proof fn lemma_entry_index_agrees(entries: Seq<(String, Json)>, key: Seq<char>)
    ensures
        dynamic_tool::entry_index(entries, key) == tree_entry_index(
            Seq::new(entries.len(), |i: int| (entries[i].0@, entries[i].1.tree())),
            key,
        ),
    decreases entries.len(),
{
    let trees = Seq::new(entries.len(), |i: int| (entries[i].0@, entries[i].1.tree()));
    if entries.len() > 0 && entries[0].0@ != key {
        let rest = entries.skip(1);
        lemma_entry_index_agrees(rest, key);
        assert(trees.skip(1) =~= Seq::new(rest.len(), |i: int| (rest[i].0@, rest[i].1.tree())));
    }
}

proof fn lemma_text_entry_agrees(value: Json, key: Seq<char>)
    ensures
        dynamic_tool::text_entry(value, key) == tree_text(value.tree(), key),
{
    match value {
        Json::Object(entries) => {
            lemma_entry_index_agrees(entries@, key);
            assert(value.tree()->Object_0 =~= Seq::new(
                entries@.len(),
                |i: int| (entries@[i].0@, entries@[i].1.tree()),
            ));
        },
        _ => {},
    }
}

/// What is kept of the arguments of a call, given the document that they spell.
pub open spec fn kept_arguments(
    kept: CompactArguments,
    tool: Seq<char>,
    document: Option<JsonTree>,
) -> bool {
    match kept {
        CompactArguments::Null => tool != "exec_command"@ || !(document matches Some(tree) && tree
            is Object),
        CompactArguments::Exec { cmd, workdir } => tool == "exec_command"@ && (
        document matches Some(tree) && tree is Object && text::option_view(cmd) == tree_text(
            tree,
            "cmd"@,
        ) && text::option_view(workdir) == tree_text(tree, "workdir"@)),
    }
}

/// Keeps the command and its directory out of parsed arguments.
pub fn compact_parsed_arguments(tool: &str, parsed: &Option<Json>) -> (r: CompactArguments)
    ensures
        kept_arguments(r, tool@, crate::output_scan::tree_of(*parsed)),
{
    if !text::text_is(tool, "exec_command") {
        return CompactArguments::Null;
    }
    match parsed {
        Some(value) => {
            let is_object = match value {
                Json::Object(_) => true,
                _ => false,
            };
            if !is_object {
                return CompactArguments::Null;
            }
            proof {
                lemma_text_entry_agrees(*value, "cmd"@);
                lemma_text_entry_agrees(*value, "workdir"@);
            }
            let cmd = match dynamic_tool::get_text(value, "cmd") {
                Some(t) => Some(t.clone()),
                None => None,
            };
            let workdir = match dynamic_tool::get_text(value, "workdir") {
                Some(t) => Some(t.clone()),
                None => None,
            };
            CompactArguments::Exec { cmd, workdir }
        },
        None => CompactArguments::Null,
    }
}

pub fn compact_function_arguments(tool: &str, arguments: &str) -> (r: CompactArguments)
    ensures
        kept_arguments(r, tool@, json::json_document(arguments@)),
{
    if !text::text_is(tool, "exec_command") {
        return CompactArguments::Null;
    }
    compact_parsed_arguments(tool, &json::parse_json(arguments))
}

fn copy_arguments(arguments: &CompactArguments) -> (r: CompactArguments)
    ensures
        r == *arguments,
{
    match arguments {
        CompactArguments::Null => CompactArguments::Null,
        CompactArguments::Exec { cmd, workdir } => CompactArguments::Exec {
            cmd: text::copy_option(cmd),
            workdir: text::copy_option(workdir),
        },
    }
}

/// A tool call whose output has not been met.
pub struct PendingResponseToolCall {
    pub turn_id: String,
    pub namespace: Option<String>,
    pub tool: String,
    pub arguments: CompactArguments,
}

/// A compact tool-call row.
pub struct ToolCallItem {
    pub call_id: String,
    pub namespace: Option<String>,
    pub tool: String,
    pub arguments: CompactArguments,
    pub status: DynamicToolCallStatus,
}

/// What the history builder is asked to do next. Every record asks for something, so that the
/// builder counts it.
pub enum BuilderAction {
    Noop,
    ItemStarted { turn_id: String, item: ToolCallItem },
    ItemCompleted { turn_id: String, item: ToolCallItem },
}

/// What the history builder knows of the turn that it is in.
pub struct ActiveTurn {
    /// Whether a turn has begun and not ended.
    pub has_active_turn: bool,
    /// The turn that the builder would assign an item to.
    pub turn_id: Option<String>,
}

/// A response item, without its bodies.
#[allow(inconsistent_fields)]
pub enum SlimResponseItem {
    FunctionCall {
        name: String,
        namespace: Option<String>,
        arguments: String,
        call_id: String,
        turn_id: Option<String>,
    },
    FunctionCallOutput { call_id: String, turn_id: Option<String> },
    CustomToolCall {
        call_id: String,
        name: String,
        namespace: Option<String>,
        turn_id: Option<String>,
    },
    CustomToolCallOutput { call_id: String, turn_id: Option<String> },
    ToolSearchCall {
        id: Option<String>,
        call_id: Option<String>,
        status: Option<String>,
        execution: String,
        turn_id: Option<String>,
    },
    ToolSearchOutput { call_id: Option<String>, turn_id: Option<String> },
    Other,
}

/// The state of a restoration.
pub struct LegacyToolProjector {
    pub pending_calls: TextMap<PendingResponseToolCall>,
    pub inserted_call_ids: TextSet,
    pub richer_item_ids: TextSet,
    pub turn_assignment_conflict: bool,
}

pub open spec fn nonempty(value: Option<String>) -> Option<String> {
    match value {
        Some(s) => if s@.len() > 0 {
            Some(s)
        } else {
            None
        },
        None => None,
    }
}

/// The turn of a call: a real active boundary first, then what the item says, then whatever the
/// builder would assign it to.
pub open spec fn turn_of_call(active: ActiveTurn, item_turn: Option<String>) -> Option<String> {
    if active.has_active_turn && active.turn_id is Some {
        active.turn_id
    } else if nonempty(item_turn) is Some {
        nonempty(item_turn)
    } else {
        active.turn_id
    }
}

/// Nothing happened but that the builder counts a record.
pub open spec fn idle(
    before: LegacyToolProjector,
    after: LegacyToolProjector,
    actions: Seq<BuilderAction>,
) -> bool {
    after == before && actions == seq![BuilderAction::Noop]
}

/// A call was met: it is shown as started and awaits its output, unless it belongs to no turn.
pub open spec fn started(
    before: LegacyToolProjector,
    after: LegacyToolProjector,
    actions: Seq<BuilderAction>,
    active: ActiveTurn,
    call_id: String,
    namespace: Option<String>,
    tool: String,
    arguments: CompactArguments,
    item_turn: Option<String>,
) -> bool {
    match turn_of_call(active, item_turn) {
        None => idle(before, after, actions),
        Some(turn_id) => {
            &&& actions == seq![
                BuilderAction::ItemStarted {
                    turn_id,
                    item: ToolCallItem {
                        call_id,
                        namespace,
                        tool,
                        arguments,
                        status: DynamicToolCallStatus::InProgress,
                    },
                },
            ]
            &&& after.pending_calls.value(call_id@) == Some(
                PendingResponseToolCall { turn_id, namespace, tool, arguments },
            )
            &&& forall|k: Seq<char>|
                k != call_id@ ==> after.pending_calls.value(k) == before.pending_calls.value(k)
            &&& after.inserted_call_ids@ == before.inserted_call_ids@.insert(call_id@)
            &&& after.richer_item_ids == before.richer_item_ids
            &&& after.turn_assignment_conflict == before.turn_assignment_conflict
        },
    }
}

/// Whether an output names another turn than its call.
pub open spec fn names_other_turn(output_turn: Option<String>, turn_id: String) -> bool {
    nonempty(output_turn) matches Some(named) && named@ != turn_id@
}

/// The output of a call was met. Where it names another turn, the whole restoration is in doubt;
/// where the call is recorded richly, its compact row is dropped; otherwise the row is completed.
pub open spec fn completed(
    before: LegacyToolProjector,
    after: LegacyToolProjector,
    actions: Seq<BuilderAction>,
    call_id: Seq<char>,
    output_turn: Option<String>,
) -> bool {
    match before.pending_calls.value(call_id) {
        None => {
            &&& actions == seq![BuilderAction::Noop]
            &&& forall|k: Seq<char>|
                after.pending_calls.value(k) == before.pending_calls.value(k)
            &&& after.inserted_call_ids == before.inserted_call_ids
            &&& after.richer_item_ids == before.richer_item_ids
            &&& after.turn_assignment_conflict == before.turn_assignment_conflict
        },
        Some(call) => {
            let conflict = names_other_turn(output_turn, call.turn_id);
            let richer = before.richer_item_ids@.contains(call_id);
            &&& after.pending_calls.value(call_id) is None
            &&& forall|k: Seq<char>|
                k != call_id ==> after.pending_calls.value(k) == before.pending_calls.value(k)
            &&& after.richer_item_ids == before.richer_item_ids
            &&& after.turn_assignment_conflict == (before.turn_assignment_conflict || conflict)
            &&& after.inserted_call_ids@ == (if !conflict && richer {
                before.inserted_call_ids@.remove(call_id)
            } else {
                before.inserted_call_ids@
            })
            &&& actions.len() == 1
            &&& if conflict || richer {
                actions[0] == BuilderAction::Noop
            } else {
                actions[0] matches BuilderAction::ItemCompleted { turn_id, item } && turn_id
                    == call.turn_id && item.call_id@ == call_id && item.namespace == call.namespace
                    && item.tool == call.tool && item.arguments == call.arguments && item.status
                    == DynamicToolCallStatus::Completed
            }
        },
    }
}

/// What a response item does.
pub open spec fn handled(
    before: LegacyToolProjector,
    after: LegacyToolProjector,
    actions: Seq<BuilderAction>,
    active: ActiveTurn,
    item: SlimResponseItem,
) -> bool {
    match item {
        SlimResponseItem::FunctionCall { name, namespace, arguments, call_id, turn_id } => called(
            before,
            after,
            actions,
            active,
            call_id,
            namespace,
            name,
            arguments,
            turn_id,
        ),
        SlimResponseItem::CustomToolCall { call_id, name, namespace, turn_id } => started(
            before,
            after,
            actions,
            active,
            call_id,
            namespace,
            name,
            CompactArguments::Null,
            turn_id,
        ),
        SlimResponseItem::FunctionCallOutput { call_id, turn_id } => completed(
            before,
            after,
            actions,
            call_id@,
            turn_id,
        ),
        SlimResponseItem::CustomToolCallOutput { call_id, turn_id } => completed(
            before,
            after,
            actions,
            call_id@,
            turn_id,
        ),
        SlimResponseItem::ToolSearchCall { id, call_id, status, execution, turn_id } => {
            if execution@ == "server"@ && call_id is None {
                // A search on the server comes with its result, and only when it is complete.
                match id {
                    Some(search) => if status matches Some(s) && s@ == "completed"@ {
                        searched(before, after, actions, active, search, execution, turn_id)
                    } else {
                        idle(before, after, actions)
                    },
                    None => idle(before, after, actions),
                }
            } else {
                let named = match call_id {
                    Some(own) => Some(own),
                    None => id,
                };
                match named {
                    Some(own) => search_started(
                        before,
                        after,
                        actions,
                        active,
                        own,
                        execution,
                        turn_id,
                    ),
                    None => idle(before, after, actions),
                }
            }
        },
        SlimResponseItem::ToolSearchOutput { call_id, turn_id } => match call_id {
            Some(own) => completed(before, after, actions, own@, turn_id),
            None => idle(before, after, actions),
        },
        SlimResponseItem::Other => idle(before, after, actions),
    }
}

/// A function call was met: what is kept of its arguments goes with it.
pub open spec fn called(
    before: LegacyToolProjector,
    after: LegacyToolProjector,
    actions: Seq<BuilderAction>,
    active: ActiveTurn,
    call_id: String,
    namespace: Option<String>,
    name: String,
    arguments: String,
    item_turn: Option<String>,
) -> bool {
    exists|kept: CompactArguments|
        kept_arguments(kept, name@, json::json_document(arguments@)) && #[trigger] started(
            before,
            after,
            actions,
            active,
            call_id,
            namespace,
            name,
            kept,
            item_turn,
        )
}

/// A search was met that awaits its result.
pub open spec fn search_started(
    before: LegacyToolProjector,
    after: LegacyToolProjector,
    actions: Seq<BuilderAction>,
    active: ActiveTurn,
    call_id: String,
    execution: String,
    item_turn: Option<String>,
) -> bool {
    exists|tool: String|
        tool@ == "tool_search"@ && #[trigger] started(
            before,
            after,
            actions,
            active,
            call_id,
            nonempty(Some(execution)),
            tool,
            CompactArguments::Null,
            item_turn,
        )
}

/// A search that was met with its result: started and at once completed.
pub open spec fn searched(
    before: LegacyToolProjector,
    after: LegacyToolProjector,
    actions: Seq<BuilderAction>,
    active: ActiveTurn,
    search: String,
    execution: String,
    item_turn: Option<String>,
) -> bool {
    exists|middle: LegacyToolProjector, tool: String|
        tool@ == "tool_search"@ && actions.len() == 2 && #[trigger] started(
            before,
            middle,
            actions.take(1),
            active,
            search,
            Some(execution),
            tool,
            CompactArguments::Null,
            item_turn,
        ) && completed(middle, after, actions.skip(1), search@, None)
}

/// Some items were recorded richly: no compact row stands for them any more.
pub open spec fn recorded_richly(
    before: LegacyToolProjector,
    after: LegacyToolProjector,
    ids: Seq<Seq<char>>,
) -> bool {
    &&& after.pending_calls == before.pending_calls
    &&& after.turn_assignment_conflict == before.turn_assignment_conflict
    &&& after.richer_item_ids@ == before.richer_item_ids@.union(ids.to_set())
    &&& after.inserted_call_ids@ == before.inserted_call_ids@.difference(ids.to_set())
}

fn keep_nonempty(value: Option<String>) -> (r: Option<String>)
    ensures
        r == nonempty(value),
{
    match value {
        Some(s) => if s.as_str().is_empty() {
            None
        } else {
            Some(s)
        },
        None => None,
    }
}

impl LegacyToolProjector {
    pub fn new() -> (r: Self)
        ensures
            r.pending_calls.wf(),
            forall|k: Seq<char>| r.pending_calls.value(k) is None,
            r.inserted_call_ids@ == Set::<Seq<char>>::empty(),
            r.richer_item_ids@ == Set::<Seq<char>>::empty(),
            !r.turn_assignment_conflict,
    {
        LegacyToolProjector {
            pending_calls: TextMap::new(),
            inserted_call_ids: TextSet::new(),
            richer_item_ids: TextSet::new(),
            turn_assignment_conflict: false,
        }
    }

    pub fn start_tool_call(
        &mut self,
        active: &ActiveTurn,
        call_id: String,
        namespace: Option<String>,
        tool: String,
        arguments: CompactArguments,
        item_turn: Option<String>,
    ) -> (r: Vec<BuilderAction>)
        requires
            old(self).pending_calls.wf(),
        ensures
            final(self).pending_calls.wf(),
            started(
                *old(self),
                *final(self),
                r@,
                *active,
                call_id,
                namespace,
                tool,
                arguments,
                item_turn,
            ),
    {
        let turn = if active.has_active_turn && active.turn_id.is_some() {
            text::copy_option(&active.turn_id)
        } else {
            match keep_nonempty(item_turn) {
                Some(turn_id) => Some(turn_id),
                None => text::copy_option(&active.turn_id),
            }
        };
        let mut actions: Vec<BuilderAction> = Vec::new();
        match turn {
            None => {
                actions.push(BuilderAction::Noop);
                proof {
                    assert(actions@ =~= seq![BuilderAction::Noop]);
                }
            },
            Some(turn_id) => {
                let item = ToolCallItem {
                    call_id: call_id.clone(),
                    namespace: text::copy_option(&namespace),
                    tool: tool.clone(),
                    arguments: copy_arguments(&arguments),
                    status: DynamicToolCallStatus::InProgress,
                };
                let action = BuilderAction::ItemStarted { turn_id: turn_id.clone(), item };
                actions.push(action);
                self.pending_calls.insert(
                    call_id.as_str(),
                    PendingResponseToolCall { turn_id, namespace, tool, arguments },
                );
                self.inserted_call_ids.insert(call_id.as_str());
                proof {
                    assert(actions@ =~= seq![action]);
                }
            },
        }
        actions
    }

    pub fn complete_tool_call(&mut self, call_id: &str, output_turn: Option<String>) -> (r: Vec<
        BuilderAction,
    >)
        requires
            old(self).pending_calls.wf(),
        ensures
            final(self).pending_calls.wf(),
            completed(*old(self), *final(self), r@, call_id@, output_turn),
    {
        let mut actions: Vec<BuilderAction> = Vec::new();
        let call = match self.pending_calls.remove(call_id) {
            None => {
                actions.push(BuilderAction::Noop);
                proof {
                    assert(actions@ =~= seq![BuilderAction::Noop]);
                    assert forall|k: Seq<char>| self.pending_calls.value(k) == old(
                        self,
                    ).pending_calls.value(k) by {
                        if k == call_id@ {
                        }
                    }
                }
                return actions;
            },
            Some(call) => call,
        };
        let conflict = match keep_nonempty(output_turn) {
            Some(named) => !text::text_is(named.as_str(), call.turn_id.as_str()),
            None => false,
        };
        if conflict {
            self.turn_assignment_conflict = true;
            actions.push(BuilderAction::Noop);
            return actions;
        }
        if self.richer_item_ids.contains(call_id) {
            self.inserted_call_ids.remove(call_id);
            actions.push(BuilderAction::Noop);
            return actions;
        }
        let item = ToolCallItem {
            call_id: text::owned(call_id),
            namespace: call.namespace,
            tool: call.tool,
            arguments: call.arguments,
            status: DynamicToolCallStatus::Completed,
        };
        actions.push(BuilderAction::ItemCompleted { turn_id: call.turn_id, item });
        actions
    }

    fn stay_idle(&mut self) -> (r: Vec<BuilderAction>)
        ensures
            idle(*old(self), *final(self), r@),
    {
        let mut actions: Vec<BuilderAction> = Vec::new();
        actions.push(BuilderAction::Noop);
        proof {
            assert(actions@ =~= seq![BuilderAction::Noop]);
        }
        actions
    }

    /// Takes in one response item, and says what the history builder is to do.
    pub fn handle_response_item(&mut self, active: &ActiveTurn, item: SlimResponseItem) -> (r: Vec<
        BuilderAction,
    >)
        requires
            old(self).pending_calls.wf(),
        ensures
            final(self).pending_calls.wf(),
            handled(*old(self), *final(self), r@, *active, item),
    {
        match item {
            SlimResponseItem::FunctionCall { name, namespace, arguments, call_id, turn_id } => {
                let kept = compact_function_arguments(name.as_str(), arguments.as_str());
                let actions = self.start_tool_call(
                    active,
                    call_id,
                    namespace,
                    name,
                    kept,
                    turn_id,
                );
                proof {
                    assert(started(
                        *old(self),
                        *self,
                        actions@,
                        *active,
                        call_id,
                        namespace,
                        name,
                        kept,
                        turn_id,
                    ));
                    assert(called(
                        *old(self),
                        *self,
                        actions@,
                        *active,
                        call_id,
                        namespace,
                        name,
                        arguments,
                        turn_id,
                    ));
                }
                actions
            },
            SlimResponseItem::CustomToolCall { call_id, name, namespace, turn_id } => {
                self.start_tool_call(
                    active,
                    call_id,
                    namespace,
                    name,
                    CompactArguments::Null,
                    turn_id,
                )
            },
            SlimResponseItem::FunctionCallOutput { call_id, turn_id } => self.complete_tool_call(
                call_id.as_str(),
                turn_id,
            ),
            SlimResponseItem::CustomToolCallOutput { call_id, turn_id } => self.complete_tool_call(
                call_id.as_str(),
                turn_id,
            ),
            SlimResponseItem::ToolSearchCall { id, call_id, status, execution, turn_id } => {
                if text::text_is(execution.as_str(), "server") && call_id.is_none() {
                    let finished = match &status {
                        Some(s) => text::text_is(s.as_str(), "completed"),
                        None => false,
                    };
                    match id {
                        Some(search) => {
                            if !finished {
                                return self.stay_idle();
                            }
                            let tool = text::owned("tool_search");
                            let ghost before = *self;
                            let ghost tool_value = tool;
                            let mut actions = self.start_tool_call(
                                active,
                                search.clone(),
                                Some(execution),
                                tool,
                                CompactArguments::Null,
                                turn_id,
                            );
                            let ghost first = actions@;
                            let ghost middle = *self;
                            let mut rest = self.complete_tool_call(search.as_str(), None);
                            let ghost second = rest@;
                            actions.append(&mut rest);
                            proof {
                                assert(first.len() == 1);
                                assert(second.len() == 1);
                                assert(actions@.take(1) =~= first);
                                assert(actions@.skip(1) =~= second);
                                assert(started(
                                    before,
                                    middle,
                                    actions@.take(1),
                                    *active,
                                    search,
                                    Some(execution),
                                    tool_value,
                                    CompactArguments::Null,
                                    turn_id,
                                ));
                            }
                            actions
                        },
                        None => self.stay_idle(),
                    }
                } else {
                    let named = match call_id {
                        Some(own) => Some(own),
                        None => id,
                    };
                    match named {
                        Some(own) => {
                            let namespace = keep_nonempty(Some(execution));
                            self.start_tool_call(
                                active,
                                own,
                                namespace,
                                text::owned("tool_search"),
                                CompactArguments::Null,
                                turn_id,
                            )
                        },
                        None => self.stay_idle(),
                    }
                }
            },
            SlimResponseItem::ToolSearchOutput { call_id, turn_id } => match call_id {
                Some(own) => self.complete_tool_call(own.as_str(), turn_id),
                None => self.stay_idle(),
            },
            SlimResponseItem::Other => self.stay_idle(),
        }
    }

    /// Takes note of the items that a materialized event changed: they are recorded richly, so
    /// no compact row stands for them.
    pub fn handle_materialized_event(&mut self, changed_item_ids: &Vec<String>)
        ensures
            recorded_richly(*old(self), *final(self), text::views(changed_item_ids@)),
    {
        let ghost ids = text::views(changed_item_ids@);
        let mut i: usize = 0;
        proof {
            assert(ids.take(0).to_set() =~= Set::empty());
            assert(self.richer_item_ids@ =~= old(self).richer_item_ids@.union(
                ids.take(0).to_set(),
            ));
            assert(self.inserted_call_ids@ =~= old(self).inserted_call_ids@.difference(
                ids.take(0).to_set(),
            ));
        }
        while i < changed_item_ids.len()
            invariant
                i <= changed_item_ids@.len(),
                ids == text::views(changed_item_ids@),
                self.pending_calls == old(self).pending_calls,
                self.turn_assignment_conflict == old(self).turn_assignment_conflict,
                self.richer_item_ids@ == old(self).richer_item_ids@.union(
                    ids.take(i as int).to_set(),
                ),
                self.inserted_call_ids@ == old(self).inserted_call_ids@.difference(
                    ids.take(i as int).to_set(),
                ),
            decreases changed_item_ids@.len() - i,
        {
            let id: &str = changed_item_ids[i].as_str();
            self.richer_item_ids.insert(id);
            self.inserted_call_ids.remove(id);
            proof {
                let seen = ids.take(i as int);
                let more = ids.take(i + 1);
                assert(more =~= seen.push(id@));
                assert(more.to_set() =~= seen.to_set().insert(id@)) by {
                    assert forall|x: Seq<char>| more.contains(x) <==> seen.contains(x) || x
                        == id@ by {
                        if seen.contains(x) {
                            let k = choose|k: int| 0 <= k < seen.len() && seen[k] == x;
                            assert(more[k] == x);
                        }
                        assert(more[i as int] == id@);
                        if more.contains(x) && x != id@ {
                            let k = choose|k: int| 0 <= k < more.len() && more[k] == x;
                            assert(seen[k] == x);
                        }
                    }
                }
                assert(self.richer_item_ids@ =~= old(self).richer_item_ids@.union(more.to_set()));
                assert(self.inserted_call_ids@ =~= old(self).inserted_call_ids@.difference(
                    more.to_set(),
                ));
            }
            i += 1;
        }
        proof {
            assert(ids.take(ids.len() as int) =~= ids);
        }
    }
}

/// Whether events of a type belong to the materialized history.
pub open spec fn materialized(event_type: Seq<char>) -> bool {
    ||| event_type == "user_message"@
    ||| event_type == "agent_message"@
    ||| event_type == "agent_reasoning"@
    ||| event_type == "agent_reasoning_raw_content"@
    ||| event_type == "web_search_end"@
    ||| event_type == "patch_apply_end"@
    ||| event_type == "mcp_tool_call_end"@
    ||| event_type == "image_generation_end"@
    ||| event_type == "sub_agent_activity"@
    ||| event_type == "context_compacted"@
    ||| event_type == "entered_review_mode"@
    ||| event_type == "exited_review_mode"@
    ||| event_type == "item_completed"@
    ||| event_type == "thread_rolled_back"@
    ||| event_type == "turn_aborted"@
    ||| event_type == "task_started"@
    ||| event_type == "turn_started"@
    ||| event_type == "task_complete"@
    ||| event_type == "turn_complete"@
}

pub fn materializes_legacy_history(event_type: &str) -> (r: bool)
    ensures
        r == materialized(event_type@),
{
    text::text_is(event_type, "user_message") || text::text_is(event_type, "agent_message")
        || text::text_is(event_type, "agent_reasoning") || text::text_is(
        event_type,
        "agent_reasoning_raw_content",
    ) || text::text_is(event_type, "web_search_end") || text::text_is(
        event_type,
        "patch_apply_end",
    ) || text::text_is(event_type, "mcp_tool_call_end") || text::text_is(
        event_type,
        "image_generation_end",
    ) || text::text_is(event_type, "sub_agent_activity") || text::text_is(
        event_type,
        "context_compacted",
    ) || text::text_is(event_type, "entered_review_mode") || text::text_is(
        event_type,
        "exited_review_mode",
    ) || text::text_is(event_type, "item_completed") || text::text_is(
        event_type,
        "thread_rolled_back",
    ) || text::text_is(event_type, "turn_aborted") || text::text_is(event_type, "task_started")
        || text::text_is(event_type, "turn_started") || text::text_is(event_type, "task_complete")
        || text::text_is(event_type, "turn_complete")
}

/// What a line of a rollout is.
#[derive(Clone, Copy, Debug, PartialEq, Eq, Structural)]
pub enum RecordRoute {
    Blank,
    Event,
    Compacted,
    ResponseItem,
    Ignored,
}

pub open spec fn routed(line: Seq<char>, record_type: Seq<char>) -> RecordRoute {
    if text::trimmed(line).len() == 0 {
        RecordRoute::Blank
    } else if record_type == "event_msg"@ {
        RecordRoute::Event
    } else if record_type == "compacted"@ {
        RecordRoute::Compacted
    } else if record_type == "response_item"@ {
        RecordRoute::ResponseItem
    } else {
        RecordRoute::Ignored
    }
}

/// Whether a line of a rollout holds nothing.
pub fn line_is_blank(line: &str) -> (r: bool)
    ensures
        r == (text::trimmed(line@).len() == 0),
{
    text::trim(text::chars_of(line).as_slice()).len() == 0
}

/// Sorts a line of a rollout by the type of its record.
pub fn route_record(line: &str, record_type: &str) -> (r: RecordRoute)
    ensures
        r == routed(line@, record_type@),
{
    if line_is_blank(line) {
        RecordRoute::Blank
    } else if text::text_is(record_type, "event_msg") {
        RecordRoute::Event
    } else if text::text_is(record_type, "compacted") {
        RecordRoute::Compacted
    } else if text::text_is(record_type, "response_item") {
        RecordRoute::ResponseItem
    } else {
        RecordRoute::Ignored
    }
}

/// A compact row never stands for an item that is recorded richly: a completed call that is
/// recorded richly leaves the restored calls.
pub proof fn law_rich_records_are_not_restored_twice(
    before: LegacyToolProjector,
    after: LegacyToolProjector,
    actions: Seq<BuilderAction>,
    call_id: Seq<char>,
    output_turn: Option<String>,
)
    requires
        completed(before, after, actions, call_id, output_turn),
        before.pending_calls.value(call_id) matches Some(call) && !names_other_turn(
            output_turn,
            call.turn_id,
        ),
        before.richer_item_ids@.contains(call_id),
    ensures
        !after.inserted_call_ids@.contains(call_id),
        actions == seq![BuilderAction::Noop],
{
    assert(actions =~= seq![BuilderAction::Noop]);
}

/// A doubt about the turns is never forgotten.
pub proof fn law_conflict_is_kept(
    before: LegacyToolProjector,
    after: LegacyToolProjector,
    actions: Seq<BuilderAction>,
    active: ActiveTurn,
    item: SlimResponseItem,
)
    requires
        handled(before, after, actions, active, item),
        before.turn_assignment_conflict,
    ensures
        after.turn_assignment_conflict,
{
}

} // verus!
