//! Laws of turns and runs: what a restoration may change, and when a run of tool calls is sealed.

use vstd::prelude::*;

use crate::history_cell::CellKind;
use crate::history_cell::HistoryCell;
use crate::legacy_tool_history::LegacyToolRestoreOutcome;
use crate::legacy_turns;
use crate::legacy_turns::ItemModel;
use crate::legacy_turns::LegacyToolReplay;
use crate::legacy_turns::RestoreEnd;
use crate::legacy_turns::RestoreStart;
use crate::legacy_turns::ThreadItemKind;
use crate::legacy_turns::TurnModel;
use crate::legacy_turns::TurnStatus;
use crate::tool_classification;
use crate::tool_run_projection;
use crate::tool_run_projection::SourceClass;
use crate::tool_run_projection::ToolRunLifecycle;
use crate::tool_run_projection::ToolRunSealCell;

verus! {

/// Whether an item is a compact row of a restored call: a tool call without content and without a
/// result.
pub open spec fn compact_row(item: ItemModel, inserted: Set<Seq<char>>) -> bool {
    &&& inserted.contains(item.id)
    &&& item.kind == ThreadItemKind::DynamicToolCall {
        has_content_items: false,
        has_success: false,
    }
}

/// The items of a turn but its compact rows.
pub open spec fn original_items(items: Seq<ItemModel>, inserted: Set<Seq<char>>) -> Seq<ItemModel> {
    items.filter(|item: ItemModel| !compact_row(item, inserted))
}

proof fn lemma_original(items: Seq<ItemModel>, inserted: Set<Seq<char>>)
    ensures
        legacy_turns::baseline_items(items, inserted) == original_items(items, inserted),
    decreases items.len(),
{
    reveal(Seq::filter);
    if items.len() > 0 {
        lemma_original(items.drop_last(), inserted);
    }
}

/// Restored turns take the place of the thread's own only where they add compact rows and change
/// nothing else: the same turns in the same order, each in the same state and with the same other
/// items. A restoration in doubt, or one with no rows to add, changes nothing.
pub proof fn law_restoration_only_adds_rows(
    thread: Seq<TurnModel>,
    rebuilt: LegacyToolReplay,
    end: RestoreEnd,
    i: int,
)
    requires
        legacy_turns::restore_ends(thread, Some(rebuilt), end),
    ensures
        end.turns is Some <==> end.outcome == Some(LegacyToolRestoreOutcome::RestoreSuccess),
        end.turns matches Some(turns) ==> {
            let shown = legacy_turns::turns_model(turns@);
            let inserted = rebuilt.inserted_call_ids@;
            &&& !rebuilt.turn_assignment_conflict
            &&& !(inserted =~= Set::empty())
            &&& shown.len() == thread.len()
            &&& 0 <= i < thread.len() ==> {
                &&& shown[i].id == thread[i].id
                &&& shown[i].state == thread[i].state
                &&& original_items(shown[i].items, inserted) == original_items(
                    thread[i].items,
                    inserted,
                )
            }
        },
        rebuilt.turn_assignment_conflict ==> end.outcome == Some(
            LegacyToolRestoreOutcome::TurnAssignmentConflict,
        ),
        !rebuilt.turn_assignment_conflict && rebuilt.inserted_call_ids@ =~= Set::empty()
            ==> end.outcome is None,
        end.outcome is None ==> end.turns is None,
{
    if let Some(turns) = end.turns {
        let shown = legacy_turns::turns_model(turns@);
        let inserted = rebuilt.inserted_call_ids@;
        let a = legacy_turns::baseline(shown, inserted);
        let b = legacy_turns::baseline(thread, inserted);
        assert(a == b);
        assert(a.len() == shown.len() && b.len() == thread.len());
        if 0 <= i < thread.len() {
            assert(a[i] == b[i]);
            lemma_original(shown[i].items, inserted);
            lemma_original(thread[i].items, inserted);
        }
    }
}

/// Whether two lists of turns are the same but for compact rows.
pub open spec fn same_but_rows(
    a: Seq<TurnModel>,
    b: Seq<TurnModel>,
    inserted: Set<Seq<char>>,
) -> bool {
    &&& a.len() == b.len()
    &&& forall|i: int|
        0 <= i < a.len() ==> (#[trigger] a[i]).id == b[i].id && a[i].state == b[i].state
            && original_items(a[i].items, inserted) == original_items(b[i].items, inserted)
}

/// A restoration succeeds just where it has rows to add, is not in doubt, and, with the prompts and
/// the state of the thread's own turns, is the same as these but for the rows; then it is what is
/// shown. Where it is not the same, that is counted, and nothing changes.
pub proof fn law_restoration_succeeds_where_nothing_else_changes(
    thread: Seq<TurnModel>,
    rebuilt: LegacyToolReplay,
    end: RestoreEnd,
)
    requires
        legacy_turns::restore_ends(thread, Some(rebuilt), end),
        !rebuilt.turn_assignment_conflict,
        !(rebuilt.inserted_call_ids@ =~= Set::<Seq<char>>::empty()),
    ensures
        ({
            let merged = legacy_turns::reconciled(
                legacy_turns::turns_model(rebuilt.turns@),
                thread,
            );
            let same = same_but_rows(merged, thread, rebuilt.inserted_call_ids@);
            &&& same ==> end.outcome == Some(LegacyToolRestoreOutcome::RestoreSuccess) && (
            end.turns matches Some(turns) && legacy_turns::turns_model(turns@) == merged)
            &&& !same ==> end.outcome == Some(LegacyToolRestoreOutcome::BaselineMismatch)
                && end.turns is None
        }),
{
    let inserted = rebuilt.inserted_call_ids@;
    let merged = legacy_turns::reconciled(legacy_turns::turns_model(rebuilt.turns@), thread);
    let a = legacy_turns::baseline(merged, inserted);
    let b = legacy_turns::baseline(thread, inserted);
    if same_but_rows(merged, thread, inserted) {
        assert forall|i: int| 0 <= i < a.len() implies a[i] == b[i] by {
            assert(merged[i].id == thread[i].id);
            lemma_original(merged[i].items, inserted);
            lemma_original(thread[i].items, inserted);
        }
        assert(a =~= b);
    } else if a == b {
        assert(a.len() == merged.len() && b.len() == thread.len());
        assert forall|i: int| 0 <= i < merged.len() implies (#[trigger] merged[i]).id
            == thread[i].id && merged[i].state == thread[i].state && original_items(
            merged[i].items,
            inserted,
        ) == original_items(thread[i].items, inserted) by {
            assert(a[i] == b[i]);
            lemma_original(merged[i].items, inserted);
            lemma_original(thread[i].items, inserted);
        }
    }
}

/// A rollout that cannot be read is counted as such, and changes nothing.
pub proof fn law_unreadable_rollout_changes_nothing(thread: Seq<TurnModel>, end: RestoreEnd)
    requires
        legacy_turns::restore_ends(thread, None, end),
    ensures
        end.turns is None,
        end.outcome == Some(LegacyToolRestoreOutcome::RestoreReadFailure),
{
}

/// A rollout is read only for an embedded server, for a legacy thread with a known path and a valid
/// identifier, and never while a turn of it runs. Only the lack of a valid identifier is counted.
pub proof fn law_rollout_is_read_only_where_nothing_runs(
    embedded: bool,
    legacy_history: bool,
    turns: Seq<TurnModel>,
    has_path: bool,
    thread_id_is_valid: bool,
    i: int,
)
    ensures
        ({
            let start = legacy_turns::restore_start(
                embedded,
                legacy_history,
                turns,
                has_path,
                thread_id_is_valid,
            );
            &&& start == RestoreStart::ReadRollout ==> embedded && legacy_history && has_path
                && thread_id_is_valid
            &&& start == RestoreStart::ReadRollout && 0 <= i < turns.len()
                ==> turns[i].state.status != TurnStatus::InProgress
            &&& start == RestoreStart::InvalidThread ==> !thread_id_is_valid && embedded
                && legacy_history && has_path
            &&& embedded && legacy_history && has_path && (forall|k: int|
                0 <= k < turns.len() ==> (#[trigger] turns[k]).state.status
                    != TurnStatus::InProgress) ==> start == if thread_id_is_valid {
                RestoreStart::ReadRollout
            } else {
                RestoreStart::InvalidThread
            }
        }),
{
}

/// Whether a turn holds an item of an identifier.
pub open spec fn holds(items: Seq<ItemModel>, id: Seq<char>) -> bool {
    exists|k: int| 0 <= k < items.len() && (#[trigger] items[k]).id == id
}

proof fn lemma_holds(items: Seq<ItemModel>, id: Seq<char>)
    ensures
        legacy_turns::has_item(items, id) <==> holds(items, id),
{
    legacy_turns::lemma_item_index(items, id);
    if holds(items, id) {
        let k = choose|k: int| 0 <= k < items.len() && (#[trigger] items[k]).id == id;
        assert(k >= legacy_turns::item_index(items, id));
    }
    if legacy_turns::has_item(items, id) {
        assert(items[legacy_turns::item_index(items, id)].id == id);
    }
}

proof fn lemma_place(items: Seq<ItemModel>, authoritative: Seq<ItemModel>, k: int)
    requires
        0 <= k < authoritative.len(),
    ensures
        0 <= legacy_turns::place_for(items, authoritative, k) <= items.len(),
{
    lemma_before(items, authoritative, k);
    lemma_behind(items, authoritative, k + 1);
}

proof fn lemma_before(items: Seq<ItemModel>, authoritative: Seq<ItemModel>, k: int)
    ensures
        legacy_turns::place_after_predecessor(items, authoritative, k) matches Some(place) ==> 0
            <= place <= items.len(),
    decreases k,
{
    if k > 0 {
        legacy_turns::lemma_item_index(items, authoritative[k - 1].id);
        lemma_before(items, authoritative, k - 1);
    }
}

proof fn lemma_behind(items: Seq<ItemModel>, authoritative: Seq<ItemModel>, k: int)
    ensures
        legacy_turns::place_of_successor(items, authoritative, k) matches Some(place) ==> 0
            <= place <= items.len(),
    decreases authoritative.len() - k,
{
    if k < authoritative.len() {
        legacy_turns::lemma_item_index(items, authoritative[k].id);
        lemma_behind(items, authoritative, k + 1);
    }
}

/// Every hook prompt of the authoritative turn is there after the merge, every item that was there
/// before still is, and nothing else was added.
pub proof fn law_every_hook_prompt_is_there(
    items: Seq<ItemModel>,
    authoritative: Seq<ItemModel>,
    n: int,
    id: Seq<char>,
)
    requires
        0 <= n <= authoritative.len(),
    ensures
        holds(legacy_turns::with_prompts(items, authoritative, n), id) <==> holds(items, id) || (
        exists|k: int|
            0 <= k < n && (#[trigger] authoritative[k]).id == id && authoritative[k].kind
                == ThreadItemKind::HookPrompt),
    decreases n,
{
    if n > 0 {
        law_every_hook_prompt_is_there(items, authoritative, n - 1, id);
        let before = legacy_turns::with_prompts(items, authoritative, n - 1);
        let after = legacy_turns::with_prompts(items, authoritative, n);
        let item = authoritative[n - 1];
        lemma_holds(before, item.id);
        if item.kind == ThreadItemKind::HookPrompt && !legacy_turns::has_item(before, item.id) {
            let at = legacy_turns::place_for(before, authoritative, n - 1);
            lemma_place(before, authoritative, n - 1);
            assert(after[at] == item);
            if holds(before, id) {
                let k = choose|k: int| 0 <= k < before.len() && (#[trigger] before[k]).id == id;
                if k < at {
                    assert(after[k].id == id);
                } else {
                    assert(after[k + 1].id == id);
                }
            }
            if holds(after, id) {
                let k = choose|k: int| 0 <= k < after.len() && (#[trigger] after[k]).id == id;
                if k < at {
                    assert(before[k].id == id);
                } else if k > at {
                    assert(before[k - 1].id == id);
                }
            }
        }
    }
}

/// A prompt that was missing stands right behind the item that it follows in the authoritative
/// turn, where that is there; else right before the next one that is there; else at the end.
pub proof fn law_prompt_stands_behind_what_it_follows(
    items: Seq<ItemModel>,
    authoritative: Seq<ItemModel>,
    n: int,
)
    requires
        0 < n <= authoritative.len(),
        authoritative[n - 1].kind == ThreadItemKind::HookPrompt,
        !holds(
            legacy_turns::with_prompts(items, authoritative, n - 1),
            authoritative[n - 1].id,
        ),
    ensures
        ({
            let before = legacy_turns::with_prompts(items, authoritative, n - 1);
            let after = legacy_turns::with_prompts(items, authoritative, n);
            let prompt = authoritative[n - 1];
            &&& after.len() == before.len() + 1
            &&& n > 1 && holds(before, authoritative[n - 2].id) ==> exists|k: int|
                0 < k < after.len() && #[trigger] after[k] == prompt && after[k - 1].id
                    == authoritative[n - 2].id
            &&& (forall|k: int|
                0 <= k < n - 1 ==> !holds(before, (#[trigger] authoritative[k]).id)) && n
                < authoritative.len() && holds(before, authoritative[n].id) ==> exists|k: int|
                0 <= k < after.len() - 1 && #[trigger] after[k] == prompt && after[k + 1].id
                    == authoritative[n].id
        }),
{
    let before = legacy_turns::with_prompts(items, authoritative, n - 1);
    let after = legacy_turns::with_prompts(items, authoritative, n);
    let prompt = authoritative[n - 1];
    lemma_holds(before, prompt.id);
    lemma_place(before, authoritative, n - 1);
    let at = legacy_turns::place_for(before, authoritative, n - 1);
    assert(after[at] == prompt);
    if n > 1 && holds(before, authoritative[n - 2].id) {
        lemma_holds(before, authoritative[n - 2].id);
        legacy_turns::lemma_item_index(before, authoritative[n - 2].id);
        assert(after[at - 1] == before[at - 1]);
    }
    if (forall|k: int| 0 <= k < n - 1 ==> !holds(before, (#[trigger] authoritative[k]).id)) && n
        < authoritative.len() && holds(before, authoritative[n].id) {
        lemma_none_before(before, authoritative, n - 1);
        lemma_holds(before, authoritative[n].id);
        legacy_turns::lemma_item_index(before, authoritative[n].id);
        assert(after[at + 1] == before[at]);
    }
}

proof fn lemma_none_before(items: Seq<ItemModel>, authoritative: Seq<ItemModel>, k: int)
    requires
        k <= authoritative.len(),
        forall|j: int| 0 <= j < k ==> !holds(items, (#[trigger] authoritative[j]).id),
    ensures
        legacy_turns::place_after_predecessor(items, authoritative, k) is None,
    decreases k,
{
    if k > 0 {
        assert(!holds(items, authoritative[k - 1].id));
        lemma_holds(items, authoritative[k - 1].id);
        lemma_none_before(items, authoritative, k - 1);
    }
}

/// A rebuilt turn takes the state of the authoritative turn of the same identifier, and keeps its
/// own where there is none; its items stay.
pub proof fn law_turns_take_the_authoritative_state(
    rebuilt: Seq<TurnModel>,
    authoritative: Seq<TurnModel>,
    i: int,
    k: int,
)
    requires
        0 <= i < rebuilt.len(),
    ensures
        ({
            let after = legacy_turns::with_turn_state(rebuilt, authoritative);
            &&& after.len() == rebuilt.len()
            &&& after[i].id == rebuilt[i].id && after[i].items == rebuilt[i].items
            &&& 0 <= k < authoritative.len() && authoritative[k].id == rebuilt[i].id && (
            forall|j: int| 0 <= j < k ==> (#[trigger] authoritative[j]).id != rebuilt[i].id)
                ==> after[i].state == authoritative[k].state
            &&& (forall|j: int|
                0 <= j < authoritative.len() ==> (#[trigger] authoritative[j]).id != rebuilt[i].id)
                ==> after[i].state == rebuilt[i].state
        }),
{
    lemma_turn_place(authoritative, rebuilt[i].id);
    let at = legacy_turns::turn_index(authoritative, rebuilt[i].id);
    if 0 <= k < authoritative.len() && authoritative[k].id == rebuilt[i].id && (forall|j: int|
        0 <= j < k ==> (#[trigger] authoritative[j]).id != rebuilt[i].id) {
        if at < k {
            assert(authoritative[at].id != rebuilt[i].id);
        }
    }
}

proof fn lemma_turn_place(turns: Seq<TurnModel>, id: Seq<char>)
    ensures
        0 <= legacy_turns::turn_index(turns, id) <= turns.len(),
        legacy_turns::turn_index(turns, id) < turns.len() ==> turns[legacy_turns::turn_index(
            turns,
            id,
        )].id == id,
        forall|k: int|
            0 <= k < legacy_turns::turn_index(turns, id) ==> (#[trigger] turns[k]).id != id,
    decreases turns.len(),
{
    if turns.len() > 0 && turns[0].id != id {
        let rest = turns.skip(1);
        lemma_turn_place(rest, id);
        assert forall|k: int| 0 <= k < legacy_turns::turn_index(turns, id) implies (
        #[trigger] turns[k]).id != id by {
            if k > 0 {
                assert(rest[k - 1] == turns[k]);
            }
        }
    }
}

/// A foldable call belongs to a run with its actions, a hidden summary lies inside one, and every
/// other record ends one.
pub proof fn law_records_are_calls_or_barriers(cell: HistoryCell)
    ensures
        tool_run_projection::class_of(cell) is Action <==> tool_classification::cell_item(
            cell,
        ) is Some,
        tool_run_projection::class_of(cell) is Transparent ==> (
        cell.kind matches CellKind::Reasoning(reasoning) && reasoning.tool_run_transparent),
        (cell.kind matches CellKind::Reasoning(reasoning) && reasoning.tool_run_transparent)
            ==> tool_run_projection::class_of(cell) is Transparent,
        cell.kind is AgentMessage || cell.kind is Seal || cell.kind is SessionHeader
            || cell.kind is BackgroundTerminal ==> tool_run_projection::class_of(cell) is Barrier,
{
}

/// Whether a seal is that of the open run.
pub open spec fn seals(state: ToolRunLifecycle, seal: ToolRunSealCell) -> bool {
    state.open matches Some(run) && seal.run_id == run.run_id && seal.first_source_id
        == run.first_source_id && seal.last_source_id == run.last_source_id && seal.action_count
        == run.action_count
}

/// A run is sealed exactly where something ends it: a record that cannot lie in it, another turn,
/// the end of its own turn, or a request. The seal names the run, its first and last record and
/// its actions; where no run is open there is nothing to seal.
pub proof fn law_runs_are_sealed_where_they_end(
    state: ToolRunLifecycle,
    class: SourceClass,
    turn: Seq<char>,
)
    ensures
        state.seal_before(class) is Some <==> class is Barrier && state.open is Some,
        state.seal_before(class) matches Some(seal) ==> seals(state, seal),
        state.seal_at_turn(turn) is Some <==> state.open is Some && !(
        state.current_turn_id matches Some(current) && current@ == turn),
        state.seal_at_turn(turn) matches Some(seal) ==> seals(state, seal),
        state.pending_seal() is Some <==> state.open is Some,
        state.pending_seal() matches Some(seal) ==> seals(state, seal),
        state.run_belongs_to(turn) <==> (state.open matches Some(run) && (
        run.turn_id matches Some(owner) && owner@ == turn)),
{
}

/// A call extends the open run by one record and its actions, or opens a run of its own in the
/// current turn; a barrier leaves no run open; every record takes the next number.
pub proof fn law_calls_extend_the_open_run(state: ToolRunLifecycle, class: SourceClass)
    requires
        state.can_append(class),
    ensures
        ({
            let after = state.appended(class);
            &&& after.next_source_id == state.next_source_id + 1
            &&& after.current_turn_id == state.current_turn_id
            &&& class is Barrier ==> after.open is None && after.next_run_id == state.next_run_id
            &&& class matches SourceClass::Action(n) ==> {
                &&& after.open is Some
                &&& after.open->0.last_source_id.0 == state.next_source_id
                &&& state.open matches Some(run) ==> {
                    &&& after.open->0.run_id == run.run_id
                    &&& after.open->0.first_source_id == run.first_source_id
                    &&& after.open->0.turn_id == run.turn_id
                    &&& run.action_count + n <= usize::MAX ==> after.open->0.action_count
                        == run.action_count + n
                    &&& after.next_run_id == state.next_run_id
                }
                &&& state.open is None ==> {
                    &&& after.open->0.first_source_id.0 == state.next_source_id
                    &&& after.open->0.run_id.0 == state.next_run_id
                    &&& after.open->0.action_count == n
                    &&& after.open->0.turn_id == state.current_turn_id
                    &&& after.next_run_id == state.next_run_id + 1
                }
            }
            &&& class is Transparent ==> {
                &&& after.next_run_id == state.next_run_id
                &&& state.open is None ==> after.open is None
                &&& state.open matches Some(run) ==> after.open is Some
                    && after.open->0.last_source_id.0 == state.next_source_id
                    && after.open->0.action_count == run.action_count && after.open->0.run_id
                    == run.run_id && after.open->0.first_source_id == run.first_source_id
            }
        }),
{
}

/// Another turn closes the open run and becomes the current one; the same turn changes nothing. A
/// reset forgets both, and never a number that was given out.
pub proof fn law_turns_close_runs(state: ToolRunLifecycle, turn: String)
    ensures
        ({
            let same = state.current_turn_id matches Some(current) && current@ == turn@;
            let after = state.turn_begun(turn);
            &&& same ==> after == state
            &&& !same ==> after.open is None && after.current_turn_id == Some(turn)
            &&& after.next_source_id == state.next_source_id && after.next_run_id
                == state.next_run_id
        }),
        state.forgotten().open is None,
        state.forgotten().current_turn_id is None,
        state.forgotten().next_source_id == state.next_source_id,
        state.forgotten().next_run_id == state.next_run_id,
        state.closed_run().open is None,
        state.closed_run().current_turn_id == state.current_turn_id,
        state.closed_run().next_source_id == state.next_source_id,
        state.closed_run().next_run_id == state.next_run_id,
{
}

/// A seal stands for the records from its first to its last, both counted.
pub proof fn law_seal_counts_its_records(seal: ToolRunSealCell)
    requires
        seal.first_source_id.0 <= seal.last_source_id.0,
        seal.last_source_id.0 - seal.first_source_id.0 < usize::MAX,
    ensures
        seal.sources() == seal.last_source_id.0 - seal.first_source_id.0 + 1,
{
}

/// The rebuilt turns stay as many and in order, under the same identifiers, when they take on the
/// hook prompts of the authoritative ones; a turn that has no counterpart keeps its items.
pub proof fn law_prompts_leave_turns_in_order(
    rebuilt: Seq<TurnModel>,
    authoritative: Seq<TurnModel>,
    n: int,
    i: int,
)
    requires
        0 <= n <= authoritative.len(),
        0 <= i < rebuilt.len(),
    ensures
        ({
            let after = legacy_turns::with_hook_prompts(rebuilt, authoritative, n);
            &&& after.len() == rebuilt.len()
            &&& after[i].id == rebuilt[i].id && after[i].state == rebuilt[i].state
            &&& (forall|k: int|
                0 <= k < n ==> (#[trigger] authoritative[k]).id != rebuilt[i].id)
                ==> after[i].items == rebuilt[i].items
        }),
    decreases n,
{
    if n > 0 {
        law_prompts_leave_turns_in_order(rebuilt, authoritative, n - 1, i);
        let before = legacy_turns::with_hook_prompts(rebuilt, authoritative, n - 1);
        lemma_turn_place(before, authoritative[n - 1].id);
    }
}

/// The prompts of a turn go to the first rebuilt turn of the same identifier.
pub proof fn law_prompts_go_to_their_turn(
    rebuilt: Seq<TurnModel>,
    authoritative: Seq<TurnModel>,
    n: int,
    i: int,
)
    requires
        0 < n <= authoritative.len(),
        0 <= i < rebuilt.len(),
        rebuilt[i].id == authoritative[n - 1].id,
        forall|k: int| 0 <= k < i ==> (#[trigger] rebuilt[k]).id != authoritative[n - 1].id,
    ensures
        ({
            let turn = authoritative[n - 1];
            let before = legacy_turns::with_hook_prompts(rebuilt, authoritative, n - 1);
            let after = legacy_turns::with_hook_prompts(rebuilt, authoritative, n);
            after[i].items == legacy_turns::with_prompts(
                before[i].items,
                turn.items,
                turn.items.len() as int,
            )
        }),
{
    let turn = authoritative[n - 1];
    let before = legacy_turns::with_hook_prompts(rebuilt, authoritative, n - 1);
    law_prompts_leave_turns_in_order(rebuilt, authoritative, n - 1, i);
    lemma_turn_place(before, turn.id);
    let at = legacy_turns::turn_index(before, turn.id);
    if at < i {
        law_prompts_leave_turns_in_order(rebuilt, authoritative, n - 1, at);
        assert(rebuilt[at].id != turn.id);
    }
}

/// Restored turns have the hook prompts and the state of the authoritative ones.
pub proof fn law_restored_turns_have_prompts_and_state(
    rebuilt: Seq<TurnModel>,
    authoritative: Seq<TurnModel>,
    i: int,
    k: int,
)
    requires
        0 <= i < rebuilt.len(),
        0 <= k < authoritative.len(),
        authoritative[k].id == rebuilt[i].id,
        forall|j: int| 0 <= j < k ==> (#[trigger] authoritative[j]).id != rebuilt[i].id,
    ensures
        ({
            let after = legacy_turns::reconciled(rebuilt, authoritative);
            &&& after.len() == rebuilt.len()
            &&& after[i].id == rebuilt[i].id
            &&& after[i].state == authoritative[k].state
            &&& after[i].items == legacy_turns::with_hook_prompts(
                rebuilt,
                authoritative,
                authoritative.len() as int,
            )[i].items
        }),
{
    let all = authoritative.len() as int;
    law_prompts_leave_turns_in_order(rebuilt, authoritative, all, i);
    law_turns_take_the_authoritative_state(
        legacy_turns::with_hook_prompts(rebuilt, authoritative, all),
        authoritative,
        i,
        k,
    );
}

} // verus!
