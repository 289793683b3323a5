//! Laws of single records: what a cell shows, which calls may be folded, what is counted, and how
//! many rows things take.

use std::sync::Arc;

use vstd::prelude::*;

use crate::classification_memo;
use crate::classification_memo::CellState;
use crate::compact_tool_groups::ShownCell;
use crate::dynamic_tool;
use crate::dynamic_tool::DynamicToolCallCell;
use crate::dynamic_tool::DynamicToolCallStatus;
use crate::history_cell;
use crate::history_cell::CellKind;
use crate::history_cell::ExecCall;
use crate::history_cell::ExecCell;
use crate::history_cell::HistoryCell;
use crate::history_cell::HistoryRenderMode;
use crate::history_cell::McpToolCallCell;
use crate::json::Json;
use crate::ledger;
use crate::ledger::Tally;
use crate::pager_content;
use crate::pager_content::BodyModel;
use crate::pager_content::ItemModel;
use crate::pager_layout;
use crate::prepared_cell;
use crate::quiet_bench;
use crate::quiet_metrics;
use crate::quiet_metrics::QuietCounters;
use crate::quiet_metrics::QuietMetric;
use crate::quiet_metrics::RangeReplacementReason;
use crate::quiet_metrics::ToolRunSealReason;
use crate::text;
use crate::tool_classification;
use crate::version;

verus! {

proof fn lemma_layout(layouts: Seq<(u16, Vec<String>)>, width: u16)
    ensures
        0 <= history_cell::layout_index(layouts, width) <= layouts.len(),
        forall|j: int|
            0 <= j < history_cell::layout_index(layouts, width) ==> (#[trigger] layouts[j]).0
                != width,
        ({
            let k = history_cell::layout_index(layouts, width);
            k < layouts.len() ==> layouts[k].0 == width
        }),
    decreases layouts.len(),
{
    if layouts.len() > 0 && layouts[0].0 != width {
        let rest = layouts.skip(1);
        lemma_layout(rest, width);
        assert forall|j: int| 0 <= j < history_cell::layout_index(layouts, width) implies (
        #[trigger] layouts[j]).0 != width by {
            if j > 0 {
                assert(rest[j - 1] == layouts[j]);
            }
        }
    }
}

/// In raw mode a cell shows its raw lines. In rich mode it shows what was laid out for the width,
/// else its rich lines. A seal shows nothing.
pub proof fn law_cell_shows_the_lines_of_its_mode(cell: HistoryCell, width: u16, k: int)
    ensures
        cell.kind is Seal ==> cell.lines(width, HistoryRenderMode::Raw).len() == 0 && cell.lines(
            width,
            HistoryRenderMode::Rich,
        ).len() == 0,
        !(cell.kind is Seal) ==> cell.lines(width, HistoryRenderMode::Raw) == text::views(
            cell.raw_lines@,
        ),
        !(cell.kind is Seal) && 0 <= k < cell.layouts@.len() && cell.layouts@[k].0 == width && (
        forall|j: int| 0 <= j < k ==> (#[trigger] cell.layouts@[j]).0 != width) ==> cell.lines(
            width,
            HistoryRenderMode::Rich,
        ) == text::views(cell.layouts@[k].1@),
        !(cell.kind is Seal) && (forall|j: int|
            0 <= j < cell.layouts@.len() ==> (#[trigger] cell.layouts@[j]).0 != width)
            ==> cell.lines(width, HistoryRenderMode::Rich) == text::views(cell.rich_lines@),
{
    lemma_layout(cell.layouts@, width);
    let found = history_cell::layout_index(cell.layouts@, width);
    if 0 <= k < cell.layouts@.len() && cell.layouts@[k].0 == width && found < k {
        assert(cell.layouts@[found].0 == width);
    }
}

/// Whether a command came to an end that leaves nothing to look at.
pub open spec fn ended_quietly(call: ExecCall) -> bool {
    &&& !call.user_shell_command
    &&& call.output matches Some(output) && tool_classification::foldable_output(
        output,
        call.shell_line@,
    )
}

/// Commands may be folded just where each of them was run by the agent, ended well, and printed
/// nothing that has to stay visible.
pub proof fn law_only_quiet_commands_are_folded(exec: ExecCell)
    ensures
        tool_classification::exec_item(exec) is Some <==> (forall|i: int|
            0 <= i < exec.calls@.len() ==> ended_quietly(#[trigger] exec.calls@[i])),
{
    lemma_quiet(exec.calls@);
    if tool_classification::exec_item(exec) is Some {
        assert forall|i: int| 0 <= i < exec.calls@.len() implies ended_quietly(
            #[trigger] exec.calls@[i],
        ) by {}
    }
}

proof fn lemma_quiet(calls: Seq<ExecCall>)
    ensures
        tool_classification::with_calls(calls) is Some <==> (forall|i: int|
            0 <= i < calls.len() ==> ((#[trigger] calls[i]).output matches Some(output)
                && tool_classification::foldable_output(output, calls[i].shell_line@))),
    decreases calls.len(),
{
    if calls.len() > 0 {
        let front = calls.drop_last();
        lemma_quiet(front);
        assert(forall|i: int| 0 <= i < front.len() ==> front[i] == #[trigger] calls[i]);
        if tool_classification::with_calls(calls) is Some {
            assert forall|i: int| 0 <= i < calls.len() implies ((
            #[trigger] calls[i]).output matches Some(output)
                && tool_classification::foldable_output(output, calls[i].shell_line@)) by {
                if i < front.len() {
                    assert(front[i] == calls[i]);
                }
            }
        }
    }
}

/// A call of a tool server may be folded where it succeeded and left nothing to look at, any other
/// tool call where it is complete, a web search where it is over, and a patch where it changed a
/// file. Nothing else may be folded.
pub proof fn law_only_settled_calls_are_folded(cell: Arc<HistoryCell>)
    ensures
        cell.kind matches CellKind::Mcp(mcp) ==> (tool_classification::cell_item(*cell) is Some
            <==> mcp.completed == Some(true) && mcp.safe_to_compact),
        cell.kind matches CellKind::Dynamic(tool) ==> (tool_classification::cell_item(*cell) is Some
            <==> tool.status is Completed),
        cell.kind matches CellKind::Web(web) ==> (tool_classification::cell_item(*cell) is Some
            <==> web.completed_action is Some),
        cell.kind matches CellKind::Patch(patch) ==> (tool_classification::cell_item(*cell) is Some
            <==> patch.changed_file_count > 0),
        cell.kind is Reasoning || cell.kind is Seal || cell.kind is BackgroundTerminal
            || cell.kind is AgentMessage || cell.kind is SessionHeader || cell.kind is Other
            ==> tool_classification::cell_item(*cell) is None,
        tool_classification::transparent(*cell) <==> (cell.kind matches CellKind::Reasoning(
            reasoning,
        ) && reasoning.tool_run_transparent),
{
}

/// Only commands and calls of a tool server are looked at when a cell is classified, one look for
/// each.
pub proof fn law_only_commands_and_server_calls_are_looked_at(cell: Arc<HistoryCell>)
    ensures
        cell.kind is Exec || cell.kind is Mcp ==> tool_classification::item_scans(*cell).len() == 1
            && (tool_classification::item_scans(*cell)[0] matches Tally::Look { id, state } && id
            == cell.id),
        !(cell.kind is Exec || cell.kind is Mcp) ==> tool_classification::item_scans(*cell).len()
            == 0,
{
}

/// A call is in flight as long as it has no result, and its state says how it ended.
pub proof fn law_state_says_how_a_call_ended(exec: ExecCell, mcp: McpToolCallCell, i: int)
    ensures
        classification_memo::exec_state(exec) is InFlight <==> (exists|k: int|
            0 <= k < exec.calls@.len() && (#[trigger] exec.calls@[k]).output is None),
        classification_memo::exec_state(exec) matches CellState::Exec(calls) ==> {
            &&& calls.len() == exec.calls@.len()
            &&& 0 <= i < calls.len() ==> {
                let call = exec.calls@[i];
                &&& calls[i].shell_line == call.shell_line@
                &&& calls[i].user_shell_command == call.user_shell_command
                &&& calls[i].command == text::views(call.command@)
                &&& calls[i].parsed.len() == call.parsed@.len()
                &&& call.output matches Some(output) ==> (calls[i].output matches Some(seen)
                    && seen.exit_code == output.exit_code && seen.lines == text::views(
                    output.lines@,
                ) && seen.scan == output.scan)
            }
        },
        classification_memo::mcp_state(mcp) is InFlight <==> mcp.completed is None,
        classification_memo::mcp_state(mcp) matches CellState::Mcp {
            server,
            tool,
            success,
            safe,
        } ==> server == mcp.server@ && tool == mcp.tool@ && Some(success) == mcp.completed && safe
            == mcp.safe_to_compact,
{
}

/// A look at a call in flight passes it over. A call that is as it was is taken from the memo.
/// Any other is scanned and kept, and what was kept of it before is dropped.
pub proof fn law_looks_are_counted_by_what_is_kept(
    memo: Map<u64, CellState>,
    id: u64,
    state: CellState,
)
    ensures
        ({
            let seen = ledger::look_metrics(memo, id, state);
            let same = memo.contains_key(id) && memo[id] == state;
            let other = memo.contains_key(id) && memo[id] != state;
            &&& !(state is InFlight) && same ==> seen == seq![QuietMetric::ClassificationCacheHit]
            &&& other ==> seen[0] == QuietMetric::ClassificationCacheInvalidation
            &&& state is InFlight ==> seen.last() == QuietMetric::ClassificationInFlightBypass
                && seen.len() == if other {
                2int
            } else {
                1int
            }
            &&& !(state is InFlight) && !same ==> seen.len() == if other {
                4int
            } else {
                3int
            }
            &&& !(state is InFlight) && !same ==> seen.subrange(seen.len() - 3, seen.len() as int)
                == seq![
                QuietMetric::ClassificationCacheMiss,
                QuietMetric::ClassificationOutputScan,
                QuietMetric::ClassificationMemoPopulate,
            ]
        }),
{
    let seen = ledger::look_metrics(memo, id, state);
    let same = memo.contains_key(id) && memo[id] == state;
    if !(state is InFlight) && !same {
        assert(seen.subrange(seen.len() - 3, seen.len() as int) =~= seq![
            QuietMetric::ClassificationCacheMiss,
            QuietMetric::ClassificationOutputScan,
            QuietMetric::ClassificationMemoPopulate,
        ]);
    }
}

proof fn lemma_entry(entries: Seq<(String, Json)>, key: Seq<char>)
    ensures
        0 <= dynamic_tool::entry_index(entries, key) <= entries.len(),
        forall|j: int|
            0 <= j < dynamic_tool::entry_index(entries, key) ==> (#[trigger] entries[j]).0@ != key,
        ({
            let k = dynamic_tool::entry_index(entries, key);
            k < entries.len() ==> entries[k].0@ == key
        }),
    decreases entries.len(),
{
    if entries.len() > 0 && entries[0].0@ != key {
        let rest = entries.skip(1);
        lemma_entry(rest, key);
        assert forall|j: int| 0 <= j < dynamic_tool::entry_index(entries, key) implies (
        #[trigger] entries[j]).0@ != key by {
            if j > 0 {
                assert(rest[j - 1] == entries[j]);
            }
        }
    }
}

/// An object has under a key the text that first stands there, and nothing else has a text under a
/// key.
pub proof fn law_text_is_found_under_its_key(value: Json, key: Seq<char>, k: int)
    ensures
        !(value is Object) ==> dynamic_tool::text_entry(value, key) is None,
        value matches Json::Object(entries) ==> {
            &&& (forall|j: int|
                0 <= j < entries@.len() ==> (#[trigger] entries@[j]).0@ != key)
                ==> dynamic_tool::text_entry(value, key) is None
            &&& 0 <= k < entries@.len() && entries@[k].0@ == key && (forall|j: int|
                0 <= j < k ==> (#[trigger] entries@[j]).0@ != key) ==> {
                &&& entries@[k].1 matches Json::Text(t) ==> dynamic_tool::text_entry(value, key)
                    == Some(t@)
                &&& !(entries@[k].1 is Text) ==> dynamic_tool::text_entry(value, key) is None
            }
        },
{
    if let Json::Object(entries) = value {
        lemma_entry(entries@, key);
        let found = dynamic_tool::entry_index(entries@, key);
        if 0 <= k < entries@.len() && entries@[k].0@ == key && found < k {
            assert(entries@[found].0@ == key);
        }
    }
}

/// A tool call says how it went, which tool was called, and, of a command, the command.
pub proof fn law_tool_call_says_how_it_went(call: DynamicToolCallCell)
    ensures
        ({
            let says = call.sentence();
            let label = match call.namespace {
                Some(namespace) => namespace@ + "."@ + call.tool@,
                None => call.tool@,
            };
            let head = match call.status {
                DynamicToolCallStatus::Completed => "Called "@,
                DynamicToolCallStatus::Failed => "Tool call failed: "@,
                DynamicToolCallStatus::InProgress => "Tool call unfinished: "@,
            };
            let command = dynamic_tool::text_entry(call.arguments, "cmd"@);
            &&& call.tool@ != "exec_command"@ || command is None ==> says == head + label
            &&& call.tool@ == "exec_command"@ ==> (command matches Some(line) ==> says == head
                + label + ": "@ + line)
        }),
{
    let label = call.label_text();
    let head = match call.status {
        DynamicToolCallStatus::Completed => "Called "@,
        DynamicToolCallStatus::Failed => "Tool call failed: "@,
        DynamicToolCallStatus::InProgress => "Tool call unfinished: "@,
    };
    assert(head + label + Seq::<char>::empty() =~= head + label);
    if let Some(line) = dynamic_tool::text_entry(call.arguments, "cmd"@) {
        assert(head + label + (": "@ + line) =~= head + label + ": "@ + line);
    }
}

/// A release shows and compares its own version; any other build compares the version of its
/// package, and shows it between its name and a mark.
pub proof fn law_release_shows_its_version(release: Seq<char>, package: Seq<char>)
    ensures
        version::bare_version(Some(release), package) == release,
        version::shown_version(Some(release), package) == release,
        version::bare_version(None, package) == package,
        version::shown_version(None, package) == "codex-quiet "@ + package + "+local"@,
{
}

/// Every reason to seal a run, and every reason to exchange a range, has a counter of its own.
pub proof fn law_reasons_have_their_own_counters(a: ToolRunSealReason, b: RangeReplacementReason)
    ensures
        quiet_metrics::seal_metric(a) == match a {
            ToolRunSealReason::AssistantStream => QuietMetric::SealAssistantStream,
            ToolRunSealReason::PlanStream => QuietMetric::SealPlanStream,
            ToolRunSealReason::ReasoningStream => QuietMetric::SealReasoningStream,
            ToolRunSealReason::Barrier => QuietMetric::SealBarrier,
            ToolRunSealReason::TurnBoundary => QuietMetric::SealTurnBoundary,
            ToolRunSealReason::TurnComplete => QuietMetric::SealTurnComplete,
            ToolRunSealReason::ReplayEnd => QuietMetric::SealReplayEnd,
        },
        quiet_metrics::replacement_metric(b) == match b {
            RangeReplacementReason::Seal => QuietMetric::RangeReplacementSeal,
            RangeReplacementReason::Lifecycle => QuietMetric::RangeReplacementLifecycle,
            RangeReplacementReason::StructuralEdit => QuietMetric::RangeReplacementStructural,
            RangeReplacementReason::UserToggle => QuietMetric::RangeReplacementUserToggle,
        },
{
}

/// The time, in nanoseconds, that a render of a bucket stays below, if there is one.
pub open spec fn bucket_end(bucket: QuietMetric) -> Option<int> {
    match bucket {
        QuietMetric::RenderUnder1Ms => Some(1_000_000),
        QuietMetric::RenderUnder2Ms => Some(2_000_000),
        QuietMetric::RenderUnder4Ms => Some(4_000_000),
        QuietMetric::RenderUnder8Ms => Some(8_000_000),
        QuietMetric::RenderUnder12Ms => Some(12_000_000),
        QuietMetric::RenderUnder16Ms => Some(16_000_000),
        QuietMetric::RenderUnder33Ms => Some(33_000_000),
        _ => None,
    }
}

/// A render is counted in the first bucket whose end it stays below, and behind the last one if
/// there is none. Its time in microseconds is rounded down.
pub proof fn law_render_is_in_the_first_bucket_that_fits(nanos: u128, other: QuietMetric)
    ensures
        ({
            let bucket = quiet_metrics::render_bucket(nanos as int);
            &&& bucket_end(bucket) matches Some(end) ==> nanos < end
            &&& bucket_end(bucket) is None ==> bucket == QuietMetric::RenderOver33Ms
            &&& bucket_end(other) matches Some(end) ==> (nanos < end ==> (bucket_end(
                bucket,
            ) matches Some(first) && first <= end))
        }),
        ({
            let micros = quiet_metrics::micros_of(nanos);
            &&& micros * 1000 <= nanos
            &&& micros < u64::MAX ==> nanos < (micros + 1) * 1000
        }),
{
}

/// Counting wraps a counter around at its size; counting in a test stops there.
pub proof fn law_counters_wrap_and_test_counters_stop(a: u64, n: nat)
    ensures
        quiet_metrics::wrapped_sum(a, n) == (a + n) % 0x1_0000_0000_0000_0000,
        a + n <= u64::MAX ==> quiet_metrics::stopped_sum(a, n) == a + n,
        a + n > u64::MAX ==> quiet_metrics::stopped_sum(a, n) == u64::MAX,
    decreases n,
{
    if n > 0 {
        law_counters_wrap_and_test_counters_stop(a, (n - 1) as nat);
    }
}

/// A metric occurs as often as it stands in the list.
pub proof fn law_metrics_are_counted_one_by_one(metrics: Seq<QuietMetric>, m: QuietMetric)
    ensures
        quiet_metrics::occurrences(metrics, m) == metrics.filter(|x: QuietMetric| x == m).len(),
    decreases metrics.len(),
{
    reveal(Seq::filter);
    if metrics.len() > 0 {
        law_metrics_are_counted_one_by_one(metrics.drop_last(), m);
    }
}

/// A recorded value raises its own counter to itself where that was lower, and changes no other.
pub proof fn law_recorded_value_is_a_maximum(
    before: QuietCounters,
    after: QuietCounters,
    metric: QuietMetric,
    value: u64,
    other: QuietMetric,
)
    requires
        quiet_metrics::recorded(before, after, metric, value),
    ensures
        after.count(metric) >= value && after.count(metric) >= before.count(metric),
        after.count(metric) == value || after.count(metric) == before.count(metric),
        after.test_count(metric) >= value && after.test_count(metric) >= before.test_count(metric),
        after.test_count(metric) == value || after.test_count(metric) == before.test_count(metric),
        other != metric ==> after.count(other) == before.count(other) && after.test_count(other)
            == before.test_count(other),
{
    let a = after.count(metric);
    let b = after.test_count(metric);
    let c = after.count(other);
    let d = after.test_count(other);
}

/// A cell is measured where it was not laid out at the width, and only then; a draw looks the
/// layout up again. What was laid out at another width is dropped.
pub proof fn law_cells_are_measured_for_a_new_width(prepared: Option<u16>, width: u16)
    ensures
        ({
            let measured = Tally::Metric(QuietMetric::LayoutStableCellMeasurement);
            let hit = Tally::Metric(QuietMetric::PreparedCellCacheHit);
            let miss = Tally::Metric(QuietMetric::PreparedCellCacheMiss);
            let dropped = Tally::Metric(QuietMetric::PreparedCellCacheInvalidation);
            let drawn = Tally::Metric(QuietMetric::LayoutVisibleCellDraw);
            &&& prepared == Some(width) ==> prepared_cell::prepare_tallies(prepared, width)
                == seq![hit] && prepared_cell::layout_tallies(prepared, width).len() == 0
                && prepared_cell::draw_tallies(prepared, width) == seq![drawn, hit]
            &&& prepared is None ==> prepared_cell::prepare_tallies(prepared, width) == seq![
                miss,
                measured,
            ] && prepared_cell::layout_tallies(prepared, width) == seq![miss, measured]
                && prepared_cell::draw_tallies(prepared, width) == seq![drawn, miss, measured]
            &&& prepared is Some && prepared != Some(width) ==> prepared_cell::prepare_tallies(
                prepared,
                width,
            ) == seq![dropped, miss, measured] && prepared_cell::layout_tallies(prepared, width)
                == seq![dropped, miss, measured] && prepared_cell::draw_tallies(prepared, width)
                == seq![drawn, dropped, miss, measured]
        }),
{
    let measured = Tally::Metric(QuietMetric::LayoutStableCellMeasurement);
    let hit = Tally::Metric(QuietMetric::PreparedCellCacheHit);
    let miss = Tally::Metric(QuietMetric::PreparedCellCacheMiss);
    let dropped = Tally::Metric(QuietMetric::PreparedCellCacheInvalidation);
    let drawn = Tally::Metric(QuietMetric::LayoutVisibleCellDraw);
    assert(seq![drawn] + seq![hit] =~= seq![drawn, hit]);
    assert(seq![drawn] + seq![miss, measured] =~= seq![drawn, miss, measured]);
    assert(seq![drawn] + seq![dropped, miss, measured] =~= seq![drawn, dropped, miss, measured]);
}

/// A cell takes the rows of its wrapped lines, a live cell those of its own; the row of a group
/// takes one. A blank row above comes on top.
pub proof fn law_items_take_the_rows_of_their_text(item: ItemModel, width: u16, i: int)
    ensures
        pager_content::body_height(item.body, width) < u16::MAX ==> pager_content::item_height(
            item,
            width,
        ) == pager_content::body_height(item.body, width) + if item.spaced {
            1int
        } else {
            0int
        },
        item.body matches BodyModel::Cell { cell, mode } ==> {
            &&& cell matches ShownCell::Source(source) ==> ({
                let rows = pager_content::rows_at(source.lines(width, mode), width);
                rows <= u16::MAX ==> pager_content::body_height(item.body, width) == rows
            })
            &&& cell is Work && mode is Rich && width > 0 ==> pager_content::body_height(
                item.body,
                width,
            ) == 1
        },
        item.body matches BodyModel::Live(live) ==> ({
            let rows = pager_content::rows_at(text::views(live.lines@), width);
            rows <= u16::MAX ==> pager_content::body_height(item.body, width) == rows
        }),
{
}

/// Lines are wrapped at the width that was asked for, unless that and a line are too large to
/// count the columns.
pub proof fn law_lines_wrap_at_the_width(lines: Seq<Seq<char>>, width: u16)
    ensures
        width <= pager_content::WRAP_LIMIT ==> pager_content::rows_at(lines, width)
            == pager_content::wrapped_rows(lines, width),
        (forall|i: int|
            0 <= i < lines.len() ==> (#[trigger] lines[i]).len() <= pager_content::LINE_LIMIT)
            ==> pager_content::rows_at(lines, width) == pager_content::wrapped_rows(lines, width),
{
}

/// The heights of the first items, added up.
pub open spec fn rows_of(heights: Seq<u16>, n: int) -> int
    decreases n,
{
    if n <= 0 {
        0
    } else {
        rows_of(heights, n - 1) + heights[n - 1]
    }
}

/// An item starts behind all the rows of those before it.
pub proof fn law_items_start_behind_each_other(heights: Seq<u16>, i: int)
    requires
        0 <= i <= heights.len(),
        rows_of(heights, i) <= usize::MAX,
    ensures
        pager_layout::top_of(heights, i) == rows_of(heights, i),
        0 <= rows_of(heights, i),
    decreases i,
{
    if i > 0 {
        lemma_rows_grow(heights, i - 1);
        law_items_start_behind_each_other(heights, i - 1);
    }
}

proof fn lemma_rows_grow(heights: Seq<u16>, i: int)
    ensures
        0 <= rows_of(heights, i),
    decreases i,
{
    if i > 0 {
        lemma_rows_grow(heights, i - 1);
    }
}

/// The view moves by the rows that were asked for, and stops at the ends of the list. The end of
/// the list is where its last row is at the bottom of the view.
pub proof fn law_view_moves_by_rows(
    offset: usize,
    max: usize,
    rows: usize,
    items: Seq<ItemModel>,
    width: u16,
    height: u16,
)
    requires
        offset <= max,
    ensures
        ({
            let up = pager_content::moved_by(
                offset,
                max,
                pager_content::MouseScrollDirection::Up,
                rows,
            );
            let down = pager_content::moved_by(
                offset,
                max,
                pager_content::MouseScrollDirection::Down,
                rows,
            );
            &&& rows <= offset ==> up == offset - rows
            &&& rows > offset ==> up == 0
            &&& offset + rows <= max ==> down == offset + rows
            &&& offset + rows > max ==> down == max
        }),
        ({
            let total = pager_content::item_top(items, width, items.len() as int);
            let last = pager_content::last_offset(items, width, height);
            &&& total >= height ==> last + height == total
            &&& total < height ==> last == 0
        }),
{
}

/// The status line counts its ticks, which start over behind the last number.
pub proof fn law_footer_counts_its_ticks(tick: u64)
    ensures
        tick < u64::MAX ==> quiet_bench::next_tick(tick) == tick + 1,
        tick == u64::MAX ==> quiet_bench::next_tick(tick) == 0,
        quiet_bench::footer_text(tick) == "esc interrupt · Working "@ + text::decimal(tick as nat)
            + "s"@,
{
}

/// A character that stands alone in one column is printable ASCII or a middle dot; a line of such
/// characters, or one that is not too long, can be wrapped at every width up to its limit.
pub proof fn law_plain_characters_take_one_column(c: char, line: Seq<char>, width: u16)
    ensures
        pager_content::one_column(c) <==> 0x20 <= c as u32 <= 0x7e || c == '·',
        line.len() <= pager_content::LINE_LIMIT ==> pager_content::line_wraps(line, width),
        line.len() > pager_content::LINE_LIMIT ==> (pager_content::line_wraps(line, width)
            <==> width <= pager_content::PLAIN_WRAP_LIMIT && (forall|k: int|
            0 <= k < line.len() ==> pager_content::one_column(#[trigger] line[k]))),
{
}

} // verus!
