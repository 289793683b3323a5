//! What holds of every projection of a conversation.

use std::sync::Arc;

use vstd::prelude::*;

use crate::compact_tool_group_item;
use crate::compact_tool_group_item::SummaryModel;
use crate::compact_tool_groups;
use crate::compact_tool_groups::CompactToolGroupId;
use crate::compact_tool_groups::GroupModel;
use crate::compact_tool_groups::ShownCell;
use crate::history_cell::ExecCell;
use crate::history_cell::HistoryCell;
use crate::history_cell::ParsedCommand;
use crate::text;
use crate::tool_classification;
use crate::tool_run_projection;
use crate::tool_run_projection::SourceClass;
use crate::tool_run_projection::ToolRunLifecycle;

verus! {

/// The source cells behind one cell of a projection. The sources of an expanded group stand
/// beside its row, so the row itself stands for none.
pub open spec fn sources_behind(cell: ShownCell) -> Seq<Arc<HistoryCell>> {
    match cell {
        ShownCell::Source(source) => seq![source],
        ShownCell::Work { id: _, actions: _, expanded, sources, detail: _ } => if expanded {
            Seq::empty()
        } else {
            sources
        },
    }
}

pub open spec fn all_sources_behind(cells: Seq<ShownCell>) -> Seq<Arc<HistoryCell>>
    decreases cells.len(),
{
    if cells.len() == 0 {
        Seq::empty()
    } else {
        all_sources_behind(cells.drop_last()) + sources_behind(cells.last())
    }
}

proof fn lemma_all_sources_concat(a: Seq<ShownCell>, b: Seq<ShownCell>)
    ensures
        all_sources_behind(a + b) == all_sources_behind(a) + all_sources_behind(b),
    decreases b.len(),
{
    if b.len() == 0 {
        assert(a + b =~= a);
        assert(all_sources_behind(a) + all_sources_behind(b) =~= all_sources_behind(a));
    } else {
        assert((a + b).drop_last() =~= a + b.drop_last());
        lemma_all_sources_concat(a, b.drop_last());
        assert(all_sources_behind(a) + (all_sources_behind(b.drop_last()) + sources_behind(
            b.last(),
        )) =~= all_sources_behind(a) + all_sources_behind(b.drop_last()) + sources_behind(
            b.last(),
        ));
    }
}

proof fn lemma_sources_of_sources(cells: Seq<Arc<HistoryCell>>)
    ensures
        all_sources_behind(compact_tool_groups::as_sources(cells)) == cells,
    decreases cells.len(),
{
    let shown = compact_tool_groups::as_sources(cells);
    if cells.len() > 0 {
        assert(shown.drop_last() =~= compact_tool_groups::as_sources(cells.drop_last()));
        lemma_sources_of_sources(cells.drop_last());
        assert(cells.drop_last() + seq![cells.last()] =~= cells);
    }
}

proof fn lemma_unsealed_concat(a: Seq<Arc<HistoryCell>>, b: Seq<Arc<HistoryCell>>)
    ensures
        compact_tool_groups::unsealed(a + b) == compact_tool_groups::unsealed(a)
            + compact_tool_groups::unsealed(b),
    decreases b.len(),
{
    if b.len() == 0 {
        assert(a + b =~= a);
        assert(compact_tool_groups::unsealed(a) + compact_tool_groups::unsealed(b)
            =~= compact_tool_groups::unsealed(a));
    } else {
        assert((a + b).drop_last() =~= a + b.drop_last());
        lemma_unsealed_concat(a, b.drop_last());
        assert((a + b).last() == b.last());
        assert(compact_tool_groups::unsealed(a + b) =~= compact_tool_groups::unsealed(a)
            + compact_tool_groups::unsealed(b));
    }
}

proof fn lemma_unsealed_run(cells: Seq<Arc<HistoryCell>>)
    requires
        forall|i: int|
            0 <= i < cells.len() ==> compact_tool_groups::inside_run(#[trigger] cells[i]),
    ensures
        compact_tool_groups::unsealed(cells) == cells,
    decreases cells.len(),
{
    if cells.len() > 0 {
        let shorter = cells.drop_last();
        assert forall|i: int| 0 <= i < shorter.len() implies compact_tool_groups::inside_run(
            #[trigger] shorter[i],
        ) by {
            assert(shorter[i] == cells[i]);
        }
        lemma_unsealed_run(shorter);
        assert(compact_tool_groups::inside_run(cells[cells.len() - 1]));
        assert(shorter.push(cells.last()) =~= cells);
    }
}

proof fn lemma_group_rows_sources(cells: Seq<Arc<HistoryCell>>, g: GroupModel, expanded: bool)
    ensures
        all_sources_behind(compact_tool_groups::group_rows(cells, g, expanded))
            == compact_tool_groups::sources_of(cells, g),
{
    let sources = compact_tool_groups::sources_of(cells, g);
    let header = compact_tool_groups::group_rows(cells, g, expanded)[0];
    let row = seq![header];
    assert(row.drop_last() =~= Seq::empty());
    assert(all_sources_behind(row.drop_last()) =~= Seq::empty());
    assert(all_sources_behind(row) =~= sources_behind(header));
    if expanded {
        lemma_all_sources_concat(row, compact_tool_groups::as_sources(sources));
        lemma_sources_of_sources(sources);
        assert(compact_tool_groups::group_rows(cells, g, expanded) =~= row
            + compact_tool_groups::as_sources(sources));
        assert(Seq::<Arc<HistoryCell>>::empty() + sources =~= sources);
    } else {
        assert(compact_tool_groups::group_rows(cells, g, expanded) =~= row);
    }
}

proof fn lemma_one_cell(cell: Arc<HistoryCell>)
    ensures
        tool_run_projection::seal_of(*cell) is Some ==> compact_tool_groups::unsealed(seq![cell])
            == Seq::<Arc<HistoryCell>>::empty(),
        tool_run_projection::seal_of(*cell) is None ==> compact_tool_groups::unsealed(seq![cell])
            == seq![cell],
        all_sources_behind(seq![ShownCell::Source(cell)]) == seq![cell],
{
    let one = seq![cell];
    let shown = seq![ShownCell::Source(cell)];
    assert(one.drop_last() =~= Seq::empty());
    assert(shown.drop_last() =~= Seq::empty());
    reveal_with_fuel(compact_tool_groups::unsealed, 2);
    reveal_with_fuel(all_sources_behind, 2);
    assert(compact_tool_groups::unsealed(one.drop_last()) =~= Seq::empty());
    assert(Seq::<Arc<HistoryCell>>::empty().push(cell) =~= one);
    assert(Seq::<Arc<HistoryCell>>::empty() + one =~= one);
}

proof fn lemma_folding_keeps_sources(
    cells: Seq<Arc<HistoryCell>>,
    expanded: Seq<CompactToolGroupId>,
    i: int,
)
    requires
        0 <= i <= cells.len(),
    ensures
        all_sources_behind(compact_tool_groups::folded_from(cells, expanded, i))
            == compact_tool_groups::unsealed(cells.skip(i)),
    decreases cells.len() - i,
{
    let tail = cells.skip(i);
    if i >= cells.len() {
        assert(tail =~= Seq::empty());
    } else {
        compact_tool_groups::lemma_group_bounds(cells, i);
        match compact_tool_groups::group_at(cells, i) {
            Some(g) => {
                let next = i + g.sources + 1;
                let sources = compact_tool_groups::sources_of(cells, g);
                let seal = seq![cells[i + g.sources]];
                lemma_folding_keeps_sources(cells, expanded, next);
                lemma_group_rows_sources(cells, g, expanded.contains(g.id));
                lemma_all_sources_concat(
                    compact_tool_groups::group_rows(cells, g, expanded.contains(g.id)),
                    compact_tool_groups::folded_from(cells, expanded, next),
                );
                assert forall|k: int|
                    0 <= k < sources.len() implies compact_tool_groups::inside_run(
                    #[trigger] sources[k],
                ) by {
                    assert(sources[k] == cells[i + k]);
                }
                lemma_unsealed_run(sources);
                lemma_one_cell(cells[i + g.sources]);
                lemma_unsealed_concat(sources, seal);
                lemma_unsealed_concat(sources + seal, cells.skip(next));
                assert(tail =~= (sources + seal) + cells.skip(next));
                assert(sources + Seq::<Arc<HistoryCell>>::empty() =~= sources);
            },
            None => {
                lemma_folding_keeps_sources(cells, expanded, i + 1);
                let one = seq![cells[i]];
                assert(tail =~= one + cells.skip(i + 1));
                lemma_unsealed_concat(one, cells.skip(i + 1));
                lemma_one_cell(cells[i]);
                let rest = compact_tool_groups::folded_from(cells, expanded, i + 1);
                lemma_all_sources_concat(seq![ShownCell::Source(cells[i])], rest);
                assert(Seq::<Arc<HistoryCell>>::empty() + compact_tool_groups::unsealed(
                    cells.skip(i + 1),
                ) =~= compact_tool_groups::unsealed(cells.skip(i + 1)));
            },
        }
    }
}

/// Folding loses nothing: whatever is folded or expanded, the cells behind a projection are the
/// cells of the conversation without its seals, each once and in order.
pub proof fn law_projection_keeps_every_source(
    cells: Seq<Arc<HistoryCell>>,
    compact: bool,
    expanded: Seq<CompactToolGroupId>,
)
    ensures
        all_sources_behind(compact_tool_groups::projection(cells, compact, expanded))
            == compact_tool_groups::unsealed(cells),
{
    if compact {
        lemma_folding_keeps_sources(cells, expanded, 0);
        assert(cells.skip(0) =~= cells);
    } else {
        lemma_sources_of_sources(compact_tool_groups::unsealed(cells));
    }
}

proof fn lemma_visible_from(
    cells: Seq<Arc<HistoryCell>>,
    expanded: Seq<CompactToolGroupId>,
    i: int,
    k: int,
) -> (at: int)
    requires
        0 <= i <= k < cells.len(),
        !compact_tool_groups::inside_run(cells[k]),
        tool_run_projection::seal_of(*cells[k]) is None,
    ensures
        0 <= at < compact_tool_groups::folded_from(cells, expanded, i).len(),
        compact_tool_groups::folded_from(cells, expanded, i)[at] == ShownCell::Source(cells[k]),
    decreases cells.len() - i,
{
    compact_tool_groups::lemma_group_bounds(cells, i);
    match compact_tool_groups::group_at(cells, i) {
        Some(g) => {
            if k < i + g.sources {
                assert(compact_tool_groups::inside_run(cells[k]));
            }
            let at = lemma_visible_from(cells, expanded, i + g.sources + 1, k);
            at + compact_tool_groups::group_rows(cells, g, expanded.contains(g.id)).len()
        },
        None => {
            if k == i {
                0
            } else {
                let at = lemma_visible_from(cells, expanded, i + 1, k);
                let skipped = compact_tool_groups::folded_from(cells, expanded, i).len()
                    - compact_tool_groups::folded_from(cells, expanded, i + 1).len();
                at + skipped
            }
        },
    }
}

/// A cell that may not be folded is shown as it is in every projection.
pub proof fn law_unfoldable_cells_stay_visible(
    cells: Seq<Arc<HistoryCell>>,
    expanded: Seq<CompactToolGroupId>,
    k: int,
)
    requires
        0 <= k < cells.len(),
        !compact_tool_groups::inside_run(cells[k]),
        tool_run_projection::seal_of(*cells[k]) is None,
    ensures
        compact_tool_groups::projection(cells, true, expanded).contains(
            ShownCell::Source(cells[k]),
        ),
{
    let at = lemma_visible_from(cells, expanded, 0, k);
}

/// Without a seal nothing is folded, however many calls have completed.
pub proof fn law_unsealed_runs_stay_open(
    cells: Seq<Arc<HistoryCell>>,
    expanded: Seq<CompactToolGroupId>,
)
    requires
        forall|j: int|
            0 <= j < cells.len() ==> tool_run_projection::seal_of(*(#[trigger] cells[j])) is None,
    ensures
        compact_tool_groups::projection(cells, true, expanded) == compact_tool_groups::as_sources(
            cells,
        ),
        compact_tool_groups::groups_of(cells).len() == 0,
{
    compact_tool_groups::lemma_folded_without_seals(cells, expanded, 0);
    compact_tool_groups::lemma_no_groups_past_last_seal(cells, 0);
    assert(cells.skip(0) =~= cells);
}

/// A group folds at least two actions, and its seal comes right behind its sources.
pub proof fn law_groups_fold_two_actions(cells: Seq<Arc<HistoryCell>>, k: int)
    requires
        0 <= k < compact_tool_groups::groups_of(cells).len(),
    ensures
        compact_tool_groups::groups_of(cells)[k].actions >= 2,
        ({
            let g = compact_tool_groups::groups_of(cells)[k];
            &&& 0 <= g.start
            &&& g.start + g.sources < cells.len()
            &&& tool_run_projection::seal_of(*cells[g.start + g.sources]) matches Some(seal)
                && g.id == CompactToolGroupId(seal.run_id.0)
        }),
{
    compact_tool_groups::lemma_groups_in_bounds(cells, 0);
    let g = compact_tool_groups::groups_of(cells)[k];
    assert(compact_tool_groups::group_at(cells, g.start) == Some(g));
    reveal(compact_tool_groups::group_at);
    compact_tool_groups::lemma_run_end_bounds(cells, g.start);
}

/// An exec cell with a failed command is never folded.
pub proof fn law_failed_command_is_never_folded(exec: ExecCell, i: int)
    requires
        0 <= i < exec.calls@.len(),
        exec.calls@[i].output matches Some(output) && output.exit_code != 0,
    ensures
        tool_classification::exec_item(exec) is None,
{
    assert(exec.calls@.take(i + 1).last() == exec.calls@[i]);
    tool_classification::lemma_with_calls_prefix(exec.calls@, i + 1);
}

/// An exec cell with an unfinished command, or one that the user typed, is never folded.
pub proof fn law_live_or_user_command_is_never_folded(exec: ExecCell, i: int)
    requires
        0 <= i < exec.calls@.len(),
        exec.calls@[i].output is None || exec.calls@[i].user_shell_command,
    ensures
        tool_classification::exec_item(exec) is None,
{
    if !exec.calls@[i].user_shell_command {
        assert(exec.calls@.take(i + 1).last() == exec.calls@[i]);
        tool_classification::lemma_with_calls_prefix(exec.calls@, i + 1);
    }
}

/// Whether a summary has something to say.
pub open spec fn says_something(m: SummaryModel) -> bool {
    m.reads.len() > 0 || m.lists > 0 || m.searches > 0 || m.edited_files > 0 || m.runs > 0
        || m.tests > 0 || m.builds > 0 || m.checks > 0 || m.installs > 0 || m.web_searches > 0
        || m.web_opens > 0 || m.web_finds > 0 || m.mcp.len() > 0 || m.dynamic.len() > 0
}

/// A summary whose counters are in range, and which says something where it counts an action.
pub open spec fn accountable(m: SummaryModel) -> bool {
    &&& 0 <= m.lists <= usize::MAX
    &&& 0 <= m.searches <= usize::MAX
    &&& 0 <= m.edited_files <= usize::MAX
    &&& 0 <= m.runs <= usize::MAX
    &&& 0 <= m.tests <= usize::MAX
    &&& 0 <= m.builds <= usize::MAX
    &&& 0 <= m.checks <= usize::MAX
    &&& 0 <= m.installs <= usize::MAX
    &&& 0 <= m.web_searches <= usize::MAX
    &&& 0 <= m.web_opens <= usize::MAX
    &&& 0 <= m.web_finds <= usize::MAX
    &&& 0 <= m.actions <= usize::MAX
    &&& m.actions > 0 ==> says_something(m)
}

proof fn lemma_labels_grow(labels: Seq<Seq<char>>, more: Seq<Seq<char>>)
    ensures
        compact_tool_group_item::with_labels(labels, more).len() >= labels.len(),
        more.len() > 0 ==> compact_tool_group_item::with_labels(labels, more).len() > 0,
    decreases more.len(),
{
    if more.len() > 0 {
        lemma_labels_grow(labels, more.drop_last());
        let before = compact_tool_group_item::with_labels(labels, more.drop_last());
        if before.contains(more.last()) {
            let i = choose|i: int| 0 <= i < before.len() && before[i] == more.last();
            assert(before.len() > 0);
        }
    }
}

proof fn lemma_counts_grow(counts: Seq<(Seq<char>, int)>, more: Seq<(Seq<char>, int)>)
    ensures
        compact_tool_group_item::with_counts(counts, more).len() >= counts.len(),
        more.len() > 0 ==> compact_tool_group_item::with_counts(counts, more).len() > 0,
    decreases more.len(),
{
    if more.len() > 0 {
        lemma_counts_grow(counts, more.drop_last());
    }
}

proof fn lemma_merged_accountable(a: SummaryModel, b: SummaryModel)
    requires
        accountable(a),
        accountable(b),
    ensures
        accountable(compact_tool_group_item::merged(a, b)),
{
    lemma_labels_grow(a.reads, b.reads);
    lemma_counts_grow(a.mcp, b.mcp);
    lemma_counts_grow(a.dynamic, b.dynamic);
}

proof fn lemma_parsed_accountable(m: SummaryModel, parsed: ParsedCommand)
    requires
        accountable(m),
    ensures
        accountable(tool_classification::with_parsed(m, parsed)),
{
    if let ParsedCommand::Read { cmd, name, path } = parsed {
        let label = tool_classification::label_of_read(name@, path@);
        if m.reads.contains(label) {
            let i = choose|i: int| 0 <= i < m.reads.len() && m.reads[i] == label;
            assert(m.reads.len() > 0);
        }
    }
}

proof fn lemma_all_parsed_accountable(m: SummaryModel, parsed: Seq<ParsedCommand>)
    requires
        accountable(m),
    ensures
        accountable(tool_classification::with_all_parsed(m, parsed)),
    decreases parsed.len(),
{
    if parsed.len() > 0 {
        lemma_all_parsed_accountable(m, parsed.drop_last());
        lemma_parsed_accountable(
            tool_classification::with_all_parsed(m, parsed.drop_last()),
            parsed.last(),
        );
    }
}

proof fn lemma_calls_accountable(calls: Seq<crate::history_cell::ExecCall>)
    ensures
        tool_classification::with_calls(calls) matches Some(m) ==> accountable(m),
    decreases calls.len(),
{
    if calls.len() > 0 {
        lemma_calls_accountable(calls.drop_last());
        if let Some(m) = tool_classification::with_calls(calls.drop_last()) {
            lemma_all_parsed_accountable(m, calls.last().parsed@);
        }
    }
}

proof fn lemma_item_accountable(cell: Arc<HistoryCell>)
    ensures
        tool_classification::cell_item(*cell) matches Some(m) ==> accountable(m),
{
    if let crate::history_cell::CellKind::Exec(exec) = cell.kind {
        lemma_calls_accountable(exec.calls@);
    }
}

/// What a foldable cell contributes.
spec fn contribution(cell: Arc<HistoryCell>) -> SummaryModel {
    tool_classification::cell_item(*cell)->0
}

proof fn lemma_summary_accountable(cells: Seq<Arc<HistoryCell>>)
    ensures
        accountable(compact_tool_groups::summary_of(cells)),
    decreases cells.len(),
{
    if cells.len() > 0 {
        lemma_summary_accountable(cells.drop_last());
        lemma_item_accountable(cells.last());
        if compact_tool_groups::foldable(cells.last()) {
            lemma_merged_accountable(
                compact_tool_groups::summary_of(cells.drop_last()),
                contribution(cells.last()),
            );
        }
    }
}

proof fn lemma_joined_len(parts: Seq<Seq<char>>, sep: Seq<char>, k: int)
    requires
        0 <= k < parts.len(),
    ensures
        text::joined(parts, sep).len() >= parts[k].len(),
    decreases parts.len(),
{
    if parts.len() > 1 && k < parts.len() - 1 {
        lemma_joined_len(parts.drop_last(), sep, k);
    }
}

proof fn lemma_decimal_nonempty(n: nat)
    ensures
        text::decimal(n).len() > 0,
{
}

proof fn lemma_count_part_nonempty(count: int, singular: Seq<char>, plural: Seq<char>)
    requires
        singular.len() > 0,
    ensures
        count != 0 ==> compact_tool_group_item::count_part(count, singular, plural).len() == 1
            && compact_tool_group_item::count_part(count, singular, plural)[0].len() > 0,
        count == 0 ==> compact_tool_group_item::count_part(count, singular, plural).len() == 0,
{
    lemma_decimal_nonempty(count as nat);
}

/// Whether the first of the parts, if there is one, has a text.
spec fn head_ok(parts: Seq<Seq<char>>) -> bool {
    parts.len() > 0 ==> parts[0].len() > 0
}

proof fn lemma_append_head(p: Seq<Seq<char>>, q: Seq<Seq<char>>)
    requires
        head_ok(p),
        head_ok(q),
    ensures
        head_ok(p + q),
        (p + q).len() > 0 <==> p.len() > 0 || q.len() > 0,
{
}

/// A summary that says something has a text.
#[verifier::rlimit(40)]
proof fn lemma_detail_nonempty(m: SummaryModel)
    requires
        accountable(m),
        says_something(m),
    ensures
        compact_tool_groups::detail_text(m).len() > 0,
{
    let p0 = if m.reads.len() > 0 {
        seq![compact_tool_group_item::read_text(m.reads)]
    } else {
        Seq::empty()
    };
    assert(head_ok(p0)) by {
        reveal_strlit("read ");
    }
    let c1 = compact_tool_group_item::count_part(m.lists, "listed dir"@, "listed dirs"@);
    assert(head_ok(c1) && (c1.len() > 0 <==> m.lists != 0)) by {
        reveal_strlit("listed dir");
        lemma_count_part_nonempty(m.lists, "listed dir"@, "listed dirs"@);
    }
    let p1 = p0 + c1;
    lemma_append_head(p0, c1);
    let c2 = compact_tool_group_item::count_part(m.searches, "searched"@, "searched"@);
    assert(head_ok(c2) && (c2.len() > 0 <==> m.searches != 0)) by {
        reveal_strlit("searched");
        lemma_count_part_nonempty(m.searches, "searched"@, "searched"@);
    }
    let p2 = p1 + c2;
    lemma_append_head(p1, c2);
    let c3 = compact_tool_group_item::count_part(m.edited_files, "edited 1 file"@, "files edited"@);
    assert(head_ok(c3) && (c3.len() > 0 <==> m.edited_files != 0)) by {
        reveal_strlit("edited 1 file");
        lemma_count_part_nonempty(m.edited_files, "edited 1 file"@, "files edited"@);
    }
    let p3 = p2 + c3;
    lemma_append_head(p2, c3);
    let c4 = compact_tool_group_item::count_part(m.tests, "tests passed"@, "test runs passed"@);
    assert(head_ok(c4) && (c4.len() > 0 <==> m.tests != 0)) by {
        reveal_strlit("tests passed");
        lemma_count_part_nonempty(m.tests, "tests passed"@, "test runs passed"@);
    }
    let p4 = p3 + c4;
    lemma_append_head(p3, c4);
    let c5 = compact_tool_group_item::count_part(m.builds, "build passed"@, "builds passed"@);
    assert(head_ok(c5) && (c5.len() > 0 <==> m.builds != 0)) by {
        reveal_strlit("build passed");
        lemma_count_part_nonempty(m.builds, "build passed"@, "builds passed"@);
    }
    let p5 = p4 + c5;
    lemma_append_head(p4, c5);
    let c6 = compact_tool_group_item::count_part(m.checks, "check passed"@, "checks passed"@);
    assert(head_ok(c6) && (c6.len() > 0 <==> m.checks != 0)) by {
        reveal_strlit("check passed");
        lemma_count_part_nonempty(m.checks, "check passed"@, "checks passed"@);
    }
    let p6 = p5 + c6;
    lemma_append_head(p5, c6);
    let c7 = compact_tool_group_item::count_part(m.installs, "installed deps"@, "installed deps"@);
    assert(head_ok(c7) && (c7.len() > 0 <==> m.installs != 0)) by {
        reveal_strlit("installed deps");
        lemma_count_part_nonempty(m.installs, "installed deps"@, "installed deps"@);
    }
    let p7 = p6 + c7;
    lemma_append_head(p6, c7);
    let c8 = compact_tool_group_item::count_part(m.runs, "ran command"@, "ran commands"@);
    assert(head_ok(c8) && (c8.len() > 0 <==> m.runs != 0)) by {
        reveal_strlit("ran command");
        lemma_count_part_nonempty(m.runs, "ran command"@, "ran commands"@);
    }
    let p8 = p7 + c8;
    lemma_append_head(p7, c8);
    let c9 = compact_tool_group_item::count_part(m.web_searches, "searched web"@, "web searches"@);
    assert(head_ok(c9) && (c9.len() > 0 <==> m.web_searches != 0)) by {
        reveal_strlit("searched web");
        lemma_count_part_nonempty(m.web_searches, "searched web"@, "web searches"@);
    }
    let p9 = p8 + c9;
    lemma_append_head(p8, c9);
    let c10 = compact_tool_group_item::count_part(m.web_opens, "opened web page"@, "web pages opened"@);
    assert(head_ok(c10) && (c10.len() > 0 <==> m.web_opens != 0)) by {
        reveal_strlit("opened web page");
        lemma_count_part_nonempty(m.web_opens, "opened web page"@, "web pages opened"@);
    }
    let p10 = p9 + c10;
    lemma_append_head(p9, c10);
    let c11 = compact_tool_group_item::count_part(m.web_finds, "found on page"@, "in-page finds"@);
    assert(head_ok(c11) && (c11.len() > 0 <==> m.web_finds != 0)) by {
        reveal_strlit("found on page");
        lemma_count_part_nonempty(m.web_finds, "found on page"@, "in-page finds"@);
    }
    let p11 = p10 + c11;
    lemma_append_head(p10, c11);
    let mcp = if m.mcp.len() > 0 {
        seq![compact_tool_group_item::calls_text(m.mcp, "MCP tools"@)]
    } else {
        Seq::empty()
    };
    assert(head_ok(mcp)) by {
        reveal_strlit("called ");
    }
    let p12 = p11 + mcp;
    lemma_append_head(p11, mcp);
    let dynamic = if m.dynamic.len() > 0 {
        seq![compact_tool_group_item::calls_text(m.dynamic, "tools"@)]
    } else {
        Seq::empty()
    };
    assert(head_ok(dynamic)) by {
        reveal_strlit("called ");
    }
    lemma_append_head(p12, dynamic);
    let parts = compact_tool_group_item::summary_parts(m);
    assert(parts == p12 + dynamic);
    lemma_joined_len(parts, " · "@, 0);
}

pub open spec fn classes_of(cells: Seq<Arc<HistoryCell>>) -> Seq<SourceClass> {
    Seq::new(cells.len(), |i: int| tool_run_projection::class_of(*cells[i]))
}

proof fn lemma_actions_agree(cells: Seq<Arc<HistoryCell>>)
    ensures
        tool_run_projection::actions_in(classes_of(cells)) == compact_tool_groups::summary_of(
            cells,
        ).actions,
    decreases cells.len(),
{
    if cells.len() > 0 {
        lemma_actions_agree(cells.drop_last());
        lemma_summary_accountable(cells.drop_last());
        lemma_item_accountable(cells.last());
        assert(classes_of(cells).drop_last() =~= classes_of(cells.drop_last()));
    }
}

/// A run that the lifecycle has sealed is folded: if the appended cells start with a foldable
/// one, hold nothing but foldable and transparent ones, and count at least two actions, then the
/// cells and the seal that the lifecycle gives for them make one group under the run's
/// identifier.
pub proof fn law_sealed_run_folds(state: ToolRunLifecycle, cells: Seq<Arc<HistoryCell>>, seal: Arc<
    HistoryCell,
>)
    requires
        state.open is None,
        cells.len() > 0,
        compact_tool_groups::foldable(cells[0]),
        forall|i: int|
            0 <= i < cells.len() ==> compact_tool_groups::inside_run(#[trigger] cells[i]),
        state.next_source_id + cells.len() <= u64::MAX,
        cells.len() <= usize::MAX,
        state.next_run_id < u64::MAX,
        tool_run_projection::actions_in(classes_of(cells)) >= 2,
        tool_run_projection::seal_of(*seal) == tool_run_projection::appended_all(
            state,
            classes_of(cells),
        ).pending_seal(),
    ensures
        compact_tool_groups::group_at(cells.push(seal), 0) matches Some(g) && {
            &&& g.id == CompactToolGroupId(state.next_run_id)
            &&& g.sources == cells.len()
            &&& g.actions == tool_run_projection::actions_in(classes_of(cells))
        },
{
    let classes = classes_of(cells);
    assert(classes[0] is Action);
    assert forall|i: int| 0 <= i < classes.len() implies !((#[trigger] classes[i]) is Barrier) by {
        assert(compact_tool_groups::inside_run(cells[i]));
    }
    tool_run_projection::law_open_run_covers_its_sources(state, classes);
    let all = cells.push(seal);
    assert forall|j: int| 0 <= j < cells.len() implies compact_tool_groups::inside_run(
        #[trigger] all[j],
    ) by {
        assert(all[j] == cells[j]);
    }
    assert(tool_run_projection::seal_of(*seal) is Some);
    assert(!compact_tool_groups::inside_run(all[cells.len() as int]));
    compact_tool_groups::lemma_run_end_of_stretch(all, 0, cells.len() as int);
    assert(all.subrange(0, cells.len() as int) =~= cells);
    lemma_actions_agree(cells);
    lemma_summary_accountable(cells);
    lemma_detail_nonempty(compact_tool_groups::summary_of(cells));
    reveal(compact_tool_groups::group_at);
    assert(all[0] == cells[0]);
}

/// The summary of any stretch of a conversation lists no file and no tool twice.
pub proof fn law_labels_are_listed_once(cells: Seq<Arc<HistoryCell>>)
    ensures
        compact_tool_groups::summary_of(cells).wf(),
    decreases cells.len(),
{
    if cells.len() > 0 {
        law_labels_are_listed_once(cells.drop_last());
        assert forall|item: SummaryModel| #[trigger]
            compact_tool_group_item::merged(
                compact_tool_groups::summary_of(cells.drop_last()),
                item,
            ).wf() by {
            compact_tool_group_item::lemma_merged_wf(
                compact_tool_groups::summary_of(cells.drop_last()),
                item,
            );
        }
    }
}

} // verus!
