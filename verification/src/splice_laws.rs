//! What a splice and its inverse leave of a screen.

use std::sync::Arc;

use vstd::prelude::*;

use crate::compact_tool_groups;
use crate::compact_tool_groups::CompactToolGroupId;
use crate::compact_tool_groups::GroupModel;
use crate::compact_tool_groups::GroupSearch;
use crate::compact_tool_groups::ShownCell;
use crate::history_cell::HistoryCell;
use crate::ledger;
use crate::ledger::Tally;
use crate::quiet_metrics::QuietMetric;
use crate::screen_laws;
use crate::screen_model;
use crate::screen_model::ScreenModel;
use crate::tool_run_projection;
use crate::unfold_laws;
use crate::viewport_model;
use crate::viewport_model::ViewportModel;

verus! {

/// What is counted where cells are classified and runs are compared with their seals.
pub open spec fn is_scan(tally: Tally) -> bool {
    tally is Look || tally == Tally::Metric(QuietMetric::SealClassificationDivergence)
}

pub open spec fn only_scans(metrics: Seq<Tally>) -> bool {
    forall|k: int| 0 <= k < metrics.len() ==> is_scan(#[trigger] metrics[k])
}

proof fn lemma_only_scans_concat(a: Seq<Tally>, b: Seq<Tally>)
    requires
        only_scans(a),
        only_scans(b),
    ensures
        only_scans(a + b),
{
    assert forall|k: int| 0 <= k < (a + b).len() implies is_scan(#[trigger] (a + b)[k]) by {
        if k < a.len() {
            assert(is_scan(a[k]));
        } else {
            assert(is_scan(b[k - a.len()]));
        }
    }
}

proof fn lemma_stretch_scans(cells: Seq<Arc<HistoryCell>>, start: int, end: int)
    ensures
        only_scans(compact_tool_groups::stretch_scans(cells, start, end)),
    decreases end - start,
{
    if start < end {
        lemma_stretch_scans(cells, start, end - 1);
        lemma_only_scans_concat(
            compact_tool_groups::stretch_scans(cells, start, end - 1),
            compact_tool_groups::cell_scans(cells[end - 1]),
        );
    }
}

/// A search for groups classifies cells and counts nothing else.
proof fn lemma_search_scans(cells: Seq<Arc<HistoryCell>>, i: int, search: GroupSearch)
    requires
        0 <= i,
    ensures
        only_scans(compact_tool_groups::search_scans(cells, i, search)),
    decreases cells.len() - i,
{
    if i < cells.len() && compact_tool_groups::sealed_from(cells, i) {
        let end = compact_tool_groups::scan_end(cells, i);
        let upto = if end < cells.len() {
            end + 1
        } else {
            cells.len() as int
        };
        lemma_stretch_scans(cells, i, upto);
        let noted = if compact_tool_groups::seal_disagrees(cells, i) {
            seq![Tally::Metric(QuietMetric::SealClassificationDivergence)]
        } else {
            Seq::empty()
        };
        let here = compact_tool_groups::analysis_scans(cells, i);
        lemma_only_scans_concat(compact_tool_groups::stretch_scans(cells, i, upto), noted);
        compact_tool_groups::lemma_group_bounds(cells, i);
        match compact_tool_groups::group_at(cells, i) {
            Some(g) => {
                lemma_search_scans(cells, i + g.sources + 1, search);
                lemma_only_scans_concat(
                    here,
                    compact_tool_groups::search_scans(cells, i + g.sources + 1, search),
                );
            },
            None => {
                lemma_search_scans(cells, i + 1, search);
                lemma_only_scans_concat(
                    here,
                    compact_tool_groups::search_scans(cells, i + 1, search),
                );
            },
        }
    }
}

proof fn lemma_other_metric(metrics: Seq<Tally>, m: QuietMetric)
    requires
        only_scans(metrics),
        m != QuietMetric::SealClassificationDivergence,
    ensures
        ledger::occurrences(metrics, m) == 0,
    decreases metrics.len(),
{
    if metrics.len() > 0 {
        assert(is_scan(metrics[metrics.len() - 1]));
        let front = metrics.drop_last();
        assert forall|k: int| 0 <= k < front.len() implies is_scan(#[trigger] front[k]) by {
            assert(front[k] == metrics[k]);
        }
        lemma_other_metric(front, m);
    }
}

/// Whether a change counts one replacement of a range and no projection from the start.
pub open spec fn replaces_one_range(bumps: Seq<Tally>) -> bool {
    &&& ledger::occurrences(bumps, QuietMetric::RangeReplacement) == 1
    &&& ledger::occurrences(bumps, QuietMetric::RangeReplacementStructural) == 1
    &&& ledger::occurrences(bumps, QuietMetric::FullProjection) == 0
}

proof fn lemma_splice_counts(
    m: ScreenModel,
    index: int,
    count: int,
    replacements: Seq<Arc<HistoryCell>>,
)
    requires
        0 <= index,
        0 <= count,
        m.sources_spliced(index, count, replacements, m.compact).done,
    ensures
        replaces_one_range(m.sources_spliced(index, count, replacements, m.compact).bumps),
{
    reveal(ScreenModel::sources_spliced);
    let first = m.boundary_scans(index);
    let second = m.boundary_scans(index + count);
    let folded = compact_tool_groups::projection_scans(replacements, m.compact);
    let sources = m.sources.take(index) + replacements + m.sources.skip(index + count);
    let kept = compact_tool_groups::all_scans(sources);
    lemma_search_scans(m.sources, 0, GroupSearch::Source(index as usize));
    lemma_search_scans(m.sources, 0, GroupSearch::Source((index + count) as usize));
    lemma_search_scans(replacements, 0, GroupSearch::All);
    lemma_search_scans(sources, 0, GroupSearch::All);
    lemma_only_scans_concat(first, second);
    lemma_only_scans_concat(first + second, folded);
    lemma_only_scans_concat(first + second + folded, kept);
    let scans = first + second + folded + kept;
    let rest = seq![
        Tally::Metric(QuietMetric::RangeReplacementStructural),
        Tally::Metric(QuietMetric::RangeReplacement),
    ];
    let metrics = [
        QuietMetric::RangeReplacement,
        QuietMetric::RangeReplacementStructural,
        QuietMetric::FullProjection,
    ];
    assert forall|k: int| 0 <= k < 3 implies ledger::occurrences(
        scans + rest,
        #[trigger] metrics[k],
    ) == ledger::occurrences(rest, metrics[k]) by {
        ledger::lemma_occurrences_concat(scans, rest, metrics[k]);
        lemma_other_metric(scans, metrics[k]);
    }
    assert(metrics[0] == QuietMetric::RangeReplacement);
    assert(metrics[1] == QuietMetric::RangeReplacementStructural);
    assert(metrics[2] == QuietMetric::FullProjection);
    assert(rest.drop_last() =~= seq![Tally::Metric(QuietMetric::RangeReplacementStructural)]);
    assert(rest.drop_last().drop_last() =~= Seq::empty());
    reveal_with_fuel(ledger::occurrences, 3);
}

proof fn lemma_run_end_shift(cell: Arc<HistoryCell>, cells: Seq<Arc<HistoryCell>>, i: int)
    requires
        0 <= i <= cells.len(),
    ensures
        compact_tool_groups::run_end(seq![cell] + cells, i + 1) == compact_tool_groups::run_end(
            cells,
            i,
        ) + 1,
    decreases cells.len() - i,
{
    let more = seq![cell] + cells;
    if i < cells.len() {
        assert(more[i + 1] == cells[i]);
        lemma_run_end_shift(cell, cells, i + 1);
    }
}

/// A cell put before the others moves the groups along.
proof fn lemma_group_shift(cell: Arc<HistoryCell>, cells: Seq<Arc<HistoryCell>>, i: int)
    requires
        0 <= i < cells.len(),
    ensures
        match (
            compact_tool_groups::group_at(cells, i),
            compact_tool_groups::group_at(seq![cell] + cells, i + 1),
        ) {
            (Some(g), Some(h)) => h == (GroupModel { start: g.start + 1, ..g }),
            (None, None) => true,
            _ => false,
        },
{
    reveal(compact_tool_groups::group_at);
    let more = seq![cell] + cells;
    let end = compact_tool_groups::run_end(cells, i);
    lemma_run_end_shift(cell, cells, i);
    compact_tool_groups::lemma_run_end_bounds(cells, i);
    assert(more[i + 1] == cells[i]);
    assert(more.subrange(i + 1, end + 1) =~= cells.subrange(i, end));
    if end < cells.len() {
        assert(more[end + 1] == cells[end]);
    }
}

/// No group that starts behind a cell holds it.
proof fn lemma_no_group_from(cells: Seq<Arc<HistoryCell>>, from: int, index: int)
    requires
        0 <= index < from,
    ensures
        compact_tool_groups::group_of_source(
            compact_tool_groups::groups_from(cells, from),
            index,
        ) is None,
{
    let groups = compact_tool_groups::groups_from(cells, from);
    compact_tool_groups::lemma_groups_in_bounds(cells, from);
    screen_model::lemma_group_at_source(groups, index);
}

/// The row of a record is the first that shows it.
proof fn lemma_record_row(cells: Seq<ShownCell>, id: u64)
    ensures
        match viewport_model::record_position(cells, id) {
            Some(row) => {
                &&& 0 <= row < cells.len()
                &&& cells[row] matches ShownCell::Source(source) && source.id == id
                &&& forall|k: int|
                    0 <= k < row ==> (#[trigger] cells[k] matches ShownCell::Source(source)
                        ==> source.id != id)
            },
            None => forall|k: int|
                0 <= k < cells.len() ==> (#[trigger] cells[k] matches ShownCell::Source(source)
                    ==> source.id != id),
        },
    decreases cells.len(),
{
    if cells.len() > 0 {
        let shorter = cells.drop_last();
        lemma_record_row(shorter, id);
        assert forall|k: int| 0 <= k < cells.len() - 1 implies #[trigger] cells[k]
            == shorter[k] by {}
    }
}

/// The row of a group is the first that is headed by it.
proof fn lemma_group_row(cells: Seq<ShownCell>, id: CompactToolGroupId)
    ensures
        match screen_model::group_position(cells, id) {
            Some(row) => {
                &&& 0 <= row < cells.len()
                &&& compact_tool_groups::header_hit(cells[row], 0) == Some(id)
                &&& forall|k: int|
                    0 <= k < row ==> compact_tool_groups::header_hit(#[trigger] cells[k], 0)
                        != Some(id)
            },
            None => forall|k: int|
                0 <= k < cells.len() ==> compact_tool_groups::header_hit(#[trigger] cells[k], 0)
                    != Some(id),
        },
    decreases cells.len(),
{
    if cells.len() > 0 {
        let shorter = cells.drop_last();
        lemma_group_row(shorter, id);
        assert forall|k: int| 0 <= k < cells.len() - 1 implies #[trigger] cells[k]
            == shorter[k] by {}
    }
}

/// A row that is put right before that of another record moves it along by one.
proof fn lemma_record_moved(cells: Seq<ShownCell>, row: int, cell: Arc<HistoryCell>, id: u64)
    requires
        viewport_model::record_position(cells, id) == Some(row),
        cell.id != id,
    ensures
        viewport_model::record_position(
            cells.take(row) + seq![ShownCell::Source(cell)] + cells.skip(row),
            id,
        ) == Some(row + 1),
{
    lemma_record_row(cells, id);
    let front = cells.take(row) + seq![ShownCell::Source(cell)];
    assert forall|k: int| 0 <= k < front.len() implies (#[trigger] front[k]
        matches ShownCell::Source(source) ==> source.id != id) by {
        if k < row {
            assert(front[k] == cells[k]);
        }
    }
    assert(cells.skip(row)[0] == cells[row]);
    screen_laws::lemma_record_after(front, cells.skip(row), id);
}

/// A row that is put before another one leaves the row of a group where it was, or moves it along
/// by one where it was put right before it.
proof fn lemma_group_moved(
    cells: Seq<ShownCell>,
    row: int,
    cell: Arc<HistoryCell>,
    id: CompactToolGroupId,
)
    requires
        0 <= row <= cells.len(),
        screen_model::group_position(cells, id) is None || screen_model::group_position(cells, id)
            == Some(row),
    ensures
        screen_model::group_position(
            cells.take(row) + seq![ShownCell::Source(cell)] + cells.skip(row),
            id,
        ) == (match screen_model::group_position(cells, id) {
            Some(_) => Some(row + 1),
            None => None,
        }),
{
    lemma_group_row(cells, id);
    let front = cells.take(row) + seq![ShownCell::Source(cell)];
    let rows = front + cells.skip(row);
    assert forall|k: int| 0 <= k < front.len() implies compact_tool_groups::header_hit(
        #[trigger] front[k],
        0,
    ) != Some(id) by {
        if k < row {
            assert(front[k] == cells[k]);
        }
    }
    if screen_model::group_position(cells, id) is Some {
        assert(cells.skip(row)[0] == cells[row]);
        unfold_laws::lemma_group_row_after(front, cells.skip(row), id);
    } else {
        assert forall|k: int| 0 <= k < rows.len() implies compact_tool_groups::header_hit(
            #[trigger] rows[k],
            0,
        ) != Some(id) by {
            if k < front.len() {
                assert(rows[k] == front[k]);
            } else {
                assert(rows[k] == cells[k - 1]);
            }
        }
        screen_laws::lemma_no_group_row(rows, id);
    }
}

/// One cell that no run takes in is shown in one row.
proof fn lemma_one_row(cell: Arc<HistoryCell>, compact: bool, expanded: Seq<CompactToolGroupId>)
    requires
        !compact_tool_groups::inside_run(cell),
        tool_run_projection::seal_of(*cell) is None,
    ensures
        compact_tool_groups::projection(seq![cell], compact, expanded) == seq![
            ShownCell::Source(cell),
        ],
        compact_tool_groups::projection(Seq::empty(), compact, expanded)
            == Seq::<ShownCell>::empty(),
{
    let one = seq![cell];
    reveal(compact_tool_groups::group_at);
    if compact {
        assert(compact_tool_groups::group_at(one, 0) is None);
        assert(compact_tool_groups::folded_from(one, expanded, 1) =~= Seq::empty());
        assert(compact_tool_groups::folded_from(one, expanded, 0) =~= seq![
            ShownCell::Source(cell),
        ]);
        assert(compact_tool_groups::folded_from(Seq::empty(), expanded, 0) =~= Seq::empty());
    } else {
        reveal_with_fuel(compact_tool_groups::unsealed, 2);
        assert(one.drop_last() =~= Seq::empty());
        assert(compact_tool_groups::as_sources(compact_tool_groups::unsealed(one)) =~= seq![
            ShownCell::Source(cell),
        ]);
        assert(compact_tool_groups::as_sources(
            compact_tool_groups::unsealed(Seq::<Arc<HistoryCell>>::empty()),
        ) =~= Seq::empty());
    }
}

/// A splice between two boundaries replaces the rows between them, and nothing else.
proof fn lemma_spliced_rows(
    m: ScreenModel,
    index: int,
    count: int,
    replacements: Seq<Arc<HistoryCell>>,
    start: int,
    end: int,
)
    requires
        !m.view.selecting(),
        m.view.deferred is None && m.view.deferred_mode is None,
        0 <= index,
        0 <= count,
        index + count <= m.sources.len() <= usize::MAX,
        m.boundary(index) == Some(start),
        m.boundary(index + count) == Some(end),
        0 <= start <= end <= m.view.cells.len(),
    ensures
        ({
            let step = m.sources_spliced(index, count, replacements, m.compact);
            &&& step.done
            &&& step.screen.compact == m.compact
            &&& !step.screen.view.selecting()
            &&& step.screen.view.deferred is None && step.screen.view.deferred_mode is None
            &&& step.screen.sources == m.sources.take(index) + replacements + m.sources.skip(
                index + count,
            )
            &&& step.screen.view.cells == m.view.cells.take(start)
                + compact_tool_groups::projection(replacements, m.compact, m.expanded)
                + m.view.cells.skip(end)
        }),
{
    reveal(ScreenModel::sources_spliced);
    reveal(ViewportModel::with_range);
}

/// Where the conversation starts on the screen.
proof fn lemma_start_row(m: ScreenModel)
    requires
        m.boundary(0) is Some,
    ensures
        ({
            let row = m.boundary(0)->0;
            &&& 0 <= row <= m.view.cells.len()
            &&& m.sources.len() == 0 ==> row == m.view.cells.len()
            &&& m.sources.len() > 0 ==> tool_run_projection::seal_of(*m.sources[0]) is None
            &&& m.sources.len() > 0 ==> match compact_tool_groups::group_at(m.sources, 0) {
                Some(g) => screen_model::group_position(m.view.cells, g.id) == Some(row) || (
                screen_model::group_position(m.view.cells, g.id) is None
                    && viewport_model::record_position(m.view.cells, m.sources[0].id) == Some(row)),
                None => viewport_model::record_position(m.view.cells, m.sources[0].id) == Some(
                    row,
                ),
            }
        }),
{
    let sources = m.sources;
    let cells = m.view.cells;
    if sources.len() > 0 {
        lemma_record_row(cells, sources[0].id);
        compact_tool_groups::lemma_group_bounds(sources, 0);
        match compact_tool_groups::group_at(sources, 0) {
            Some(g) => {
                assert(compact_tool_groups::groups_of(sources)[0] == g);
                lemma_group_row(cells, g.id);
            },
            None => {
                lemma_no_group_from(sources, 1, 0);
            },
        }
    }
}

/// A cell that no run takes in is found in the row that was put before the first one.
proof fn lemma_first_boundary(m: ScreenModel, n: ScreenModel, cell: Arc<HistoryCell>, row: int)
    requires
        0 <= row <= m.view.cells.len(),
        viewport_model::record_position(m.view.cells, cell.id) is None,
        !compact_tool_groups::inside_run(cell),
        tool_run_projection::seal_of(*cell) is None,
        n.sources == seq![cell] + m.sources,
        n.view.cells == m.view.cells.take(row) + seq![ShownCell::Source(cell)]
            + m.view.cells.skip(row),
    ensures
        n.boundary(0) == Some(row),
{
    let cells = m.view.cells;
    reveal(compact_tool_groups::group_at);
    assert(n.sources[0] == cell);
    assert(compact_tool_groups::group_at(n.sources, 0) is None);
    lemma_no_group_from(n.sources, 1, 0);
    lemma_record_row(cells, cell.id);
    let behind = seq![ShownCell::Source(cell)] + cells.skip(row);
    assert forall|k: int| 0 <= k < cells.take(row).len() implies (#[trigger] cells.take(row)[k]
        matches ShownCell::Source(source) ==> source.id != cell.id) by {
        assert(cells.take(row)[k] == cells[k]);
    }
    screen_laws::lemma_record_after(cells.take(row), behind, cell.id);
    assert(cells.take(row) + behind =~= n.view.cells);
}

/// What the conversation started with is found in the row behind it.
proof fn lemma_second_boundary(m: ScreenModel, n: ScreenModel, cell: Arc<HistoryCell>)
    requires
        m.boundary(0) is Some,
        m.sources.len() > 0 ==> m.sources[0].id != cell.id,
        !compact_tool_groups::inside_run(cell),
        n.sources == seq![cell] + m.sources,
        n.view.cells == m.view.cells.take(m.boundary(0)->0) + seq![ShownCell::Source(cell)]
            + m.view.cells.skip(m.boundary(0)->0),
    ensures
        n.boundary(1) == Some(m.boundary(0)->0 + 1),
{
    let cells = m.view.cells;
    let sources = m.sources;
    let more = n.sources;
    let row = m.boundary(0)->0;
    lemma_start_row(m);
    if sources.len() > 0 {
        assert(more[1] == sources[0]);
        lemma_group_shift(cell, sources, 0);
        compact_tool_groups::lemma_group_bounds(more, 1);
        assert(compact_tool_groups::group_at(more, 0) is None) by {
            reveal(compact_tool_groups::group_at);
            assert(more[0] == cell);
        }
        assert(compact_tool_groups::groups_of(more) == compact_tool_groups::groups_from(more, 1));
        match compact_tool_groups::group_at(sources, 0) {
            Some(g) => {
                let h = compact_tool_groups::group_at(more, 1)->0;
                assert(compact_tool_groups::groups_of(more)[0] == h);
                lemma_group_moved(cells, row, cell, g.id);
                if screen_model::group_position(cells, g.id) is None {
                    lemma_record_moved(cells, row, cell, sources[0].id);
                }
            },
            None => {
                lemma_no_group_from(more, 2, 1);
                lemma_record_moved(cells, row, cell, sources[0].id);
            },
        }
    }
}

/// A cell that is put before a conversation and taken away again leaves the screen as it was: the
/// sources and every row of the screen are those from before, and each of the two changes
/// replaces one range of rows without a projection from the start. That is so on every screen
/// without a selection that shows where the conversation starts, also while groups wait to be
/// folded, for a new record that no run takes in.
pub proof fn law_prepending_and_taking_back_restores_the_screen(
    m: ScreenModel,
    cell: Arc<HistoryCell>,
)
    requires
        m.view.wf(),
        !m.view.selecting(),
        m.sources.len() < usize::MAX,
        m.boundary(0) is Some,
        // The cell is a new record that no run takes in.
        m.sources.len() > 0 ==> m.sources[0].id != cell.id,
        viewport_model::record_position(m.view.cells, cell.id) is None,
        !compact_tool_groups::inside_run(cell),
        tool_run_projection::seal_of(*cell) is None,
    ensures
        ({
            let row = m.boundary(0)->0;
            let there = m.sources_spliced(0, 0, seq![cell], m.compact);
            let back = there.screen.sources_spliced(0, 1, Seq::empty(), m.compact);
            &&& there.done && back.done
            &&& there.screen.sources == seq![cell] + m.sources
            &&& there.screen.view.cells == m.view.cells.take(row) + seq![ShownCell::Source(cell)]
                + m.view.cells.skip(row)
            &&& back.screen.sources == m.sources
            &&& back.screen.view.cells == m.view.cells
            &&& replaces_one_range(there.bumps)
            &&& replaces_one_range(back.bumps)
        }),
{
    let cells = m.view.cells;
    let row = m.boundary(0)->0;
    let one = seq![cell];
    let there = m.sources_spliced(0, 0, one, m.compact);
    let n = there.screen;
    // One row is put before the one that shows the start.
    lemma_start_row(m);
    lemma_one_row(cell, m.compact, m.expanded);
    lemma_spliced_rows(m, 0, 0, one, row, row);
    assert(n.sources =~= one + m.sources);
    // The cell is shown in that row, and what followed it in the next one.
    lemma_first_boundary(m, n, cell, row);
    lemma_second_boundary(m, n, cell);
    lemma_one_row(cell, m.compact, n.expanded);
    lemma_spliced_rows(n, 0, 1, Seq::empty(), row, row + 1);
    let back = n.sources_spliced(0, 1, Seq::empty(), m.compact);
    assert(back.screen.sources =~= m.sources);
    assert(back.screen.view.cells =~= cells);
    lemma_splice_counts(m, 0, 0, one);
    lemma_splice_counts(n, 0, 1, Seq::empty());
}

} // verus!
