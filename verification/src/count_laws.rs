//! Laws of what is counted: which cells a search looks at, and what each step of the screen and of
//! the application adds to the counters.

use std::sync::Arc;

use vstd::prelude::*;

use crate::app_model::AppModel;
use crate::compact_tool_groups;
use crate::compact_tool_groups::GroupModel;
use crate::compact_tool_groups::GroupSearch;
use crate::compact_tool_groups::ShownCell;
use crate::history_cell::CellKind;
use crate::history_cell::HistoryCell;
use crate::ledger::Tally;
use crate::pane::PaneModel;
use crate::quiet_bench;
use crate::quiet_metrics;
use crate::quiet_metrics::QuietMetric;
use crate::quiet_metrics::ToolRunSealReason;
use crate::screen_model;
use crate::screen_model::ScreenModel;
use crate::tool_classification;

verus! {

/// A stretch of cells is looked at cell by cell, in order.
pub proof fn law_stretch_is_looked_at_cell_by_cell(
    cells: Seq<Arc<HistoryCell>>,
    start: int,
    end: int,
)
    requires
        start <= end,
    ensures
        compact_tool_groups::stretch_scans(cells, start, start).len() == 0,
        compact_tool_groups::stretch_scans(cells, start, end + 1)
            == compact_tool_groups::stretch_scans(cells, start, end)
            + tool_classification::item_scans(*cells[end]),
{
}

/// A look for a group reaches over a run from its first call to the cell that ends it, that one
/// too; where there is no call it looks at the one cell.
pub proof fn law_look_for_a_group_reaches_over_its_run(
    cells: Seq<Arc<HistoryCell>>,
    start: int,
    end: int,
)
    requires
        0 <= start < cells.len(),
        start <= end <= cells.len(),
        forall|j: int|
            start <= j < end ==> tool_classification::cell_item(*(#[trigger] cells[j])) is Some
                || tool_classification::transparent(*cells[j]),
        end < cells.len() ==> !(tool_classification::cell_item(*cells[end]) is Some
            || tool_classification::transparent(*cells[end])),
    ensures
        ({
            let seen = compact_tool_groups::analysis_scans(cells, start);
            let last = if tool_classification::cell_item(*cells[start]) is Some {
                end
            } else {
                start
            };
            let looks = compact_tool_groups::stretch_scans(
                cells,
                start,
                if last < cells.len() {
                    last + 1
                } else {
                    last
                },
            );
            &&& compact_tool_groups::seal_disagrees(cells, start) ==> seen == looks.push(
                Tally::Metric(QuietMetric::SealClassificationDivergence),
            )
            &&& !compact_tool_groups::seal_disagrees(cells, start) ==> seen == looks
        }),
{
    if compact_tool_groups::foldable(cells[start]) {
        lemma_run_ends(cells, start, end);
    }
    let seen = compact_tool_groups::analysis_scans(cells, start);
    let last = compact_tool_groups::scan_end(cells, start);
    let looks = compact_tool_groups::stretch_scans(
        cells,
        start,
        if last < cells.len() {
            last + 1
        } else {
            cells.len() as int
        },
    );
    assert(looks + Seq::<Tally>::empty() =~= looks);
    assert(looks + seq![Tally::Metric(QuietMetric::SealClassificationDivergence)] =~= looks.push(
        Tally::Metric(QuietMetric::SealClassificationDivergence),
    ));
}

proof fn lemma_run_ends(cells: Seq<Arc<HistoryCell>>, start: int, end: int)
    requires
        0 <= start <= end <= cells.len(),
        forall|j: int|
            start <= j < end ==> tool_classification::cell_item(*(#[trigger] cells[j])) is Some
                || tool_classification::transparent(*cells[j]),
        end < cells.len() ==> !(tool_classification::cell_item(*cells[end]) is Some
            || tool_classification::transparent(*cells[end])),
    ensures
        compact_tool_groups::run_end(cells, start) == end,
    decreases end - start,
{
    if start < end {
        assert(compact_tool_groups::inside_run(cells[start]));
        lemma_run_ends(cells, start + 1, end);
    }
}

/// A seal is at odds with its run where it counts other calls or other cells than there are, and
/// yet speaks of a run from that very start, or of more cells than there are.
pub proof fn law_seal_is_at_odds_with_its_run(
    cells: Seq<Arc<HistoryCell>>,
    start: int,
    end: int,
)
    requires
        0 <= start < end < cells.len(),
        tool_classification::cell_item(*cells[start]) is Some,
        forall|j: int|
            start <= j < end ==> tool_classification::cell_item(*(#[trigger] cells[j])) is Some
                || tool_classification::transparent(*cells[j]),
        !(tool_classification::cell_item(*cells[end]) is Some || tool_classification::transparent(
            *cells[end],
        )),
    ensures
        !(cells[end].kind is Seal) ==> !compact_tool_groups::seal_disagrees(cells, start),
        cells[end].kind matches CellKind::Seal(seal) ==> {
            let did = compact_tool_groups::summary_of(cells.subrange(start, end));
            let agrees = seal.action_count == did.actions && seal.sources() == end - start;
            let its_own = end - seal.sources() == start || seal.sources() > end;
            compact_tool_groups::seal_disagrees(cells, start) <==> !agrees && its_own
        },
{
    lemma_run_ends(cells, start, end);
}

/// A search looks for a group at one cell after the other, goes on behind the groups that it finds,
/// and ends with the one that it looks for. Behind the last seal it looks at nothing.
pub proof fn law_search_goes_from_group_to_group(
    cells: Seq<Arc<HistoryCell>>,
    i: int,
    search: GroupSearch,
)
    requires
        0 <= i < cells.len(),
    ensures
        (forall|j: int| i <= j < cells.len() ==> !((#[trigger] cells[j]).kind is Seal))
            ==> compact_tool_groups::search_scans(cells, i, search).len() == 0,
        (exists|j: int| i <= j < cells.len() && (#[trigger] cells[j]).kind is Seal) ==> {
            let here = compact_tool_groups::analysis_scans(cells, i);
            let seen = compact_tool_groups::search_scans(cells, i, search);
            match compact_tool_groups::group_at(cells, i) {
                None => seen == here + compact_tool_groups::search_scans(cells, i + 1, search),
                Some(g) => if compact_tool_groups::ends_with(search, cells, g) {
                    seen == here
                } else {
                    seen == here + compact_tool_groups::search_scans(
                        cells,
                        i + g.sources + 1,
                        search,
                    )
                },
            }
        },
{
    compact_tool_groups::lemma_group_bounds(cells, i);
    if exists|j: int| i <= j < cells.len() && is_seal_at(cells, j) {
        let j = choose|j: int| i <= j < cells.len() && is_seal_at(cells, j);
        assert(crate::tool_run_projection::seal_of(*cells[j]) is Some);
        assert(compact_tool_groups::sealed_from(cells, i));
    }
    assert((exists|j: int| i <= j < cells.len() && (#[trigger] cells[j]).kind is Seal) ==> exists|
        j: int,
    |
        i <= j < cells.len() && is_seal_at(cells, j)) by {
        assert(forall|j: int| is_seal_at(cells, j) == (#[trigger] cells[j]).kind is Seal);
    }
}

spec fn is_seal_at(cells: Seq<Arc<HistoryCell>>, i: int) -> bool {
    cells[i].kind is Seal
}

/// A search ends with a group of the name, around the source, or with the record that it looks for;
/// a search for all groups ends with none.
pub proof fn law_search_ends_with_what_it_looks_for(
    cells: Seq<Arc<HistoryCell>>,
    g: GroupModel,
    id: compact_tool_groups::CompactToolGroupId,
    index: usize,
    record: u64,
)
    ensures
        !compact_tool_groups::ends_with(GroupSearch::All, cells, g),
        compact_tool_groups::ends_with(GroupSearch::Id(id), cells, g) <==> g.id == id,
        compact_tool_groups::ends_with(GroupSearch::Source(index), cells, g) <==> g.start <= index
            && index - g.start < g.sources,
        compact_tool_groups::ends_with(GroupSearch::Record(record), cells, g)
            <==> compact_tool_groups::holds_record(
            cells.subrange(g.start, g.start + g.sources),
            record,
        ),
        compact_tool_groups::all_scans(cells) == compact_tool_groups::search_scans(
            cells,
            0,
            GroupSearch::All,
        ),
        compact_tool_groups::projection_scans(cells, true) == compact_tool_groups::all_scans(cells),
        compact_tool_groups::projection_scans(cells, false).len() == 0,
{
}

/// From a seal the search goes back over the run before it, up to the cell that cannot lie in it,
/// and then over the run from its start.
pub proof fn law_search_from_a_seal_goes_back(cells: Seq<Arc<HistoryCell>>, end: int, seal: int)
    requires
        0 < end <= cells.len(),
        0 <= seal < cells.len(),
    ensures
        compact_tool_groups::backward_scans(cells, 0).len() == 0,
        tool_classification::cell_item(*cells[end - 1]) is Some || tool_classification::transparent(
            *cells[end - 1],
        ) ==> compact_tool_groups::backward_scans(cells, end) == tool_classification::item_scans(
            *cells[end - 1],
        ) + compact_tool_groups::backward_scans(cells, end - 1),
        !(tool_classification::cell_item(*cells[end - 1]) is Some
            || tool_classification::transparent(*cells[end - 1]))
            ==> compact_tool_groups::backward_scans(cells, end) == tool_classification::item_scans(
            *cells[end - 1],
        ),
        cells[seal].kind is Seal ==> compact_tool_groups::seal_scans(cells, seal)
            == compact_tool_groups::backward_scans(cells, seal)
            + compact_tool_groups::analysis_scans(
            cells,
            compact_tool_groups::run_start(cells, seal),
        ),
        !(cells[seal].kind is Seal) ==> compact_tool_groups::seal_scans(cells, seal).len() == 0,
{
}

/// The look for the group to inspect goes through what was clicked, what is hovered over, what is
/// on the screen from the bottom up, and all groups; the group that is found is then looked up.
pub proof fn law_inspection_looks_are_counted(pane: PaneModel, m: ScreenModel, first: int, last: int)
    ensures
        ({
            let clicked = match m.last_clicked {
                Some(id) => screen_model::id_scans(m.sources, id),
                None => Seq::empty(),
            };
            let hovered = if m.hover == 0 {
                Seq::empty()
            } else {
                screen_model::id_scans(
                    m.sources,
                    compact_tool_groups::CompactToolGroupId(m.hover),
                )
            };
            let seen = match m.view.visible_range(m.conversation_area) {
                Some((a, b)) => m.visible_scans(a as int, b as int),
                None => Seq::empty(),
            };
            let found = match m.inspected_group() {
                Some(id) => screen_model::id_scans(m.sources, id),
                None => Seq::empty(),
            };
            let all = compact_tool_groups::all_scans(m.sources);
            &&& m.inspection_scans() == clicked + hovered + seen + all + found
            &&& pane.screen == Some(m) ==> pane.inspection_scans() == m.inspection_scans()
            &&& pane.screen is None ==> pane.inspection_scans().len() == 0
        }),
        last < first ==> m.visible_scans(first, last).len() == 0,
        first <= last ==> {
            let here = match m.view.cells[last] {
                ShownCell::Source(cell) => compact_tool_groups::search_scans(
                    m.sources,
                    0,
                    GroupSearch::Record(cell.id),
                ),
                _ => Seq::empty(),
            };
            m.visible_scans(first, last) == if m.group_of_shown(last) is Some {
                here
            } else {
                here + m.visible_scans(first, last - 1)
            }
        },
{
    reveal(PaneModel::inspection_scans);
}

/// The lowest cell on the screen that belongs to a group says which one is visible.
pub proof fn law_lowest_group_is_the_visible_one(m: ScreenModel, first: int, last: int)
    ensures
        last < first ==> m.visible_group(first, last) is None,
        first <= last && m.group_of_shown(last) is Some ==> m.visible_group(first, last)
            == m.group_of_shown(last),
        first <= last && m.group_of_shown(last) is None ==> m.visible_group(first, last)
            == m.visible_group(first, last - 1),
{
}

/// A projection of the whole conversation is counted once, and by its reason, with the looks at its
/// cells: twice where it folds, once where it does not.
pub proof fn law_full_projection_is_counted(
    sources: Seq<Arc<HistoryCell>>,
    compact: bool,
    reason: QuietMetric,
)
    ensures
        ({
            let seen = screen_model::sources_bumps(sources, compact, reason);
            let head = seq![Tally::Metric(QuietMetric::FullProjection), Tally::Metric(reason)];
            let all = compact_tool_groups::all_scans(sources);
            seen == if compact {
                head + all + all
            } else {
                head + all
            }
        }),
{
    let head = seq![Tally::Metric(QuietMetric::FullProjection), Tally::Metric(reason)];
    let all = compact_tool_groups::all_scans(sources);
    assert(head + all + Seq::<Tally>::empty() =~= head + all);
}

/// A cell of a group that was replaced is shown as the group is: folded, unless nothing is folded
/// or the group still waits to be. A cell outside of any group is shown as it is.
pub proof fn law_replaced_cell_is_shown_as_its_group_is(
    m: ScreenModel,
    g: GroupModel,
    cell: Arc<HistoryCell>,
)
    ensures
        ({
            let stretch = m.sources.subrange(g.start, g.start + g.sources + 1);
            let waits = screen_model::valid_groups(stretch).contains(g.id)
                && m.pending_seals.contains(g.id) && screen_model::group_position(
                m.view.cells,
                g.id,
            ) is None;
            &&& m.reprojected(Some(g), cell) == compact_tool_groups::projection(
                stretch,
                m.compact && !waits,
                m.expanded,
            )
            &&& cell.kind is Seal ==> m.reprojected(None, cell).len() == 0
            &&& !(cell.kind is Seal) ==> m.reprojected(None, cell) == seq![ShownCell::Source(cell)]
        }),
{
}

/// A seal is counted once, and by its reason; no other cell is counted as one.
pub proof fn law_seals_are_counted_by_reason(reason: ToolRunSealReason)
    ensures
        AppModel::seal_bumps(None).len() == 0,
        AppModel::seal_bumps(Some(reason)) == seq![
            Tally::Metric(QuietMetric::ToolRunSeal),
            Tally::Metric(quiet_metrics::seal_metric(reason)),
        ],
{
}

/// Every inserted cell is counted as one more source, and looked at; one that leaves a run open is
/// counted as such too.
pub proof fn law_inserted_cell_is_counted(
    m: AppModel,
    cell: Arc<HistoryCell>,
    seal: Option<Arc<HistoryCell>>,
)
    requires
        m.focused is Side ==> m.side is Some,
    ensures
        ({
            let seen = m.inserted(cell, seal).bumps;
            let head = seq![Tally::Metric(QuietMetric::SourceAppend)]
                + tool_classification::item_scans(*cell);
            let open = m.focus().runs.appended(
                crate::tool_run_projection::class_of(*cell),
            ).open is Some;
            let start = if open {
                head.push(Tally::Metric(QuietMetric::SourceAppendOpen))
            } else {
                head
            };
            &&& seen.len() >= start.len()
            &&& seen.take(start.len() as int) == start
        }),
{
    reveal(AppModel::inserted);
    let counted = m.source_counted(cell);
    let sealed = counted.seal_committed(seal, ToolRunSealReason::Barrier);
    let last = sealed.app.committed(cell, None);
    let head = seq![Tally::Metric(QuietMetric::SourceAppend)] + compact_tool_groups::cell_scans(
        cell,
    );
    let open = crate::viewport_model::bump_if(
        counted.focus().runs.open is Some,
        QuietMetric::SourceAppendOpen,
    );
    let seen = m.inserted(cell, seal).bumps;
    assert(counted.focus().runs == m.focus().runs.appended(
        crate::tool_run_projection::class_of(*cell),
    ));
    assert(seen =~= head + open + sealed.bumps + last.bumps);
    assert(seen.take((head + open).len() as int) =~= head + open);
    if counted.focus().runs.open is Some {
        assert(head + open =~= head.push(Tally::Metric(QuietMetric::SourceAppendOpen)));
    } else {
        assert(head + open =~= head);
    }
}

/// The usage cards that are ready are none, one or two.
pub proof fn law_ready_usage_cards_are_counted(m: AppModel)
    ensures
        m.usage_cards() == 0 <==> m.focus().token_activity is None
            && m.focus().rate_limit_hint is None,
        m.usage_cards() == 2 <==> m.focus().token_activity is Some
            && m.focus().rate_limit_hint is Some,
        0 <= m.usage_cards() <= 2,
{
}

/// The mark of a frame depends on its tick and on what was drawn first and last.
pub proof fn law_frame_mark_depends_on_what_was_drawn(tick: u64, first: u32, last: u32)
    ensures
        quiet_bench::frame_mark(tick, first, last) ^ (last as u64) ^ (first as u64) == tick,
{
    let a = first as u64;
    let b = last as u64;
    assert(((tick ^ a) ^ b) ^ b ^ a == tick) by (bit_vector);
}

} // verus!
