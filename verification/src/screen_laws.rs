//! Laws of the owned screen.

use std::sync::Arc;

use vstd::prelude::*;

use crate::compact_tool_groups;
use crate::compact_tool_groups::CompactToolGroupId;
use crate::compact_tool_groups::GroupModel;
use crate::compact_tool_groups::ShownCell;
use crate::history_cell::HistoryCell;
use crate::ledger::Tally;
use crate::quiet_metrics::QuietMetric;
use crate::quiet_metrics::RangeReplacementReason;
use crate::screen_model;
use crate::screen_model::ScreenModel;
use crate::tool_run_projection;
use crate::viewport_model;
use crate::viewport_model::ViewportModel;

verus! {

/// Whether a screen shows what a projection of its sources from the start would show.
pub open spec fn in_line(m: ScreenModel) -> bool {
    m.view.cells == compact_tool_groups::projection(m.sources, m.compact, m.expanded)
}

/// Whether no two sources are handles to the same record.
pub open spec fn distinct(sources: Seq<Arc<HistoryCell>>) -> bool {
    forall|i: int, j: int|
        0 <= i < j < sources.len() ==> (#[trigger] sources[i]).id != (#[trigger] sources[j]).id
}

/// The projection of the cells from `i` to `end`, where a run ends at `end`.
spec fn folded_between(
    cells: Seq<Arc<HistoryCell>>,
    expanded: Seq<CompactToolGroupId>,
    i: int,
    end: int,
) -> Seq<ShownCell>
    decreases end - i,
{
    if i >= end || i < 0 {
        Seq::empty()
    } else {
        match compact_tool_groups::group_at(cells, i) {
            Some(g) => if g.sources >= 1 && i + g.sources < end {
                compact_tool_groups::group_rows(cells, g, expanded.contains(g.id))
                    + folded_between(cells, expanded, i + g.sources + 1, end)
            } else {
                Seq::empty()
            },
            None => if tool_run_projection::seal_of(*cells[i]) is Some {
                folded_between(cells, expanded, i + 1, end)
            } else {
                seq![ShownCell::Source(cells[i])] + folded_between(cells, expanded, i + 1, end)
            },
        }
    }
}

/// The groups from `i` to `end`.
spec fn groups_between(cells: Seq<Arc<HistoryCell>>, i: int, end: int) -> Seq<GroupModel>
    decreases end - i,
{
    if i >= end || i < 0 {
        Seq::empty()
    } else {
        match compact_tool_groups::group_at(cells, i) {
            Some(g) => if g.sources >= 1 && i + g.sources < end {
                seq![g] + groups_between(cells, i + g.sources + 1, end)
            } else {
                Seq::empty()
            },
            None => groups_between(cells, i + 1, end),
        }
    }
}

pub open spec fn is_seal(cell: Arc<HistoryCell>) -> bool {
    tool_run_projection::seal_of(*cell) is Some
}

/// A run cannot reach over `end`.
spec fn run_boundary(cells: Seq<Arc<HistoryCell>>, end: int) -> bool {
    0 <= end <= cells.len() && (end == 0 || !compact_tool_groups::inside_run(cells[end - 1]))
}

proof fn lemma_run_stops(cells: Seq<Arc<HistoryCell>>, i: int, end: int)
    requires
        run_boundary(cells, end),
        0 <= i < end,
    ensures
        compact_tool_groups::run_end(cells, i) < end,
{
    compact_tool_groups::lemma_run_end_bounds(cells, i);
    if compact_tool_groups::run_end(cells, i) >= end {
        assert(compact_tool_groups::inside_run(cells[end - 1]));
    }
}

proof fn lemma_run_end_push(cells: Seq<Arc<HistoryCell>>, c: Arc<HistoryCell>, i: int)
    requires
        0 <= i <= cells.len(),
    ensures
        compact_tool_groups::run_end(cells, i) < cells.len() ==> compact_tool_groups::run_end(
            cells.push(c),
            i,
        ) == compact_tool_groups::run_end(cells, i),
        compact_tool_groups::run_end(cells, i) == cells.len() ==> compact_tool_groups::run_end(
            cells.push(c),
            i,
        ) >= cells.len(),
    decreases cells.len() - i,
{
    compact_tool_groups::lemma_run_end_bounds(cells, i);
    compact_tool_groups::lemma_run_end_bounds(cells.push(c), i);
    if i < cells.len() {
        assert(cells.push(c)[i] == cells[i]);
        if compact_tool_groups::inside_run(cells[i]) {
            lemma_run_end_push(cells, c, i + 1);
        }
    }
}

/// A cell at the end changes no group that ends before it.
proof fn lemma_group_at_push(cells: Seq<Arc<HistoryCell>>, c: Arc<HistoryCell>, i: int)
    requires
        0 <= i < cells.len(),
        compact_tool_groups::run_end(cells, i) < cells.len() || tool_run_projection::seal_of(
            *c,
        ) is None,
    ensures
        compact_tool_groups::group_at(cells.push(c), i) == compact_tool_groups::group_at(cells, i),
{
    reveal(compact_tool_groups::group_at);
    let more = cells.push(c);
    let end = compact_tool_groups::run_end(cells, i);
    compact_tool_groups::lemma_run_end_bounds(cells, i);
    compact_tool_groups::lemma_run_end_bounds(more, i);
    lemma_run_end_push(cells, c, i);
    if end < cells.len() {
        assert(more.subrange(i, end) =~= cells.subrange(i, end));
        assert(more[end] == cells[end]);
        assert(more[i] == cells[i]);
    } else {
        let longer = compact_tool_groups::run_end(more, i);
        if longer < more.len() {
            assert(more[longer] == c);
        }
    }
}

proof fn lemma_rows_push(
    cells: Seq<Arc<HistoryCell>>,
    c: Arc<HistoryCell>,
    g: GroupModel,
    expanded: bool,
)
    requires
        0 <= g.start,
        0 <= g.sources,
        g.start + g.sources <= cells.len(),
    ensures
        compact_tool_groups::group_rows(cells.push(c), g, expanded)
            == compact_tool_groups::group_rows(cells, g, expanded),
{
    assert(compact_tool_groups::sources_of(cells.push(c), g) =~= compact_tool_groups::sources_of(
        cells,
        g,
    ));
}

/// A cell that is no seal shows up behind everything else.
proof fn lemma_folded_push_plain(
    cells: Seq<Arc<HistoryCell>>,
    c: Arc<HistoryCell>,
    expanded: Seq<CompactToolGroupId>,
    i: int,
)
    requires
        0 <= i <= cells.len(),
        tool_run_projection::seal_of(*c) is None,
    ensures
        compact_tool_groups::folded_from(cells.push(c), expanded, i)
            == compact_tool_groups::folded_from(cells, expanded, i).push(ShownCell::Source(c)),
    decreases cells.len() - i,
{
    let more = cells.push(c);
    let last = ShownCell::Source(c);
    if i == cells.len() {
        assert(more[i] == c);
        compact_tool_groups::lemma_group_bounds(more, i);
        assert(compact_tool_groups::group_at(more, i) is None);
        assert(compact_tool_groups::folded_from(more, expanded, i + 1) =~= Seq::empty());
        assert(compact_tool_groups::folded_from(more, expanded, i) =~= seq![last]);
        assert(compact_tool_groups::folded_from(cells, expanded, i).push(last) =~= seq![last]);
    } else {
        lemma_group_at_push(cells, c, i);
        compact_tool_groups::lemma_group_bounds(cells, i);
        assert(more[i] == cells[i]);
        match compact_tool_groups::group_at(cells, i) {
            Some(g) => {
                let rows = compact_tool_groups::group_rows(cells, g, expanded.contains(g.id));
                let rest = compact_tool_groups::folded_from(cells, expanded, i + g.sources + 1);
                lemma_rows_push(cells, c, g, expanded.contains(g.id));
                lemma_folded_push_plain(cells, c, expanded, i + g.sources + 1);
                assert(rows + rest.push(last) =~= (rows + rest).push(last));
            },
            None => {
                lemma_folded_push_plain(cells, c, expanded, i + 1);
                let rest = compact_tool_groups::folded_from(cells, expanded, i + 1);
                let head = seq![ShownCell::Source(cells[i])];
                assert(head + rest.push(last) =~= (head + rest).push(last));
            },
        }
    }
}

/// The projection splits where no run can reach over.
proof fn lemma_folded_splits(
    cells: Seq<Arc<HistoryCell>>,
    expanded: Seq<CompactToolGroupId>,
    i: int,
    end: int,
)
    requires
        run_boundary(cells, end),
        0 <= i <= end,
    ensures
        compact_tool_groups::folded_from(cells, expanded, i) == folded_between(
            cells,
            expanded,
            i,
            end,
        ) + compact_tool_groups::folded_from(cells, expanded, end),
        compact_tool_groups::groups_from(cells, i) == groups_between(cells, i, end)
            + compact_tool_groups::groups_from(cells, end),
    decreases end - i,
{
    let tail = compact_tool_groups::folded_from(cells, expanded, end);
    let later = compact_tool_groups::groups_from(cells, end);
    if i == end {
        assert(Seq::<ShownCell>::empty() + tail =~= tail);
        assert(Seq::<GroupModel>::empty() + later =~= later);
    } else {
        lemma_run_stops(cells, i, end);
        lemma_group_end(cells, i);
        match compact_tool_groups::group_at(cells, i) {
            Some(g) => {
                let next = i + g.sources + 1;
                lemma_folded_splits(cells, expanded, next, end);
                let rows = compact_tool_groups::group_rows(cells, g, expanded.contains(g.id));
                let between = folded_between(cells, expanded, next, end);
                assert(rows + (between + tail) =~= (rows + between) + tail);
                let groups = groups_between(cells, next, end);
                assert(seq![g] + (groups + later) =~= (seq![g] + groups) + later);
            },
            None => {
                lemma_folded_splits(cells, expanded, i + 1, end);
                let head = seq![ShownCell::Source(cells[i])];
                let between = folded_between(cells, expanded, i + 1, end);
                assert(head + (between + tail) =~= (head + between) + tail);
            },
        }
    }
}

/// A group ends where its run ends.
proof fn lemma_group_end(cells: Seq<Arc<HistoryCell>>, i: int)
    requires
        0 <= i < cells.len(),
    ensures
        compact_tool_groups::group_at(cells, i) matches Some(g) ==> {
            &&& g.start == i
            &&& g.sources >= 1
            &&& i + g.sources == compact_tool_groups::run_end(cells, i)
            &&& i + g.sources < cells.len()
        },
{
    compact_tool_groups::lemma_group_bounds(cells, i);
    reveal(compact_tool_groups::group_at);
}

/// A cell at the end changes nothing before a place that no run can reach over.
proof fn lemma_between_push(
    cells: Seq<Arc<HistoryCell>>,
    c: Arc<HistoryCell>,
    expanded: Seq<CompactToolGroupId>,
    i: int,
    end: int,
)
    requires
        run_boundary(cells, end),
        0 <= i <= end,
    ensures
        folded_between(cells.push(c), expanded, i, end) == folded_between(
            cells,
            expanded,
            i,
            end,
        ),
        groups_between(cells.push(c), i, end) == groups_between(cells, i, end),
    decreases end - i,
{
    if i < end {
        lemma_run_stops(cells, i, end);
        lemma_group_at_push(cells, c, i);
        lemma_group_end(cells, i);
        assert(cells.push(c)[i] == cells[i]);
        match compact_tool_groups::group_at(cells, i) {
            Some(g) => {
                lemma_rows_push(cells, c, g, expanded.contains(g.id));
                lemma_between_push(cells, c, expanded, i + g.sources + 1, end);
            },
            None => {
                lemma_between_push(cells, c, expanded, i + 1, end);
            },
        }
    }
}

/// What is shown before a place: sources from before it, and rows of the groups before it.
proof fn lemma_between_shows(
    cells: Seq<Arc<HistoryCell>>,
    expanded: Seq<CompactToolGroupId>,
    i: int,
    end: int,
    k: int,
)
    requires
        run_boundary(cells, end),
        0 <= i <= end,
        0 <= k < folded_between(cells, expanded, i, end).len(),
    ensures
        match folded_between(cells, expanded, i, end)[k] {
            ShownCell::Source(cell) => exists|j: int| 0 <= j < end && cells[j] == cell,
            ShownCell::Work { id, actions, expanded, sources, detail } =>
                compact_tool_groups::group_ids(groups_between(cells, i, end)).contains(id),
        },
    decreases end - i,
{
    let shown = folded_between(cells, expanded, i, end);
    let ids = compact_tool_groups::group_ids(groups_between(cells, i, end));
    lemma_run_stops(cells, i, end);
    lemma_group_end(cells, i);
    match compact_tool_groups::group_at(cells, i) {
        Some(g) => {
            let next = i + g.sources + 1;
            let rows = compact_tool_groups::group_rows(cells, g, expanded.contains(g.id));
            let rest = folded_between(cells, expanded, next, end);
            let later = compact_tool_groups::group_ids(groups_between(cells, next, end));
            assert(ids =~= seq![g.id] + later);
            if k < rows.len() {
                if k == 0 {
                    assert(ids[0] == g.id);
                } else {
                    assert(cells[i + k - 1] == compact_tool_groups::sources_of(cells, g)[k - 1]);
                }
            } else {
                lemma_between_shows(cells, expanded, next, end, k - rows.len());
                assert(shown[k] == rest[k - rows.len()]);
                if let ShownCell::Work { id, actions, expanded, sources, detail } = shown[k] {
                    let n = choose|n: int| 0 <= n < later.len() && later[n] == id;
                    assert(ids[n + 1] == id);
                }
            }
        },
        None => {
            let rest = folded_between(cells, expanded, i + 1, end);
            if is_seal(cells[i]) {
                lemma_between_shows(cells, expanded, i + 1, end, k);
            } else if k == 0 {
                assert(shown[0] == ShownCell::Source(cells[i]));
            } else {
                lemma_between_shows(cells, expanded, i + 1, end, k - 1);
                assert(shown[k] == rest[k - 1]);
            }
        },
    }
}

pub proof fn lemma_record_after(a: Seq<ShownCell>, b: Seq<ShownCell>, id: u64)
    requires
        forall|k: int|
            0 <= k < a.len() ==> (#[trigger] a[k] matches ShownCell::Source(cell) ==> cell.id
                != id),
        b.len() > 0,
        b[0] matches ShownCell::Source(cell) && cell.id == id,
    ensures
        viewport_model::record_position(a + b, id) == Some(a.len() as int),
    decreases a.len() + b.len(),
{
    let all = a + b;
    if b.len() == 1 {
        assert(all.drop_last() =~= a);
        lemma_no_record(a, id);
        assert(all.last() == b[0]);
    } else {
        assert(all.drop_last() =~= a + b.drop_last());
        assert(b.drop_last()[0] == b[0]);
        lemma_record_after(a, b.drop_last(), id);
    }
}

proof fn lemma_no_record(a: Seq<ShownCell>, id: u64)
    requires
        forall|k: int|
            0 <= k < a.len() ==> (#[trigger] a[k] matches ShownCell::Source(cell) ==> cell.id
                != id),
    ensures
        viewport_model::record_position(a, id) is None,
    decreases a.len(),
{
    if a.len() > 0 {
        let front = a.drop_last();
        assert forall|k: int| 0 <= k < front.len() implies (
        #[trigger] front[k] matches ShownCell::Source(cell) ==> cell.id != id) by {
            assert(front[k] == a[k]);
        }
        lemma_no_record(front, id);
        assert(a[a.len() - 1] == a.last());
    }
}

pub proof fn lemma_no_group_row(a: Seq<ShownCell>, id: CompactToolGroupId)
    requires
        forall|k: int|
            0 <= k < a.len() ==> compact_tool_groups::header_hit(#[trigger] a[k], 0) != Some(id),
    ensures
        screen_model::group_position(a, id) is None,
    decreases a.len(),
{
    if a.len() > 0 {
        let front = a.drop_last();
        assert forall|k: int| 0 <= k < front.len() implies compact_tool_groups::header_hit(
            #[trigger] front[k],
            0,
        ) != Some(id) by {
            assert(front[k] == a[k]);
        }
        lemma_no_group_row(front, id);
        assert(a[a.len() - 1] == a.last());
    }
}

proof fn lemma_without_absent(ids: Seq<CompactToolGroupId>, id: CompactToolGroupId)
    requires
        !ids.contains(id),
    ensures
        screen_model::without(ids, id) == ids,
    decreases ids.len(),
{
    if ids.len() > 0 {
        let front = ids.drop_last();
        assert forall|k: int| 0 <= k < front.len() implies front[k] != id by {
            assert(ids[k] == front[k]);
        }
        assert(!front.contains(id));
        lemma_without_absent(front, id);
        assert(ids[ids.len() - 1] == ids.last());
        assert(front.push(ids.last()) =~= ids);
    } else {
        assert(screen_model::without(ids, id) =~= ids);
    }
}

proof fn lemma_run_start(cells: Seq<Arc<HistoryCell>>, end: int)
    requires
        0 <= end <= cells.len(),
    ensures
        0 <= compact_tool_groups::run_start(cells, end) <= end,
        run_boundary(cells, compact_tool_groups::run_start(cells, end)),
        forall|j: int|
            compact_tool_groups::run_start(cells, end) <= j < end
                ==> compact_tool_groups::inside_run(#[trigger] cells[j]),
    decreases end,
{
    if end > 0 && compact_tool_groups::inside_run(cells[end - 1]) {
        lemma_run_start(cells, end - 1);
    }
}

proof fn lemma_group_found_last(
    groups: Seq<GroupModel>,
    g: GroupModel,
)
    requires
        !compact_tool_groups::group_ids(groups).contains(g.id),
    ensures
        compact_tool_groups::group_with_id(groups.push(g), g.id) == Some(g),
    decreases groups.len(),
{
    let all = groups.push(g);
    let ids = compact_tool_groups::group_ids(groups);
    if groups.len() > 0 {
        assert(ids[0] == groups[0].id);
        assert(all[0] == groups[0]);
        let rest = groups.skip(1);
        assert(all.skip(1) =~= rest.push(g));
        assert forall|k: int| 0 <= k < rest.len() implies compact_tool_groups::group_ids(rest)[k]
            != g.id by {
            assert(ids[k + 1] == groups[k + 1].id);
        }
        assert(!compact_tool_groups::group_ids(rest).contains(g.id));
        lemma_group_found_last(rest, g);
    } else {
        assert(all[0] == g);
    }
}

/// A live tool call, like any cell that is no seal, appends one row and rewrites nothing: every
/// row that was there stays as it was, and the screen shows what a projection of all sources
/// from the start would show.
pub proof fn law_live_cells_only_append(m: ScreenModel, cell: Arc<HistoryCell>)
    requires
        !m.view.selecting(),
        m.view.wf(),
        tool_run_projection::seal_of(*cell) is None,
    ensures
        ({
            let step = m.source_pushed(cell, m.compact);
            &&& step.screen.view.cells == m.view.cells.push(ShownCell::Source(cell))
            &&& step.screen.sources == m.sources.push(cell)
            &&& step.bumps == Seq::<Tally>::empty()
            &&& in_line(m) ==> in_line(step.screen)
        }),
{
    reveal(ScreenModel::source_pushed);
    reveal(ScreenModel::with_compact);
    reveal(ViewportModel::pushed);
    let shown = ShownCell::Source(cell);
    if m.compact {
        lemma_folded_push_plain(m.sources, cell, m.expanded, 0);
    } else {
        assert(m.sources.push(cell).drop_last() =~= m.sources);
        assert(compact_tool_groups::as_sources(
            compact_tool_groups::unsealed(m.sources).push(cell),
        ) =~= compact_tool_groups::as_sources(compact_tool_groups::unsealed(m.sources)).push(shown));
    }
}

/// The seal of a run folds the run once, into one row in place of its cells, and the screen then
/// shows what a projection of all sources from the start would show. That is so for a run that
/// the seal covers as a whole, unless its cells are being selected or are on the screen of a
/// view that was scrolled away from the end.
pub proof fn law_seal_folds_its_run_once(m: ScreenModel, seal: Arc<HistoryCell>, g: GroupModel)
    requires
        m.view.wf(),
        m.compact,
        in_line(m),
        distinct(m.sources),
        !m.guarded(m.view.cells.len() - g.sources, g),
        compact_tool_groups::group_before_seal(m.sources.push(seal), m.sources.len() as int)
            == Some(g),
        // The run is a new one.
        !screen_model::valid_groups(m.sources).contains(g.id),
        !m.expanded.contains(g.id),
    ensures
        ({
            let step = m.source_pushed(seal, true);
            &&& in_line(step.screen)
            &&& step.screen.sources == m.sources.push(seal)
            &&& step.screen.view.cells.len() == m.view.cells.len() - g.sources + 1
            &&& step.screen.view.cells.last() matches ShownCell::Work {
                id,
                actions,
                expanded,
                sources,
                detail,
            } && id == g.id && !expanded && sources == compact_tool_groups::sources_of(
                m.sources,
                g,
            )
            &&& step.bumps == compact_tool_groups::seal_scans(
                step.screen.sources,
                m.sources.len() as int,
            ) + screen_model::id_scans(step.screen.sources, g.id) + seq![
                Tally::Metric(QuietMetric::RangeReplacementSeal),
                Tally::Metric(QuietMetric::RangeReplacement),
            ]
        }),
{
    reveal(ScreenModel::source_pushed);
    reveal(ScreenModel::with_compact);
    reveal(ScreenModel::group_projected);
    reveal(ViewportModel::with_range);
    let cells = m.sources;
    let len = cells.len() as int;
    let more = cells.push(seal);
    let start = compact_tool_groups::run_start(more, len);
    lemma_run_start(more, len);
    assert(run_boundary(cells, start)) by {
        if start > 0 {
            assert(more[start - 1] == cells[start - 1]);
        }
    }
    assert(more[len] == seal);
    lemma_group_end(more, start);
    compact_tool_groups::lemma_run_end_bounds(more, start);
    // The group takes everything from its start on.
    assert(g.start == start);
    compact_tool_groups::lemma_group_bounds(more, start);
    assert(g.sources == len - start) by {
        if start + g.sources < len {
            assert(compact_tool_groups::inside_run(more[start + g.sources]));
        }
    }
    // Before the seal, the run shows as it is.
    assert forall|j: int| start <= j < len implies tool_run_projection::seal_of(
        *(#[trigger] cells[j]),
    ) is None by {
        assert(more[j] == cells[j]);
        assert(compact_tool_groups::inside_run(more[j]));
    }
    compact_tool_groups::lemma_folded_without_seals(cells, m.expanded, start);
    lemma_folded_splits(cells, m.expanded, 0, start);
    let between = folded_between(cells, m.expanded, 0, start);
    let tail = compact_tool_groups::as_sources(cells.skip(start));
    assert(m.view.cells == between + tail);
    // Behind the seal, it shows as a row.
    assert(run_boundary(more, start)) by {
        if start > 0 {
            assert(more[start - 1] == cells[start - 1]);
        }
    }
    lemma_folded_splits(more, m.expanded, 0, start);
    lemma_between_push(cells, seal, m.expanded, 0, start);
    let rows = compact_tool_groups::group_rows(more, g, false);
    assert(compact_tool_groups::folded_from(more, m.expanded, len + 1) =~= Seq::empty());
    assert(compact_tool_groups::folded_from(more, m.expanded, start) =~= rows);
    assert(compact_tool_groups::folded_from(more, m.expanded, 0) == between + rows);
    // The groups are the old ones and the new one.
    compact_tool_groups::lemma_no_groups_past_last_seal(cells, start);
    let groups = compact_tool_groups::groups_of(cells);
    assert(compact_tool_groups::groups_from(cells, start) =~= Seq::empty());
    assert(groups =~= groups_between(cells, 0, start));
    assert(compact_tool_groups::groups_from(more, len + 1) =~= Seq::empty());
    assert(compact_tool_groups::groups_from(more, start) =~= seq![g]);
    assert(compact_tool_groups::groups_of(more) =~= groups.push(g));
    lemma_group_found_last(groups, g);
    assert(screen_model::found_group(more, g.id) == Some(g));
    // The row is not there yet, and the first source is found where the run starts.
    assert forall|k: int| 0 <= k < m.view.cells.len() implies compact_tool_groups::header_hit(
        #[trigger] m.view.cells[k],
        0,
    ) != Some(g.id) by {
        if k < between.len() {
            lemma_between_shows(cells, m.expanded, 0, start, k);
        }
    }
    lemma_no_group_row(m.view.cells, g.id);
    let first = cells[start];
    assert forall|k: int| 0 <= k < between.len() implies (
    #[trigger] between[k] matches ShownCell::Source(cell) ==> cell.id != first.id) by {
        lemma_between_shows(cells, m.expanded, 0, start, k);
        if let ShownCell::Source(cell) = between[k] {
            let j = choose|j: int| 0 <= j < start && cells[j] == cell;
            assert(cells[j].id != cells[start].id);
        }
    }
    assert(tail[0] == ShownCell::Source(first));
    lemma_record_after(between, tail, first.id);
    // The replacement.
    lemma_without_absent(m.expanded, g.id);
    let ready = m.unhovered();
    assert(ready.with_compact(true).screen == ready);
    let pushed = ScreenModel { sources: more, ..ready };
    assert(pushed.source_position(g) == Some(between.len() as int)) by {
        assert(more[start] == cells[start]);
    }
    assert(between.len() == m.view.cells.len() - g.sources);
    assert(!pushed.guarded(between.len() as int, g));
    let view = pushed.view.with_range(
        pushed.width(),
        between.len() as int,
        g.sources,
        rows,
    );
    assert(view.cells =~= between + rows);
    assert(compact_tool_groups::sources_of(more, g) =~= compact_tool_groups::sources_of(cells, g));
    assert(rows.last() == rows[0]);
    assert((between + rows).last() == rows[0]);
    assert(Seq::<Tally>::empty() + seq![
        Tally::Metric(QuietMetric::RangeReplacementSeal),
        Tally::Metric(QuietMetric::RangeReplacement),
    ] =~= seq![Tally::Metric(QuietMetric::RangeReplacementSeal), Tally::Metric(QuietMetric::RangeReplacement)]);
}

/// A run whose cells must not move waits: the screen shows what it showed, and the run is among
/// those that are folded later.
pub proof fn law_guarded_run_waits(m: ScreenModel, id: CompactToolGroupId, g: GroupModel)
    requires
        screen_model::found_group(m.sources, id) == Some(g),
        screen_model::group_position(m.view.cells, id) is None,
        m.source_position(g) matches Some(position) && m.guarded(position, g),
    ensures
        ({
            let step = m.group_projected(id, false, true, RangeReplacementReason::Seal);
            &&& step.screen.view == m.view
            &&& step.screen.pending_seals.contains(id)
            &&& !step.done
            &&& step.bumps == screen_model::id_scans(m.sources, id)
        }),
{
    reveal(ScreenModel::group_projected);
    let more = m.pending_seals.push(id);
    assert(more[m.pending_seals.len() as int] == id);
}

/// A projection of other sources shows them as a whole, whatever was shown before.
pub proof fn law_replaced_sources_are_in_line(
    m: ScreenModel,
    sources: Seq<Arc<HistoryCell>>,
    compact: bool,
)
    requires
        !m.view.selecting(),
    ensures
        in_line(m.with_sources(sources, compact)),
        m.with_sources(sources, compact).sources == sources,
        m.with_sources(sources, compact).hover == 0,
{
    reveal(ScreenModel::with_sources);
    reveal(ViewportModel::with_cells);
}

/// A group that is toggled is expanded just where it was not before, is the one that was
/// clicked last, and leaves the view where it is for a frame.
pub proof fn law_toggle_flips_one_group(
    m: ScreenModel,
    id: CompactToolGroupId,
    scroll: usize,
    other: CompactToolGroupId,
)
    requires
        m.group_toggled(id, scroll).done,
    ensures
        ({
            let n = m.group_toggled(id, scroll).screen;
            &&& n.expanded.contains(id) == !m.expanded.contains(id)
            &&& other != id ==> n.expanded.contains(other) == m.expanded.contains(other)
            &&& n.last_clicked == Some(id)
            &&& n.view.scroll == scroll
            &&& n.view.frozen
            &&& n.sources == m.sources
        }),
{
    reveal(ScreenModel::group_toggled);
    reveal(ScreenModel::group_projected);
    screen_model::lemma_without(m.expanded, id);
    let expanded = m.expanded;
    let more = expanded.push(id);
    assert(more[expanded.len() as int] == id);
    assert(more.contains(id));
    if other != id {
        assert(more.contains(other) == expanded.contains(other)) by {
            if expanded.contains(other) {
                let k = choose|k: int| 0 <= k < expanded.len() && expanded[k] == other;
                assert(more[k] == other);
            }
            if more.contains(other) {
                let k = choose|k: int| 0 <= k < more.len() && more[k] == other;
                assert(expanded[k] == other);
            }
        }
    }
}

/// A drag that selects text toggles no group, and neither does a release on another row than the
/// one that was pressed.
pub proof fn law_only_a_click_toggles(
    m: ScreenModel,
    position: crate::geometry::Position,
    restored: Option<crate::viewport_model::RestoredSelection>,
    selected: bool,
)
    requires
        selected || m.pending_click is None || m.pending_click != m.header_at(position),
    ensures
        ({
            let step = m.selection_finished(position, restored, selected);
            &&& step.screen.expanded == m.expanded
            &&& step.bumps == Seq::<Tally>::empty()
            &&& step.screen.last_clicked == m.last_clicked
        }),
{
    reveal(ScreenModel::selection_finished);
}

/// A group that is looked into is one of the conversation, in the order: clicked, hovered,
/// visible, last. With nothing clicked, hovered or visible it is the last one.
pub proof fn law_inspection_prefers_what_was_clicked(m: ScreenModel)
    ensures
        m.last_clicked matches Some(id) && screen_model::found_group(m.sources, id) is Some
            ==> m.inspected_group() == m.last_clicked,
        m.last_clicked is None && m.hover == 0 && m.view.visible_range(m.conversation_area) is None
            && compact_tool_groups::groups_of(m.sources).len() > 0 ==> m.inspected_group() == Some(
            compact_tool_groups::groups_of(m.sources).last().id,
        ),
        compact_tool_groups::groups_of(m.sources).len() == 0 && m.view.visible_range(
            m.conversation_area,
        ) is None ==> m.inspected_group() is None,
{
}

/// A run that waited folds once nothing guards its cells any more, and waits no longer.
pub proof fn law_waiting_run_folds_later(
    m: ScreenModel,
    id: CompactToolGroupId,
    g: GroupModel,
    position: int,
)
    requires
        screen_model::found_group(m.sources, id) == Some(g),
        screen_model::group_position(m.view.cells, id) is None,
        m.source_position(g) == Some(position),
        !m.guarded(position, g),
    ensures
        ({
            let step = m.group_projected(id, false, true, RangeReplacementReason::Seal);
            &&& step.done
            &&& !step.screen.pending_seals.contains(id)
            &&& step.screen.view == m.view.with_range(
                m.width(),
                position,
                g.sources,
                compact_tool_groups::group_rows(m.sources, g, false),
            )
            &&& step.bumps == screen_model::id_scans(m.sources, id) + seq![
                Tally::Metric(QuietMetric::RangeReplacementSeal),
                Tally::Metric(QuietMetric::RangeReplacement),
            ]
        }),
{
    reveal(ScreenModel::group_projected);
    screen_model::lemma_without(m.pending_seals, id);
}

proof fn lemma_record_row(cells: Seq<ShownCell>, id: u64)
    ensures
        match viewport_model::record_position(cells, id) {
            Some(row) => 0 <= row < cells.len(),
            None => true,
        },
    decreases cells.len(),
{
    if cells.len() > 0 {
        lemma_record_row(cells.drop_last(), id);
    }
}

proof fn lemma_group_row(cells: Seq<ShownCell>, id: CompactToolGroupId)
    ensures
        match screen_model::group_position(cells, id) {
            Some(row) => 0 <= row < cells.len(),
            None => true,
        },
    decreases cells.len(),
{
    if cells.len() > 0 {
        lemma_group_row(cells.drop_last(), id);
    }
}

/// The rows before and behind one range are as they were.
pub open spec fn one_range_changed(
    before: Seq<ShownCell>,
    after: Seq<ShownCell>,
    start: int,
    end: int,
    shown: Seq<ShownCell>,
) -> bool {
    &&& 0 <= start <= end <= before.len()
    &&& after == before.take(start) + shown + before.skip(end)
}

proof fn lemma_boundary(m: ScreenModel, index: int)
    requires
        0 <= index,
    ensures
        match m.boundary(index) {
            Some(row) => 0 <= row <= m.view.cells.len(),
            None => true,
        },
{
    if index < m.sources.len() {
        lemma_record_row(m.view.cells, m.sources[index].id);
        screen_model::lemma_group_of_source(m.sources, index);
        let g = compact_tool_groups::group_of_source(
            compact_tool_groups::groups_of(m.sources),
            index,
        );
        if let Some(found) = g {
            lemma_group_row(m.view.cells, found.id);
            lemma_record_row(m.view.cells, m.sources[found.start].id);
        }
    }
}

/// A record that takes the place of another one, and records that are put in or taken out,
/// change the range of rows that showed them. The rows before it and behind it stay as they were,
/// with the groups that are folded there.
pub proof fn law_edits_change_one_range(
    m: ScreenModel,
    index: int,
    replacement: Arc<HistoryCell>,
    count: int,
    replacements: Seq<Arc<HistoryCell>>,
)
    requires
        m.view.wf(),
        !m.view.selecting(),
        0 <= index,
        0 <= count,
    ensures
        ({
            let step = m.source_replaced(index, replacement, m.compact);
            let (start, rows) = m.shown_range(index)->0;
            step.done ==> {
                &&& step.screen.sources == m.sources.update(index, replacement)
                &&& m.shown_range(index) is Some
                &&& one_range_changed(
                    m.view.cells,
                    step.screen.view.cells,
                    start,
                    m.view.range_end(start, rows),
                    m.source_updated(index, replacement).reprojected(
                        compact_tool_groups::group_of_source(
                            compact_tool_groups::groups_of(m.sources),
                            index,
                        ),
                        replacement,
                    ),
                )
            }
        }),
        ({
            let step = m.sources_spliced(index, count, replacements, m.compact);
            step.done ==> {
                &&& step.screen.sources == m.sources.take(index) + replacements + m.sources.skip(
                    index + count,
                )
                &&& m.boundary(index) is Some && m.boundary(index + count) is Some
                &&& one_range_changed(
                    m.view.cells,
                    step.screen.view.cells,
                    m.boundary(index)->0,
                    m.boundary(index + count)->0,
                    compact_tool_groups::projection(replacements, m.compact, m.expanded),
                )
            }
        }),
{
    reveal(ScreenModel::source_replaced);
    reveal(ScreenModel::sources_spliced);
    reveal(ViewportModel::with_range);
    if m.source_replaced(index, replacement, m.compact).done {
        lemma_record_row(m.view.cells, m.sources[index].id);
        screen_model::lemma_group_of_source(m.sources, index);
        let g = compact_tool_groups::group_of_source(
            compact_tool_groups::groups_of(m.sources),
            index,
        );
        if let Some(found) = g {
            lemma_group_row(m.view.cells, found.id);
            lemma_record_row(m.view.cells, m.sources[found.start].id);
        }
    }
    lemma_boundary(m, index);
    lemma_boundary(m, index + count);
}

} // verus!
