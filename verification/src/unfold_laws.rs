//! Showing tool groups in full and folding them again.

use std::sync::Arc;

use vstd::prelude::*;

use crate::compact_tool_groups;
use crate::compact_tool_groups::CompactToolGroupId;
use crate::compact_tool_groups::GroupModel;
use crate::compact_tool_groups::ShownCell;
use crate::history_cell::HistoryCell;
use crate::ledger::Tally;
use crate::quiet_metrics::QuietMetric;
use crate::quiet_metrics::RangeReplacementReason;
use crate::screen_laws;
use crate::screen_model;
use crate::screen_model::ScreenModel;
use crate::tool_run_projection;
use crate::viewport_model::ViewportModel;

verus! {

/// The cells from `i` to `end` as they are, without the seals.
spec fn plain(cells: Seq<Arc<HistoryCell>>, i: int, end: int) -> Seq<ShownCell> {
    compact_tool_groups::as_sources(compact_tool_groups::unsealed(cells.subrange(i, end)))
}

spec fn rows_of(
    cells: Seq<Arc<HistoryCell>>,
    expanded: Seq<CompactToolGroupId>,
    g: GroupModel,
) -> Seq<ShownCell> {
    compact_tool_groups::group_rows(cells, g, expanded.contains(g.id))
}

spec fn sources_shown(cells: Seq<Arc<HistoryCell>>, g: GroupModel) -> Seq<ShownCell> {
    compact_tool_groups::as_sources(compact_tool_groups::sources_of(cells, g))
}

spec fn behind(g: GroupModel) -> int {
    g.start + g.sources + 1
}

/// Groups that lie in order from `i` on, each with its seal behind it.
spec fn in_order(cells: Seq<Arc<HistoryCell>>, groups: Seq<GroupModel>, i: int) -> bool
    decreases groups.len(),
{
    groups.len() == 0 || {
        let g = groups[0];
        &&& i <= g.start
        &&& g.sources >= 1
        &&& behind(g) <= cells.len()
        &&& forall|j: int|
            g.start <= j < g.start + g.sources ==> compact_tool_groups::inside_run(
                #[trigger] cells[j],
            )
        &&& tool_run_projection::seal_of(*cells[g.start + g.sources]) is Some
        &&& in_order(cells, groups.skip(1), behind(g))
    }
}

/// The cells from `i` on with the first `n` of the groups folded.
spec fn partly(
    cells: Seq<Arc<HistoryCell>>,
    expanded: Seq<CompactToolGroupId>,
    groups: Seq<GroupModel>,
    i: int,
    n: int,
) -> Seq<ShownCell>
    decreases groups.len(),
{
    if groups.len() == 0 {
        plain(cells, i, cells.len() as int)
    } else {
        let g = groups[0];
        plain(cells, i, g.start) + (if n > 0 {
            rows_of(cells, expanded, g)
        } else {
            sources_shown(cells, g)
        }) + partly(cells, expanded, groups.skip(1), behind(g), n - 1)
    }
}

/// What stands before group `k`, with all groups before it folded.
spec fn head(
    cells: Seq<Arc<HistoryCell>>,
    expanded: Seq<CompactToolGroupId>,
    groups: Seq<GroupModel>,
    i: int,
    k: int,
) -> Seq<ShownCell>
    decreases groups.len(),
{
    if groups.len() == 0 || k <= 0 {
        plain(cells, i, groups[0].start)
    } else {
        let g = groups[0];
        plain(cells, i, g.start) + rows_of(cells, expanded, g) + head(
            cells,
            expanded,
            groups.skip(1),
            behind(g),
            k - 1,
        )
    }
}

/// What stands behind group `k`, with no group behind it folded.
spec fn rest(
    cells: Seq<Arc<HistoryCell>>,
    expanded: Seq<CompactToolGroupId>,
    groups: Seq<GroupModel>,
    k: int,
) -> Seq<ShownCell>
    decreases groups.len(),
{
    if groups.len() == 0 || k <= 0 {
        partly(cells, expanded, groups.skip(1), behind(groups[0]), 0)
    } else {
        rest(cells, expanded, groups.skip(1), k - 1)
    }
}

proof fn lemma_partly_none(
    cells: Seq<Arc<HistoryCell>>,
    expanded: Seq<CompactToolGroupId>,
    groups: Seq<GroupModel>,
    i: int,
    n: int,
)
    requires
        n <= 0,
    ensures
        partly(cells, expanded, groups, i, n) == partly(cells, expanded, groups, i, 0),
    decreases groups.len(),
{
    if groups.len() > 0 {
        lemma_partly_none(cells, expanded, groups.skip(1), behind(groups[0]), n - 1);
        lemma_partly_none(cells, expanded, groups.skip(1), behind(groups[0]), -1);
    }
}

/// Folding group `k` changes its cells and nothing else.
proof fn lemma_splits(
    cells: Seq<Arc<HistoryCell>>,
    expanded: Seq<CompactToolGroupId>,
    groups: Seq<GroupModel>,
    i: int,
    k: int,
)
    requires
        0 <= k < groups.len(),
    ensures
        partly(cells, expanded, groups, i, k + 1) == head(cells, expanded, groups, i, k) + rows_of(
            cells,
            expanded,
            groups[k],
        ) + rest(cells, expanded, groups, k),
        partly(cells, expanded, groups, i, k) == head(cells, expanded, groups, i, k)
            + sources_shown(cells, groups[k]) + rest(cells, expanded, groups, k),
    decreases groups.len(),
{
    let g = groups[0];
    let later = groups.skip(1);
    if k == 0 {
        lemma_partly_none(cells, expanded, later, behind(g), -1);
    } else {
        lemma_splits(cells, expanded, later, behind(g), k - 1);
        assert(later[k - 1] == groups[k]);
        let a = plain(cells, i, g.start) + rows_of(cells, expanded, g);
        let b = head(cells, expanded, later, behind(g), k - 1);
        let c = rows_of(cells, expanded, groups[k]);
        let s = sources_shown(cells, groups[k]);
        let d = rest(cells, expanded, groups, k);
        assert(a + (b + c + d) =~= (a + b) + c + d);
        assert(a + (b + s + d) =~= (a + b) + s + d);
    }
}

proof fn lemma_unsealed_members(cells: Seq<Arc<HistoryCell>>, n: int)
    requires
        0 <= n < compact_tool_groups::unsealed(cells).len(),
    ensures
        exists|j: int| 0 <= j < cells.len() && cells[j] == compact_tool_groups::unsealed(cells)[n],
    decreases cells.len(),
{
    if cells.len() > 0 {
        let front = cells.drop_last();
        let shown = compact_tool_groups::unsealed(front);
        if n < shown.len() {
            lemma_unsealed_members(front, n);
            let j = choose|j: int| 0 <= j < front.len() && front[j] == shown[n];
            assert(cells[j] == front[j]);
            assert(compact_tool_groups::unsealed(cells)[n] == shown[n]);
        } else {
            assert(cells[cells.len() - 1] == cells.last());
        }
    }
}

proof fn lemma_plain_members(cells: Seq<Arc<HistoryCell>>, i: int, end: int, n: int)
    requires
        0 <= i <= end <= cells.len(),
        0 <= n < plain(cells, i, end).len(),
    ensures
        plain(cells, i, end)[n] is Source,
        exists|j: int| i <= j < end && cells[j] == plain(cells, i, end)[n]->Source_0,
{
    let part = cells.subrange(i, end);
    lemma_unsealed_members(part, n);
    let j = choose|j: int|
        0 <= j < part.len() && part[j] == compact_tool_groups::unsealed(part)[n];
    assert(cells[i + j] == part[j]);
}

/// What stands before group `k`: sources from before it, and rows of the groups before it.
proof fn lemma_head_shows(
    cells: Seq<Arc<HistoryCell>>,
    expanded: Seq<CompactToolGroupId>,
    groups: Seq<GroupModel>,
    i: int,
    k: int,
    n: int,
)
    requires
        0 <= i,
        in_order(cells, groups, i),
        0 <= k < groups.len(),
        0 <= n < head(cells, expanded, groups, i, k).len(),
    ensures
        groups[k].start >= i,
        match head(cells, expanded, groups, i, k)[n] {
            ShownCell::Source(cell) => exists|j: int| 0 <= j < groups[k].start && cells[j] == cell,
            ShownCell::Work { id, actions, expanded, sources, detail } => exists|j: int|
                0 <= j < k && groups[j].id == id,
        },
    decreases groups.len(),
{
    let g = groups[0];
    let later = groups.skip(1);
    let first = plain(cells, i, g.start);
    let shown = head(cells, expanded, groups, i, k);
    if k == 0 {
        lemma_plain_members(cells, i, g.start, n);
    } else {
        let rows = rows_of(cells, expanded, g);
        let more = head(cells, expanded, later, behind(g), k - 1);
        assert(later[k - 1] == groups[k]);
        lemma_order(cells, groups, i, k);
        if n < first.len() {
            lemma_plain_members(cells, i, g.start, n);
            assert(shown[n] == first[n]);
            let j = choose|j: int| i <= j < g.start && cells[j] == first[n]->Source_0;
            assert(j < groups[k].start);
        } else if n < first.len() + rows.len() {
            let at = n - first.len();
            assert(shown[n] == rows[at]);
            if at == 0 {
                assert(groups[0].id == g.id);
            } else {
                let source = compact_tool_groups::sources_of(cells, g)[at - 1];
                assert(cells[g.start + at - 1] == source);
            }
        } else {
            let at = n - first.len() - rows.len();
            lemma_head_shows(cells, expanded, later, behind(g), k - 1, at);
            assert(shown[n] == more[at]);
            if let ShownCell::Work { id, actions, expanded, sources, detail } = shown[n] {
                let j = choose|j: int| 0 <= j < k - 1 && later[j].id == id;
                assert(groups[j + 1].id == id);
            }
        }
    }
}

proof fn lemma_order(cells: Seq<Arc<HistoryCell>>, groups: Seq<GroupModel>, i: int, k: int)
    requires
        0 <= i,
        in_order(cells, groups, i),
        0 <= k < groups.len(),
    ensures
        i <= groups[k].start,
        groups[k].sources >= 1,
        behind(groups[k]) <= cells.len(),
        k > 0 ==> behind(groups[0]) <= groups[k].start,
    decreases groups.len(),
{
    if k > 0 {
        let later = groups.skip(1);
        assert(later[k - 1] == groups[k]);
        lemma_order(cells, later, behind(groups[0]), k - 1);
    }
}

/// The groups of a conversation lie in order.
proof fn lemma_groups_in_order(cells: Seq<Arc<HistoryCell>>, i: int)
    requires
        0 <= i <= cells.len(),
    ensures
        in_order(cells, compact_tool_groups::groups_from(cells, i), i),
    decreases cells.len() - i,
{
    let groups = compact_tool_groups::groups_from(cells, i);
    if i < cells.len() {
        compact_tool_groups::lemma_group_bounds(cells, i);
        match compact_tool_groups::group_at(cells, i) {
            Some(g) => {
                lemma_groups_in_order(cells, behind(g));
                assert(groups.skip(1) =~= compact_tool_groups::groups_from(cells, behind(g)));
            },
            None => {
                lemma_groups_in_order(cells, i + 1);
                lemma_order_earlier(cells, groups, i + 1, i);
            },
        }
    }
}

proof fn lemma_order_earlier(
    cells: Seq<Arc<HistoryCell>>,
    groups: Seq<GroupModel>,
    i: int,
    earlier: int,
)
    requires
        in_order(cells, groups, i),
        earlier <= i,
    ensures
        in_order(cells, groups, earlier),
{
}

proof fn lemma_plain_step(cells: Seq<Arc<HistoryCell>>, i: int, end: int)
    requires
        0 <= i < end <= cells.len(),
    ensures
        tool_run_projection::seal_of(*cells[i]) is Some ==> plain(cells, i, end) == plain(
            cells,
            i + 1,
            end,
        ),
        tool_run_projection::seal_of(*cells[i]) is None ==> plain(cells, i, end) == seq![
            ShownCell::Source(cells[i]),
        ] + plain(cells, i + 1, end),
    decreases end,
{
    let part = cells.subrange(i, end);
    let later = cells.subrange(i + 1, end);
    lemma_unsealed_first(part);
    assert(part.skip(1) =~= later);
    assert(part[0] == cells[i]);
    assert(plain(cells, i, end) =~= compact_tool_groups::as_sources(
        if tool_run_projection::seal_of(*cells[i]) is Some {
            compact_tool_groups::unsealed(later)
        } else {
            seq![cells[i]] + compact_tool_groups::unsealed(later)
        },
    ));
    if !screen_laws::is_seal(cells[i]) {
        assert(compact_tool_groups::as_sources(
            seq![cells[i]] + compact_tool_groups::unsealed(later),
        ) =~= seq![ShownCell::Source(cells[i])] + plain(cells, i + 1, end));
    }
}

proof fn lemma_unsealed_first(cells: Seq<Arc<HistoryCell>>)
    requires
        cells.len() > 0,
    ensures
        compact_tool_groups::unsealed(cells) == (if tool_run_projection::seal_of(
            *cells[0],
        ) is Some {
            compact_tool_groups::unsealed(cells.skip(1))
        } else {
            seq![cells[0]] + compact_tool_groups::unsealed(cells.skip(1))
        }),
    decreases cells.len(),
{
    reveal_with_fuel(compact_tool_groups::unsealed, 2);
    if cells.len() == 1 {
        assert(cells.drop_last() =~= Seq::empty());
        assert(cells.skip(1) =~= Seq::empty());
        assert(compact_tool_groups::unsealed(cells) =~= (if tool_run_projection::seal_of(
            *cells[0],
        ) is Some {
            Seq::empty()
        } else {
            seq![cells[0]]
        }));
        assert(seq![cells[0]] + Seq::<Arc<HistoryCell>>::empty() =~= seq![cells[0]]);
    } else {
        let front = cells.drop_last();
        lemma_unsealed_first(front);
        assert(front.skip(1) =~= cells.skip(1).drop_last());
        assert(cells.skip(1).last() == cells.last());
        assert(front[0] == cells[0]);
        let tail = compact_tool_groups::unsealed(front.skip(1));
        assert((seq![cells[0]] + tail).push(cells.last()) =~= seq![cells[0]] + tail.push(
            cells.last(),
        ));
    }
}

/// The folded projection is the one with all groups folded, and the unfolded one that with none.
proof fn lemma_ends(
    cells: Seq<Arc<HistoryCell>>,
    expanded: Seq<CompactToolGroupId>,
    i: int,
)
    requires
        0 <= i <= cells.len(),
    ensures
        ({
            let groups = compact_tool_groups::groups_from(cells, i);
            partly(cells, expanded, groups, i, groups.len() as int)
                == compact_tool_groups::folded_from(cells, expanded, i)
        }),
    decreases cells.len() - i,
{
    let len = cells.len() as int;
    let groups = compact_tool_groups::groups_from(cells, i);
    if i == len {
        assert(plain(cells, i, len) =~= Seq::empty());
        assert(compact_tool_groups::folded_from(cells, expanded, i) =~= Seq::empty());
    } else {
        compact_tool_groups::lemma_group_bounds(cells, i);
        match compact_tool_groups::group_at(cells, i) {
            Some(g) => {
                lemma_ends(cells, expanded, behind(g));
                let later = compact_tool_groups::groups_from(cells, behind(g));
                assert(groups.skip(1) =~= later);
                assert(groups[0] == g);
                assert(plain(cells, i, i) =~= Seq::empty()) by {
                    assert(cells.subrange(i, i) =~= Seq::empty());
                }
                let rows = rows_of(cells, expanded, g);
                assert(plain(cells, i, i) + rows =~= rows);
            },
            None => {
                lemma_ends(cells, expanded, i + 1);
                lemma_groups_in_order(cells, i + 1);
                let one = seq![ShownCell::Source(cells[i])];
                if groups.len() == 0 {
                    lemma_plain_step(cells, i, len);
                } else {
                    let g = groups[0];
                    lemma_plain_step(cells, i, g.start);
                    let a = plain(cells, i + 1, g.start);
                    let b = rows_of(cells, expanded, g);
                    let c = partly(
                        cells,
                        expanded,
                        groups.skip(1),
                        behind(g),
                        groups.len() - 1,
                    );
                    assert(one + (a + b + c) =~= (one + a) + b + c);
                }
            },
        }
    }
}

proof fn lemma_plain_concat(cells: Seq<Arc<HistoryCell>>, i: int, middle: int, end: int)
    requires
        0 <= i <= middle <= end <= cells.len(),
    ensures
        plain(cells, i, end) == plain(cells, i, middle) + plain(cells, middle, end),
    decreases middle - i,
{
    if i == middle {
        assert(cells.subrange(i, i) =~= Seq::empty());
        assert(plain(cells, i, i) =~= Seq::empty());
        assert(plain(cells, i, i) + plain(cells, i, end) =~= plain(cells, i, end));
    } else {
        lemma_plain_step(cells, i, end);
        lemma_plain_step(cells, i, middle);
        lemma_plain_concat(cells, i + 1, middle, end);
        let one = seq![ShownCell::Source(cells[i])];
        assert(one + (plain(cells, i + 1, middle) + plain(cells, middle, end)) =~= (one + plain(
            cells,
            i + 1,
            middle,
        )) + plain(cells, middle, end));
    }
}

proof fn lemma_plain_run(cells: Seq<Arc<HistoryCell>>, i: int, end: int)
    requires
        0 <= i <= end <= cells.len(),
        forall|j: int| i <= j < end ==> compact_tool_groups::inside_run(#[trigger] cells[j]),
    ensures
        plain(cells, i, end) == compact_tool_groups::as_sources(cells.subrange(i, end)),
    decreases end - i,
{
    if i < end {
        lemma_plain_step(cells, i, end);
        lemma_plain_run(cells, i + 1, end);
        assert(compact_tool_groups::as_sources(cells.subrange(i, end)) =~= seq![
            ShownCell::Source(cells[i]),
        ] + compact_tool_groups::as_sources(cells.subrange(i + 1, end)));
    } else {
        assert(cells.subrange(i, i) =~= Seq::empty());
        assert(plain(cells, i, i) =~= compact_tool_groups::as_sources(cells.subrange(i, i)));
    }
}

/// With no group folded, every cell shows as it is.
proof fn lemma_nothing_folded(
    cells: Seq<Arc<HistoryCell>>,
    expanded: Seq<CompactToolGroupId>,
    groups: Seq<GroupModel>,
    i: int,
)
    requires
        0 <= i <= cells.len(),
        in_order(cells, groups, i),
    ensures
        partly(cells, expanded, groups, i, 0) == plain(cells, i, cells.len() as int),
    decreases groups.len(),
{
    let len = cells.len() as int;
    if groups.len() > 0 {
        let g = groups[0];
        let end = g.start + g.sources;
        lemma_partly_none(cells, expanded, groups.skip(1), behind(g), -1);
        lemma_nothing_folded(cells, expanded, groups.skip(1), behind(g));
        lemma_plain_run(cells, g.start, end);
        lemma_plain_step(cells, end, len);
        lemma_plain_concat(cells, g.start, end, len);
        lemma_plain_concat(cells, i, g.start, len);
        assert(sources_shown(cells, g) == plain(cells, g.start, end));
        let a = plain(cells, i, g.start);
        let b = plain(cells, g.start, end);
        let c = plain(cells, end + 1, len);
        assert(a + (b + c) =~= a + b + c);
    }
}

pub proof fn lemma_group_row_after(a: Seq<ShownCell>, b: Seq<ShownCell>, id: CompactToolGroupId)
    requires
        forall|k: int|
            0 <= k < a.len() ==> compact_tool_groups::header_hit(#[trigger] a[k], 0) != Some(id),
        b.len() > 0,
        compact_tool_groups::header_hit(b[0], 0) == Some(id),
    ensures
        screen_model::group_position(a + b, id) == Some(a.len() as int),
    decreases b.len(),
{
    let all = a + b;
    if b.len() == 1 {
        assert(all.drop_last() =~= a);
        screen_laws::lemma_no_group_row(a, id);
        assert(all.last() == b[0]);
    } else {
        assert(all.drop_last() =~= a + b.drop_last());
        assert(b.drop_last()[0] == b[0]);
        lemma_group_row_after(a, b.drop_last(), id);
    }
}

proof fn lemma_found_at(groups: Seq<GroupModel>, k: int)
    requires
        0 <= k < groups.len(),
        compact_tool_groups::group_ids(groups).no_duplicates(),
    ensures
        compact_tool_groups::group_with_id(groups, groups[k].id) == Some(groups[k]),
    decreases groups.len(),
{
    let ids = compact_tool_groups::group_ids(groups);
    assert(ids[0] == groups[0].id);
    assert(ids[k] == groups[k].id);
    if k > 0 {
        let later = groups.skip(1);
        assert(compact_tool_groups::group_ids(later) =~= ids.skip(1));
        assert(later[k - 1] == groups[k]);
        lemma_found_at(later, k - 1);
    }
}

/// A view that takes changes at once.
spec fn settled(view: ViewportModel) -> bool {
    !view.selecting() && view.deferred is None && view.deferred_mode is None
}

proof fn lemma_range(
    view: ViewportModel,
    width: u16,
    start: int,
    count: int,
    replacement: Seq<ShownCell>,
)
    requires
        settled(view),
        0 <= start,
        0 <= count,
        start + count <= view.cells.len(),
    ensures
        ({
            let n = view.with_range(width, start, count, replacement);
            &&& n.cells == view.cells.take(start) + replacement + view.cells.skip(start + count)
            &&& settled(n)
        }),
{
    reveal(ViewportModel::with_range);
}

/// The screen shows its sources with the first `n` groups folded.
spec fn shows_partly(m: ScreenModel, n: int) -> bool {
    &&& settled(m.view)
    &&& m.sources.len() < usize::MAX
    &&& screen_laws::distinct(m.sources)
    &&& screen_model::valid_groups(m.sources).no_duplicates()
    &&& m.view.cells == partly(
        m.sources,
        m.expanded,
        compact_tool_groups::groups_of(m.sources),
        0,
        n,
    )
}

/// Everything but the view and what waits is as it was.
spec fn same_but_view(a: ScreenModel, b: ScreenModel) -> bool {
    a.sources == b.sources && a.expanded == b.expanded && a.conversation_area
        == b.conversation_area
}

proof fn lemma_no_earlier_row(
    cells: Seq<Arc<HistoryCell>>,
    expanded: Seq<CompactToolGroupId>,
    k: int,
)
    requires
        screen_model::valid_groups(cells).no_duplicates(),
        0 <= k < compact_tool_groups::groups_of(cells).len(),
    ensures
        ({
            let groups = compact_tool_groups::groups_of(cells);
            let before = head(cells, expanded, groups, 0, k);
            forall|n: int|
                0 <= n < before.len() ==> compact_tool_groups::header_hit(
                    #[trigger] before[n],
                    0,
                ) != Some(groups[k].id)
        }),
{
    let groups = compact_tool_groups::groups_of(cells);
    let ids = compact_tool_groups::group_ids(groups);
    let before = head(cells, expanded, groups, 0, k);
    lemma_groups_in_order(cells, 0);
    assert forall|n: int| 0 <= n < before.len() implies compact_tool_groups::header_hit(
        #[trigger] before[n],
        0,
    ) != Some(groups[k].id) by {
        lemma_head_shows(cells, expanded, groups, 0, k, n);
        if let ShownCell::Work { id, actions, expanded, sources, detail } = before[n] {
            let j = choose|j: int| 0 <= j < k && groups[j].id == id;
            assert(ids[j] == id);
            assert(ids[k] == groups[k].id);
        }
    }
}

/// One group unfolded.
proof fn lemma_unfold_one(m: ScreenModel, k: int)
    requires
        shows_partly(m, k + 1),
        0 <= k < compact_tool_groups::groups_of(m.sources).len(),
    ensures
        ({
            let groups = compact_tool_groups::groups_of(m.sources);
            let n = m.group_unfolded(groups[k].id).screen;
            shows_partly(n, k) && same_but_view(m, n) && n.compact == m.compact
        }),
{
    reveal(ScreenModel::group_unfolded);
    let groups = compact_tool_groups::groups_of(m.sources);
    let g = groups[k];
    lemma_groups_in_order(m.sources, 0);
    lemma_order(m.sources, groups, 0, k);
    lemma_splits(m.sources, m.expanded, groups, 0, k);
    lemma_found_at(groups, k);
    lemma_no_earlier_row(m.sources, m.expanded, k);
    let before = head(m.sources, m.expanded, groups, 0, k);
    let rows = rows_of(m.sources, m.expanded, g);
    let after = rest(m.sources, m.expanded, groups, k);
    assert(m.view.cells =~= before + (rows + after));
    assert((rows + after)[0] == rows[0]);
    lemma_group_row_after(before, rows + after, g.id);
    assert(rows.len() == m.group_extent(g, g.id));
    lemma_range(
        m.view,
        m.width(),
        before.len() as int,
        rows.len() as int,
        sources_shown(m.sources, g),
    );
    assert(m.view.cells.take(before.len() as int) =~= before);
    assert(m.view.cells.skip((before.len() + rows.len()) as int) =~= after);
}

/// The groups unfolded, the last one first.
proof fn lemma_unfold_all(m: ScreenModel, k: int)
    requires
        shows_partly(m, k),
        0 <= k <= compact_tool_groups::groups_of(m.sources).len(),
    ensures
        ({
            let ids = screen_model::valid_groups(m.sources);
            let n = m.groups_unfolded(ids.take(k)).screen;
            shows_partly(n, 0) && same_but_view(m, n) && n.compact == m.compact
        }),
    decreases k,
{
    let ids = screen_model::valid_groups(m.sources);
    if k > 0 {
        lemma_unfold_one(m, k - 1);
        assert(ids.take(k).drop_last() =~= ids.take(k - 1));
        let n = m.group_unfolded(ids[k - 1]).screen;
        lemma_unfold_all(n, k - 1);
    }
}

/// One group folded.
proof fn lemma_fold_one(m: ScreenModel, k: int)
    requires
        shows_partly(m, k),
        0 <= k < compact_tool_groups::groups_of(m.sources).len(),
    ensures
        ({
            let groups = compact_tool_groups::groups_of(m.sources);
            let n = m.group_projected(
                groups[k].id,
                m.expanded.contains(groups[k].id),
                false,
                RangeReplacementReason::UserToggle,
            ).screen;
            shows_partly(n, k + 1) && same_but_view(m, n) && n.compact == m.compact
        }),
{
    reveal(ScreenModel::group_projected);
    let groups = compact_tool_groups::groups_of(m.sources);
    let g = groups[k];
    lemma_groups_in_order(m.sources, 0);
    lemma_order(m.sources, groups, 0, k);
    lemma_splits(m.sources, m.expanded, groups, 0, k);
    lemma_found_at(groups, k);
    lemma_no_earlier_row(m.sources, m.expanded, k);
    let before = head(m.sources, m.expanded, groups, 0, k);
    let sources = sources_shown(m.sources, g);
    let rows = rows_of(m.sources, m.expanded, g);
    let after = rest(m.sources, m.expanded, groups, k);
    assert(m.view.cells =~= before + (sources + after));
    assert forall|n: int| 0 <= n < m.view.cells.len() implies compact_tool_groups::header_hit(
        #[trigger] m.view.cells[n],
        0,
    ) != Some(g.id) by {
        if n < before.len() {
            assert(m.view.cells[n] == before[n]);
        } else if n < before.len() + sources.len() {
            assert(m.view.cells[n] == sources[n - before.len()]);
        } else {
            let at = n - before.len() - sources.len();
            assert(m.view.cells[n] == after[at]);
            lemma_rest_shows(m.sources, m.expanded, groups, 0, k, at);
        }
    }
    screen_laws::lemma_no_group_row(m.view.cells, g.id);
    let first = m.sources[g.start];
    assert forall|n: int| 0 <= n < before.len() implies (
    #[trigger] before[n] matches ShownCell::Source(cell) ==> cell.id != first.id) by {
        lemma_head_shows(m.sources, m.expanded, groups, 0, k, n);
        if let ShownCell::Source(cell) = before[n] {
            let j = choose|j: int| 0 <= j < g.start && m.sources[j] == cell;
            assert(m.sources[j].id != m.sources[g.start].id);
        }
    }
    assert((sources + after)[0] == ShownCell::Source(first));
    screen_laws::lemma_record_after(before, sources + after, first.id);
    lemma_range(
        m.view,
        m.width(),
        before.len() as int,
        g.sources,
        rows,
    );
    assert(m.view.cells.take(before.len() as int) =~= before);
    assert(m.view.cells.skip(before.len() + g.sources) =~= after);
}

/// What stands behind group `k` with no group behind it folded: no rows of groups.
proof fn lemma_rest_shows(
    cells: Seq<Arc<HistoryCell>>,
    expanded: Seq<CompactToolGroupId>,
    groups: Seq<GroupModel>,
    i: int,
    k: int,
    n: int,
)
    requires
        0 <= i,
        in_order(cells, groups, i),
        0 <= k < groups.len(),
        0 <= n < rest(cells, expanded, groups, k).len(),
    ensures
        rest(cells, expanded, groups, k)[n] is Source,
    decreases groups.len(),
{
    if k == 0 {
        lemma_nothing_folded(cells, expanded, groups.skip(1), behind(groups[0]));
        lemma_plain_members(cells, behind(groups[0]), cells.len() as int, n);
    } else {
        lemma_rest_shows(cells, expanded, groups.skip(1), behind(groups[0]), k - 1, n);
    }
}

/// The groups folded in order.
proof fn lemma_fold_all(m: ScreenModel, k: int)
    requires
        shows_partly(m, 0),
        0 <= k <= compact_tool_groups::groups_of(m.sources).len(),
    ensures
        ({
            let ids = screen_model::valid_groups(m.sources);
            let n = m.groups_folded(ids.take(k)).screen;
            shows_partly(n, k) && same_but_view(m, n) && n.compact == m.compact
        }),
    decreases k,
{
    let ids = screen_model::valid_groups(m.sources);
    if k > 0 {
        lemma_fold_all(m, k - 1);
        assert(ids.take(k).drop_last() =~= ids.take(k - 1));
        let n = m.groups_folded(ids.take(k - 1)).screen;
        lemma_fold_one(n, k - 1);
    }
}

/// Showing all groups shows every cell as it is, and folding again brings back what was shown,
/// with the same groups expanded.
pub proof fn law_show_all_and_back_restores_the_folds(m: ScreenModel)
    requires
        m.view.wf(),
        !m.view.selecting(),
        m.compact,
        screen_laws::in_line(m),
        // Records and runs are told apart by their numbers.
        screen_laws::distinct(m.sources),
        screen_model::valid_groups(m.sources).no_duplicates(),
        m.sources.len() < usize::MAX,
    ensures
        ({
            let open = m.with_compact(false).screen;
            let back = open.with_compact(true).screen;
            &&& screen_laws::in_line(open)
            &&& open.view.cells == compact_tool_groups::as_sources(
                compact_tool_groups::unsealed(m.sources),
            )
            &&& open.expanded == m.expanded
            &&& screen_laws::in_line(back)
            &&& back.view.cells == m.view.cells
            &&& back.expanded == m.expanded
            &&& back.sources == m.sources
        }),
{
    reveal(ScreenModel::with_compact);
    let cells = m.sources;
    let groups = compact_tool_groups::groups_of(cells);
    let ids = screen_model::valid_groups(cells);
    let count = groups.len() as int;
    lemma_ends(cells, m.expanded, 0);
    lemma_groups_in_order(cells, 0);
    lemma_nothing_folded(cells, m.expanded, groups, 0);
    assert(cells.subrange(0, cells.len() as int) =~= cells);
    assert(ids.take(count) =~= ids);
    lemma_unfold_all(m, count);
    let open = m.with_compact(false).screen;
    let start = ScreenModel { compact: true, ..open };
    lemma_fold_all(start, count);
}

/// What stands behind group `k`, with all groups behind it folded.
spec fn tail(
    cells: Seq<Arc<HistoryCell>>,
    expanded: Seq<CompactToolGroupId>,
    groups: Seq<GroupModel>,
    k: int,
) -> Seq<ShownCell>
    decreases groups.len(),
{
    if groups.len() == 0 || k <= 0 {
        partly(cells, expanded, groups.skip(1), behind(groups[0]), groups.len() - 1)
    } else {
        tail(cells, expanded, groups.skip(1), k - 1)
    }
}

proof fn lemma_full_split(
    cells: Seq<Arc<HistoryCell>>,
    expanded: Seq<CompactToolGroupId>,
    groups: Seq<GroupModel>,
    i: int,
    k: int,
)
    requires
        0 <= k < groups.len(),
    ensures
        partly(cells, expanded, groups, i, groups.len() as int) == head(
            cells,
            expanded,
            groups,
            i,
            k,
        ) + rows_of(cells, expanded, groups[k]) + tail(cells, expanded, groups, k),
    decreases groups.len(),
{
    if k > 0 {
        let g = groups[0];
        let later = groups.skip(1);
        lemma_full_split(cells, expanded, later, behind(g), k - 1);
        assert(later[k - 1] == groups[k]);
        let a = plain(cells, i, g.start) + rows_of(cells, expanded, g);
        let b = head(cells, expanded, later, behind(g), k - 1);
        let c = rows_of(cells, expanded, groups[k]);
        let d = tail(cells, expanded, groups, k);
        assert(a + (b + c + d) =~= (a + b) + c + d);
    }
}

/// Whether two lists hold the same ones of the groups.
spec fn same_open(
    a: Seq<CompactToolGroupId>,
    b: Seq<CompactToolGroupId>,
    groups: Seq<GroupModel>,
) -> bool {
    forall|j: int|
        0 <= j < groups.len() ==> a.contains((#[trigger] groups[j]).id) == b.contains(groups[j].id)
}

proof fn lemma_same_partly(
    cells: Seq<Arc<HistoryCell>>,
    a: Seq<CompactToolGroupId>,
    b: Seq<CompactToolGroupId>,
    groups: Seq<GroupModel>,
    i: int,
    n: int,
)
    requires
        same_open(a, b, groups),
    ensures
        partly(cells, a, groups, i, n) == partly(cells, b, groups, i, n),
    decreases groups.len(),
{
    if groups.len() > 0 {
        let later = groups.skip(1);
        assert forall|j: int| 0 <= j < later.len() implies a.contains((#[trigger] later[j]).id)
            == b.contains(later[j].id) by {
            assert(later[j] == groups[j + 1]);
        }
        assert(a.contains(groups[0].id) == b.contains(groups[0].id));
        lemma_same_partly(cells, a, b, later, behind(groups[0]), n - 1);
    }
}

/// Lists that differ in group `k` alone show the same before and behind it.
proof fn lemma_same_around(
    cells: Seq<Arc<HistoryCell>>,
    a: Seq<CompactToolGroupId>,
    b: Seq<CompactToolGroupId>,
    groups: Seq<GroupModel>,
    i: int,
    k: int,
)
    requires
        0 <= k < groups.len(),
        forall|j: int|
            0 <= j < groups.len() && j != k ==> a.contains((#[trigger] groups[j]).id)
                == b.contains(groups[j].id),
    ensures
        head(cells, a, groups, i, k) == head(cells, b, groups, i, k),
        tail(cells, a, groups, k) == tail(cells, b, groups, k),
    decreases groups.len(),
{
    let later = groups.skip(1);
    assert forall|j: int| 0 <= j < later.len() && j != k - 1 implies a.contains(
        (#[trigger] later[j]).id,
    ) == b.contains(later[j].id) by {
        assert(later[j] == groups[j + 1]);
    }
    if k == 0 {
        assert(same_open(a, b, later));
        lemma_same_partly(cells, a, b, later, behind(groups[0]), groups.len() - 1);
    } else {
        assert(a.contains(groups[0].id) == b.contains(groups[0].id));
        lemma_same_around(cells, a, b, later, behind(groups[0]), k - 1);
    }
}

/// The list of expanded groups after one of them was toggled.
spec fn flipped(expanded: Seq<CompactToolGroupId>, id: CompactToolGroupId) -> Seq<
    CompactToolGroupId,
> {
    if expanded.contains(id) {
        screen_model::without(expanded, id)
    } else {
        screen_model::including(expanded, id)
    }
}

proof fn lemma_flipped(
    expanded: Seq<CompactToolGroupId>,
    id: CompactToolGroupId,
    other: CompactToolGroupId,
)
    ensures
        flipped(expanded, id).contains(other) == (if other == id {
            !expanded.contains(id)
        } else {
            expanded.contains(other)
        }),
{
    screen_model::lemma_without(expanded, id);
    if !expanded.contains(id) {
        let more = expanded.push(id);
        assert(more[expanded.len() as int] == id);
        if expanded.contains(other) {
            let at = choose|at: int| 0 <= at < expanded.len() && expanded[at] == other;
            assert(more[at] == other);
        }
    }
}

proof fn lemma_toggle(m: ScreenModel, k: int, scroll: usize)
    requires
        settled(m.view),
        m.compact,
        screen_laws::in_line(m),
        screen_model::valid_groups(m.sources).no_duplicates(),
        m.sources.len() < usize::MAX,
        0 <= k < compact_tool_groups::groups_of(m.sources).len(),
    ensures
        ({
            let id = compact_tool_groups::groups_of(m.sources)[k].id;
            let step = m.group_toggled(id, scroll);
            &&& step.done
            &&& settled(step.screen.view)
            &&& screen_laws::in_line(step.screen)
            &&& step.screen.compact
            &&& step.screen.sources == m.sources
            &&& step.screen.expanded == flipped(m.expanded, id)
        }),
{
    reveal(ScreenModel::group_toggled);
    reveal(ScreenModel::group_projected);
    let cells = m.sources;
    let groups = compact_tool_groups::groups_of(cells);
    let ids = compact_tool_groups::group_ids(groups);
    let g = groups[k];
    let after = flipped(m.expanded, g.id);
    lemma_flipped(m.expanded, g.id, g.id);
    assert forall|j: int| 0 <= j < groups.len() && j != k implies m.expanded.contains(
        (#[trigger] groups[j]).id,
    ) == after.contains(groups[j].id) by {
        assert(ids[j] == groups[j].id && ids[k] == g.id);
        lemma_flipped(m.expanded, g.id, groups[j].id);
    }
    lemma_groups_in_order(cells, 0);
    lemma_order(cells, groups, 0, k);
    lemma_ends(cells, m.expanded, 0);
    lemma_ends(cells, after, 0);
    lemma_full_split(cells, m.expanded, groups, 0, k);
    lemma_full_split(cells, after, groups, 0, k);
    lemma_same_around(cells, m.expanded, after, groups, 0, k);
    lemma_found_at(groups, k);
    lemma_no_earlier_row(cells, m.expanded, k);
    let before = head(cells, m.expanded, groups, 0, k);
    let rows = rows_of(cells, m.expanded, g);
    let behind = tail(cells, m.expanded, groups, k);
    assert(m.view.cells =~= before + (rows + behind));
    assert((rows + behind)[0] == rows[0]);
    lemma_group_row_after(before, rows + behind, g.id);
    assert(rows.len() == m.group_extent(g, g.id));
    lemma_range(
        m.view,
        m.width(),
        before.len() as int,
        rows.len() as int,
        rows_of(cells, after, g),
    );
    assert(m.view.cells.take(before.len() as int) =~= before);
    assert(m.view.cells.skip((before.len() + rows.len()) as int) =~= behind);
}

/// A click on a group's row shows its cells below it in place, and a second one brings back what
/// was shown. Each time the screen shows what a projection of all sources from the start would
/// show.
pub proof fn law_toggling_twice_restores_the_screen(
    m: ScreenModel,
    id: CompactToolGroupId,
    first: usize,
    second: usize,
)
    requires
        m.view.wf(),
        !m.view.selecting(),
        m.compact,
        screen_laws::in_line(m),
        screen_model::valid_groups(m.sources).contains(id),
        // Runs are told apart by their numbers.
        screen_model::valid_groups(m.sources).no_duplicates(),
        m.sources.len() < usize::MAX,
    ensures
        ({
            let open = m.group_toggled(id, first);
            let back = open.screen.group_toggled(id, second);
            &&& open.done && back.done
            &&& screen_laws::in_line(open.screen)
            &&& screen_laws::in_line(back.screen)
            &&& back.screen.view.cells == m.view.cells
            &&& back.screen.sources == m.sources
            &&& open.bumps == screen_model::id_scans(m.sources, id) + seq![
                Tally::Metric(QuietMetric::RangeReplacementUserToggle),
                Tally::Metric(QuietMetric::RangeReplacement),
            ]
        }),
{
    let cells = m.sources;
    let groups = compact_tool_groups::groups_of(cells);
    let ids = screen_model::valid_groups(cells);
    let k = choose|k: int| 0 <= k < ids.len() && ids[k] == id;
    assert(groups[k].id == id);
    lemma_toggle(m, k, first);
    let open = m.group_toggled(id, first).screen;
    lemma_toggle(open, k, second);
    let again = flipped(flipped(m.expanded, id), id);
    assert forall|j: int| 0 <= j < groups.len() implies m.expanded.contains(
        (#[trigger] groups[j]).id,
    ) == again.contains(groups[j].id) by {
        lemma_flipped(m.expanded, id, id);
        lemma_flipped(m.expanded, id, groups[j].id);
        lemma_flipped(flipped(m.expanded, id), id, groups[j].id);
    }
    lemma_same_partly(cells, m.expanded, again, groups, 0, groups.len() as int);
    lemma_ends(cells, m.expanded, 0);
    lemma_ends(cells, again, 0);
    assert(m.group_toggled(id, first).bumps == screen_model::id_scans(m.sources, id) + seq![
        Tally::Metric(QuietMetric::RangeReplacementUserToggle),
        Tally::Metric(QuietMetric::RangeReplacement),
    ]) by {
        reveal(ScreenModel::group_toggled);
        reveal(ScreenModel::group_projected);
    }
}

} // verus!
