//! Laws of the conversation viewport.

use vstd::prelude::*;

use crate::compact_tool_groups::ShownCell;
use crate::geometry::Rect;
use crate::history_cell::HistoryRenderMode;
use crate::ledger::Tally;
use crate::pager_content;
use crate::pager_content::BodyModel;
use crate::pager_content::ItemModel;
use crate::pager_layout;
use crate::quiet_metrics::QuietMetric;
use crate::viewport_model;
use crate::viewport_model::ActiveCellRenderKey;
use crate::viewport_model::LiveModel;
use crate::viewport_model::LiveTailKey;
use crate::viewport_model::RestoredSelection;
use crate::viewport_model::ViewportModel;

verus! {

/// What is on the screen stays as it is.
pub open spec fn same_picture(a: ViewportModel, b: ViewportModel) -> bool {
    &&& a.items == b.items
    &&& a.cells == b.cells
    &&& a.mode == b.mode
    &&& a.live == b.live
    &&& a.scroll == b.scroll
    &&& a.following == b.following
    &&& a.select == b.select
}

/// While text is being selected, no change of the conversation moves anything under the pointer:
/// not a new cell, not other cells, not another render mode, and not the live tail at the width
/// of the selection.
pub proof fn law_selection_freezes_the_picture(
    m: ViewportModel,
    cell: ShownCell,
    cells: Seq<ShownCell>,
    width: u16,
    start: int,
    count: int,
    mode: HistoryRenderMode,
    active: Option<ActiveCellRenderKey>,
    fresh: LiveModel,
)
    requires
        m.selecting(),
    ensures
        same_picture(m, m.pushed(cell)),
        same_picture(m, m.with_cells(cells)),
        same_picture(m, m.with_range(width, start, count, cells)),
        same_picture(m, m.with_mode(mode)),
        (m.select.cache matches Some(cache) && cache.width == width) ==> same_picture(
            m,
            m.with_live(width, active, fresh),
        ),
{
    reveal(ViewportModel::pushed);
    reveal(ViewportModel::with_cells);
    reveal(ViewportModel::with_range);
    reveal(ViewportModel::with_live);
}

/// The changes that were made while text was being selected are there once the selection ends.
pub proof fn law_waiting_changes_take_effect(
    m: ViewportModel,
    cell: ShownCell,
    cells: Seq<ShownCell>,
    width: u16,
    start: int,
    count: int,
    mode: HistoryRenderMode,
)
    requires
        m.selecting(),
    ensures
        m.cancelled().cells == m.upcoming(),
        m.pushed(cell).cancelled().cells == m.upcoming().push(cell),
        m.with_cells(cells).cancelled().cells == cells,
        m.with_range(width, start, count, cells).cancelled().cells == viewport_model::spliced(
            m.upcoming(),
            m.range_start(start),
            m.range_end(start, count),
            cells,
        ),
        m.with_mode(mode).cancelled().mode == mode,
        !m.cancelled().selecting(),
        m.cancelled().deferred is None && m.cancelled().deferred_mode is None,
{
    reveal(ViewportModel::pushed);
    reveal(ViewportModel::with_cells);
    reveal(ViewportModel::with_range);
}

/// A view at the end stays there when the conversation changes, and a view that was scrolled
/// away, or that is held for a frame, stays where it is when a cell comes behind the others.
pub proof fn law_only_a_view_at_the_end_follows(
    m: ViewportModel,
    cell: ShownCell,
    width: u16,
    active: Option<ActiveCellRenderKey>,
    fresh: LiveModel,
)
    requires
        m.wf(),
        !m.selecting(),
    ensures
        m.follows() ==> m.pushed(cell).following && m.pushed(cell).scroll == usize::MAX,
        !m.follows() ==> m.pushed(cell).scroll == m.scroll && m.pushed(cell).following
            == m.following,
        m.follows() && m.live_rebuilds(width, active) ==> m.with_live(
            width,
            active,
            fresh,
        ).scroll == usize::MAX,
        !m.follows() ==> m.with_live(width, active, fresh).scroll == m.scroll,
{
    reveal(ViewportModel::pushed);
    reveal(ViewportModel::with_live);
}

/// The live tail never changes what is committed.
pub proof fn law_live_tail_keeps_committed_cells(
    m: ViewportModel,
    width: u16,
    active: Option<ActiveCellRenderKey>,
    fresh: LiveModel,
)
    requires
        m.wf(),
        !m.selecting(),
    ensures
        m.with_live(width, active, fresh).cells == m.cells,
        m.with_live(width, active, fresh).committed_items() == m.committed_items(),
        m.with_live(width, active, fresh).live.key == ViewportModel::next_key(width, active),
{
    reveal(ViewportModel::with_live);
    let n = m.with_live(width, active, fresh);
    assert(n.committed_items() =~= m.committed_items());
}

/// A live tail that was shown for a key is not built again for the same key.
pub proof fn law_same_live_tail_is_kept(
    m: ViewportModel,
    width: u16,
    active: Option<ActiveCellRenderKey>,
    fresh: LiveModel,
    other: LiveModel,
)
    requires
        m.wf(),
        !m.selecting(),
    ensures
        !m.with_live(width, active, fresh).live_rebuilds(width, active),
        m.with_live(width, active, fresh).with_live(width, active, other) == m.with_live(
            width,
            active,
            fresh,
        ),
{
    reveal(ViewportModel::with_live);
}

proof fn lemma_same_steps(a: Seq<u16>, b: Seq<u16>, i: int, j: int, k: int)
    requires
        0 <= i,
        0 <= j,
        0 <= k,
        i + k <= a.len(),
        j + k <= b.len(),
        forall|d: int| #![trigger a[i + d]] 0 <= d < k ==> a[i + d] == b[j + d],
        pager_layout::top_of(a, i + k) < usize::MAX,
        pager_layout::top_of(b, j + k) < usize::MAX,
    ensures
        pager_layout::top_of(a, i + k) - pager_layout::top_of(a, i) == pager_layout::top_of(
            b,
            j + k,
        ) - pager_layout::top_of(b, j),
    decreases k,
{
    if k > 0 {
        pager_layout::lemma_top_of_monotone(a, i + k - 1, i + k);
        pager_layout::lemma_top_of_monotone(b, j + k - 1, j + k);
        assert(a[i + (k - 1)] == b[j + (k - 1)]);
        lemma_same_steps(a, b, i, j, k - 1);
    }
}

proof fn lemma_heights_take(items: Seq<ItemModel>, width: u16, n: int)
    requires
        0 <= n <= items.len(),
    ensures
        pager_content::item_top(items, width, n) == pager_content::item_top(
            items.take(n),
            width,
            n,
        ),
{
    let a = pager_content::heights_of(items, width);
    let b = pager_content::heights_of(items.take(n), width);
    pager_layout::lemma_top_of_prefix(a, b, n);
}

/// Cells that are replaced above the view do not move what it shows: every cell behind them
/// stays on the same row of the screen.
pub proof fn law_replacement_above_keeps_the_view(
    m: ViewportModel,
    width: u16,
    from: int,
    to: int,
    replacement: Seq<ShownCell>,
    j: int,
)
    requires
        m.wf(),
        !m.selecting(),
        !m.follows(),
        0 <= from <= to <= j <= m.cells.len(),
        pager_content::item_top(m.items, width, to) <= m.scroll,
        // The rows fit in the counter, before and after.
        pager_content::item_top(m.items, width, m.cells.len() as int) < usize::MAX,
        pager_content::item_top(
            m.replaced_items(from, to, replacement),
            width,
            from + replacement.len() + m.cells.len() - to,
        ) < usize::MAX,
        m.scroll + pager_content::item_top(
            m.replaced_items(from, to, replacement),
            width,
            from + replacement.len(),
        ) - pager_content::item_top(m.items, width, to) <= usize::MAX,
    ensures
        ({
            let n = m.with_range(width, from, to - from, replacement);
            pager_content::item_top(n.items, width, j - to + from + replacement.len()) - n.scroll
                == pager_content::item_top(m.items, width, j) - m.scroll
        }),
{
    reveal(ViewportModel::with_range);
    let n = m.with_range(width, from, to - from, replacement);
    let before = m.committed_items();
    let after = m.replaced_items(from, to, replacement);
    let len = m.cells.len() as int;
    let end = from + replacement.len();
    let a = pager_content::heights_of(before, width);
    let b = pager_content::heights_of(after, width);
    assert(m.invalidated().committed_items() =~= before);
    assert(m.invalidated().replaced_items(from, to, replacement) =~= after);
    assert(after.len() == end + len - to);
    // Tops in the whole list are tops among the committed cells.
    assert forall|i: int| 0 <= i <= len implies #[trigger] pager_content::item_top(
        m.items,
        width,
        i,
    ) == pager_layout::top_of(a, i) by {
        lemma_heights_take(m.items, width, i);
        lemma_heights_take(before, width, i);
        assert(m.items.take(i) =~= before.take(i));
    }
    let total = pager_content::item_top(m.items, width, len);
    assert(total == pager_layout::top_of(a, len));
    let k = j - to;
    lemma_heights_take(n.items, width, end + k);
    lemma_heights_take(after, width, end + k);
    assert(n.items.take(end + k) =~= after.take(end + k));
    assert(pager_content::item_top(n.items, width, end + k) == pager_layout::top_of(b, end + k));
    // The same cells stand before the range, and the same ones behind it.
    pager_layout::lemma_top_of_prefix(a, b, from);
    pager_layout::lemma_top_of_monotone(a, j, len);
    pager_layout::lemma_top_of_monotone(b, end + k, end + len - to);
    pager_layout::lemma_top_of_monotone(a, from, to);
    pager_layout::lemma_top_of_monotone(b, from, end);
    assert forall|d: int| #![trigger a[to + d]] 0 <= d < k implies a[to + d] == b[end + d] by {
        assert(after[end + d] == before[to + d]);
    }
    lemma_same_steps(a, b, to, end, k);
    assert(pager_content::item_top(m.items, width, to) == pager_layout::top_of(a, to));
    assert(pager_content::item_top(m.items, width, j) == pager_layout::top_of(a, j));
    let old_height = pager_layout::top_of(a, to) - pager_layout::top_of(a, from);
    let new_height = pager_layout::top_of(b, end) - pager_layout::top_of(b, from);
    pager_layout::lemma_top_of_bounds(a, from);
    assert(m.invalidated().replaced_offset(width, from, to, replacement)
        == viewport_model::moved_offset(m.scroll as int, old_height, new_height));
    assert(pager_content::item_top(m.invalidated().committed_items(), width, to) <= m.scroll);
    assert(n.scroll == m.scroll + new_height - old_height);
}

/// A lane of the live tail changes only with its own part of the key: at one width, a change of
/// the other lanes leaves it as it is and does not count it as rebuilt.
pub proof fn law_lanes_change_on_their_own(
    live: LiveModel,
    next: Option<LiveTailKey>,
    fresh: LiveModel,
)
    requires
        viewport_model::width_of(live.key) == viewport_model::width_of(next),
    ensures
        viewport_model::primary_of(live.key) == viewport_model::primary_of(next)
            ==> viewport_model::live_after(live, next, fresh).primary == live.primary
            && !viewport_model::lane_bumps(live, next).contains(Tally::Metric(QuietMetric::LivePrimaryRebuild)),
        viewport_model::token_of(live.key) == viewport_model::token_of(next)
            ==> viewport_model::live_after(live, next, fresh).token == live.token
            && !viewport_model::lane_bumps(live, next).contains(Tally::Metric(QuietMetric::LiveTokenRebuild)),
        viewport_model::rate_limit_of(live.key) == viewport_model::rate_limit_of(next)
            ==> viewport_model::live_after(live, next, fresh).rate_limit == live.rate_limit
            && !viewport_model::lane_bumps(live, next).contains(
            Tally::Metric(QuietMetric::LiveRateLimitRebuild),
        ),
{
}

/// The row of a group takes one row of the screen, however narrow it is.
pub proof fn law_work_rows_take_one_row(cell: ShownCell, width: u16)
    requires
        cell is Work,
        width > 0,
    ensures
        pager_content::body_height(
            BodyModel::Cell { cell, mode: HistoryRenderMode::Rich },
            width,
        ) == 1,
{
}

/// Whether a cell carries on the text of the one before it.
pub open spec fn carries_on(cell: ShownCell) -> bool {
    cell matches ShownCell::Source(source) && source.stream_continuation
}

/// While nothing is selected, a change of the conversation is there at once: a new cell comes
/// behind the others, other cells take their place, a range of cells is exchanged, and the render
/// mode is the one that was asked for. No change touches what it does not speak of.
pub proof fn law_changes_are_there_at_once(
    m: ViewportModel,
    cell: ShownCell,
    cells: Seq<ShownCell>,
    width: u16,
    from: int,
    to: int,
    mode: HistoryRenderMode,
)
    requires
        m.wf(),
        !m.selecting(),
        0 <= from <= to <= m.cells.len(),
    ensures
        m.pushed(cell).cells == m.cells.push(cell),
        m.pushed(cell).mode == m.mode,
        m.pushed(cell).live == m.live,
        m.with_cells(cells).cells == cells,
        m.with_cells(cells).mode == m.mode,
        m.with_cells(cells).live.key is None,
        m.with_range(width, from, to - from, cells).cells == m.cells.subrange(0, from) + cells
            + m.cells.subrange(to, m.cells.len() as int),
        m.with_range(width, from, to - from, cells).mode == m.mode,
        m.with_range(width, from, to - from, cells).live == m.live,
        m.with_mode(mode).mode == mode,
        m.with_mode(mode).cells == m.cells,
        !m.pushed(cell).selecting(),
        !m.with_cells(cells).selecting(),
        !m.with_range(width, from, to - from, cells).selecting(),
        !m.with_mode(mode).selecting(),
        mode != m.mode ==> m.with_mode(mode).select.cache is None,
        m.pushed(cell).select.cache is None,
        m.with_cells(cells).select.cache is None,
        m.with_range(width, from, to - from, cells).select.cache is None,
{
    reveal(ViewportModel::pushed);
    reveal(ViewportModel::with_cells);
    reveal(ViewportModel::with_range);
    assert(m.with_range(width, from, to - from, cells).cells =~= m.cells.subrange(0, from) + cells
        + m.cells.subrange(to, m.cells.len() as int));
}

/// A range that reaches past the end of the conversation ends with it.
pub proof fn law_ranges_end_with_the_conversation(
    m: ViewportModel,
    width: u16,
    start: int,
    count: int,
    cells: Seq<ShownCell>,
)
    requires
        m.wf(),
        !m.selecting(),
        0 <= start,
        0 <= count,
    ensures
        start >= m.cells.len() ==> m.with_range(width, start, count, cells).cells == m.cells
            + cells,
        start <= m.cells.len() && start + count >= m.cells.len() ==> m.with_range(
            width,
            start,
            count,
            cells,
        ).cells == m.cells.subrange(0, start) + cells,
{
    reveal(ViewportModel::with_range);
    let n = m.with_range(width, start, count, cells);
    if start >= m.cells.len() {
        assert(n.cells =~= m.cells + cells);
    }
    if start <= m.cells.len() && start + count >= m.cells.len() {
        assert(n.cells =~= m.cells.subrange(0, start) + cells);
    }
}

/// A blank row stands above every cell but the first and those that carry on the text before
/// them, whichever way the cell came.
pub proof fn law_cells_are_set_apart(
    m: ViewportModel,
    cell: ShownCell,
    cells: Seq<ShownCell>,
    width: u16,
    from: int,
    to: int,
    mode: HistoryRenderMode,
    i: int,
)
    requires
        m.wf(),
        !m.selecting(),
        0 <= from <= to <= m.cells.len(),
    ensures
        m.pushed(cell).items[m.cells.len() as int].spaced <==> m.cells.len() > 0 && !carries_on(
            cell,
        ),
        0 <= i < m.cells.len() ==> m.pushed(cell).items[i] == m.items[i],
        0 <= i < cells.len() ==> (m.with_range(width, from, to - from, cells).items[from + i].spaced
            <==> from + i > 0 && !carries_on(cells[i])),
        0 <= i < from ==> m.with_range(width, from, to - from, cells).items[i] == m.items[i],
        0 <= i < m.cells.len() - to ==> m.with_range(width, from, to - from, cells).items[from
            + cells.len() + i] == m.items[to + i],
        mode != m.mode && 0 <= i < m.cells.len() ==> (m.with_mode(mode).items[i].spaced <==> i > 0
            && !carries_on(m.cells[i])),
{
    reveal(ViewportModel::pushed);
    reveal(ViewportModel::with_range);
}

/// Cells that replace the conversation are set apart in the same way, but for those in front that
/// stay: their blank rows stay as they were.
pub proof fn law_cells_that_stay_keep_their_blank_rows(
    m: ViewportModel,
    cells: Seq<ShownCell>,
    i: int,
    j: int,
)
    requires
        m.wf(),
        !m.selecting(),
        0 <= i < cells.len(),
    ensures
        0 <= j <= i && !(j < m.cells.len() && (m.cells[j] matches ShownCell::Source(a) && (
        cells[j] matches ShownCell::Source(b) && a.id == b.id))) ==> (m.with_cells(
            cells,
        ).items[i].spaced <==> i > 0 && !carries_on(cells[i])),
        (forall|k: int|
            0 <= k <= i ==> k < m.cells.len() && (#[trigger] m.cells[k] matches ShownCell::Source(a)
                && (cells[k] matches ShownCell::Source(b) && a.id == b.id))) ==> m.with_cells(
            cells,
        ).items[i].spaced == m.items[i].spaced,
{
    reveal(ViewportModel::with_cells);
    let kept = viewport_model::common_prefix(m.cells, cells);
    viewport_model::lemma_common_prefix(m.cells, cells);
    lemma_prefix(m.cells, cells);
}

proof fn lemma_prefix(a: Seq<ShownCell>, b: Seq<ShownCell>)
    ensures
        forall|k: int|
            0 <= k < viewport_model::common_prefix(a, b) ==> viewport_model::same_record(
                #[trigger] a[k],
                b[k],
            ),
        ({
            let n = viewport_model::common_prefix(a, b);
            n < a.len() && n < b.len() ==> !viewport_model::same_record(a[n], b[n])
        }),
    decreases a.len(),
{
    if a.len() > 0 && b.len() > 0 && viewport_model::same_record(a[0], b[0]) {
        lemma_prefix(a.skip(1), b.skip(1));
        let n = viewport_model::common_prefix(a.skip(1), b.skip(1));
        viewport_model::lemma_common_prefix(a.skip(1), b.skip(1));
        assert forall|k: int| 0 <= k < 1 + n implies viewport_model::same_record(
            #[trigger] a[k],
            b[k],
        ) by {
            if k > 0 {
                assert(a.skip(1)[k - 1] == a[k]);
                assert(b.skip(1)[k - 1] == b[k]);
            }
        }
        if 1 + n < a.len() && 1 + n < b.len() {
            assert(a.skip(1)[n] == a[1 + n]);
            assert(b.skip(1)[n] == b[1 + n]);
        }
    }
}

/// A record is found where it first stands.
pub proof fn law_record_is_found_where_it_first_stands(cells: Seq<ShownCell>, id: u64, i: int)
    requires
        0 <= i < cells.len(),
    ensures
        (cells[i] matches ShownCell::Source(source) && source.id == id) && (forall|j: int|
            0 <= j < i ==> !(#[trigger] cells[j] matches ShownCell::Source(source) && source.id
                == id)) ==> viewport_model::record_position(cells, id) == Some(i),
        (forall|j: int|
            0 <= j < cells.len() ==> !(#[trigger] cells[j] matches ShownCell::Source(source)
                && source.id == id)) ==> viewport_model::record_position(cells, id) is None,
    decreases cells.len(),
{
    let n = cells.len() - 1;
    if n > 0 {
        let k = if i < n {
            i
        } else {
            n - 1
        };
        law_record_is_found_where_it_first_stands(cells.drop_last(), id, k);
        assert(forall|j: int| 0 <= j < n ==> cells.drop_last()[j] == #[trigger] cells[j]);
    } else {
        assert(viewport_model::record_position(cells.drop_last(), id) is None);
    }
}

/// The live cells stand behind the committed ones: first the answer that is being written, then
/// the token activity, then the rate limit. Each is set apart from what is before it, but for one
/// that carries on the text.
pub proof fn law_live_cells_stand_at_the_end(
    m: ViewportModel,
    width: u16,
    active: Option<ActiveCellRenderKey>,
    fresh: LiveModel,
    k: int,
)
    requires
        m.wf(),
        !m.selecting(),
        m.live_rebuilds(width, active),
    ensures
        ({
            let n = m.with_live(width, active, fresh);
            let all = n.live.primary + n.live.token + n.live.rate_limit;
            &&& n.items.len() == n.cells.len() + n.live.primary.len() + n.live.token.len()
                + n.live.rate_limit.len()
            &&& 0 <= k < all.len() ==> n.items[n.cells.len() + k].body == BodyModel::Live(all[k])
            &&& 0 <= k < all.len() ==> (n.items[n.cells.len() + k].spaced <==> (n.cells.len() + k
                > 0 && !all[k].is_stream_continuation))
        }),
{
    reveal(ViewportModel::with_live);
}

/// A lane whose part of the key changed, or that is to be shown at another width, shows what is
/// fresh where it has something to show, and is then counted as rebuilt; else it is empty.
pub proof fn law_changed_lanes_show_what_is_fresh(live: LiveModel, next: LiveTailKey, fresh: LiveModel)
    ensures
        ({
            let after = viewport_model::live_after(live, Some(next), fresh);
            let counted = viewport_model::lane_bumps(live, Some(next));
            let resized = !(live.key matches Some(key) && key.width == next.width);
            let primary = resized || !(live.key matches Some(key) && key.content.revision
                == next.content.revision && key.content.primary_present
                == next.content.primary_present && key.content.is_stream_continuation
                == next.content.is_stream_continuation);
            let token = resized || !(live.key matches Some(key)
                && key.content.token_activity_revision == next.content.token_activity_revision);
            let limit = resized || !(live.key matches Some(key)
                && key.content.rate_limit_revision == next.content.rate_limit_revision);
            &&& after.key == Some(next)
            &&& primary ==> after.primary == if next.content.primary_present {
                fresh.primary
            } else {
                Seq::empty()
            }
            &&& !primary ==> after.primary == live.primary
            &&& token ==> after.token == if next.content.token_activity_revision is Some {
                fresh.token
            } else {
                Seq::empty()
            }
            &&& !token ==> after.token == live.token
            &&& limit ==> after.rate_limit == if next.content.rate_limit_revision is Some {
                fresh.rate_limit
            } else {
                Seq::empty()
            }
            &&& !limit ==> after.rate_limit == live.rate_limit
            &&& counted.contains(Tally::Metric(QuietMetric::LivePrimaryRebuild)) <==> primary
                && next.content.primary_present
            &&& counted.contains(Tally::Metric(QuietMetric::LiveTokenRebuild)) <==> token
                && next.content.token_activity_revision is Some
            &&& counted.contains(Tally::Metric(QuietMetric::LiveRateLimitRebuild)) <==> limit
                && next.content.rate_limit_revision is Some
        }),
        viewport_model::live_cells(viewport_model::live_after(live, None, fresh)).len() == 0 || (
        live.key is None && viewport_model::live_after(live, None, fresh).primary == live.primary),
{
    let changed = viewport_model::lanes_changed(live.key, Some(next));
    let present = viewport_model::lanes_present(Some(next));
    let a = viewport_model::bump_if(
        changed.primary && present.primary,
        QuietMetric::LivePrimaryRebuild,
    );
    let b = viewport_model::bump_if(changed.token && present.token, QuietMetric::LiveTokenRebuild);
    let c = viewport_model::bump_if(
        changed.rate_limit && present.rate_limit,
        QuietMetric::LiveRateLimitRebuild,
    );
    let counted = viewport_model::lane_bumps(live, Some(next));
    assert(counted =~= a + b + c);
    if a.len() > 0 {
        assert(counted[0] == Tally::Metric(QuietMetric::LivePrimaryRebuild));
    }
    if b.len() > 0 {
        assert(counted[a.len() as int] == Tally::Metric(QuietMetric::LiveTokenRebuild));
    }
    if c.len() > 0 {
        assert(counted[(a.len() + b.len()) as int] == Tally::Metric(
            QuietMetric::LiveRateLimitRebuild,
        ));
    }
}

/// The live tail at the width of a selection waits until the selection ends; at another width it
/// ends the selection only if it shows something else.
pub proof fn law_selection_holds_the_live_tail(
    m: ViewportModel,
    width: u16,
    active: Option<ActiveCellRenderKey>,
    fresh: LiveModel,
)
    requires
        m.selecting(),
    ensures
        (m.select.cache matches Some(cache) && cache.width == width) ==> m.with_live(
            width,
            active,
            fresh,
        ) == m,
        m.live.key is None ==> m.with_live(width, active, fresh) == m,
        !(m.select.cache matches Some(cache) && cache.width == width) ==> (
        m.live.key matches Some(key) ==> (m.with_live(width, active, fresh).selecting()
            <==> active == Some(key.content))),
{
    reveal(ViewportModel::with_live);
}

/// A frame thaws a view that was held for it.
pub proof fn law_a_frame_thaws_the_view(
    m: ViewportModel,
    area: Rect,
    restored: Option<RestoredSelection>,
)
    ensures
        !m.rendered(area, restored).frozen,
        m.wf() && !m.selecting() ==> {
            &&& m.rendered(area, restored).cells == m.cells
            &&& m.rendered(area, restored).mode == m.mode
            &&& m.rendered(area, restored).live == m.live
        },
{
    reveal(ViewportModel::rendered);
}

/// The cells on the screen run from the one at its first row to the one at its last row; live
/// cells are taken for the last committed one.
pub proof fn law_visible_cells_are_those_on_the_screen(m: ViewportModel, area: Rect)
    requires
        m.wf(),
        !area.empty_area(),
        m.cells.len() > 0,
        m.cells.len() < usize::MAX,
        m.scroll + area.height <= usize::MAX,
    ensures
        m.visible_range(area) matches Some((first, last)) ==> {
            let bottom = m.scroll + area.height - 1;
            &&& first <= last < m.cells.len()
            &&& pager_content::item_top(m.items, area.width, first as int) <= m.scroll
            &&& pager_content::item_top(m.items, area.width, last as int) <= bottom
            &&& first < m.cells.len() - 1 ==> m.scroll < pager_content::item_top(
                m.items,
                area.width,
                first + 1,
            )
            &&& last < m.cells.len() - 1 ==> bottom < pager_content::item_top(
                m.items,
                area.width,
                last + 1,
            )
        },
{
    reveal(ViewportModel::visible_range);
    let bottom = m.scroll + area.height - 1;
    let a = pager_content::hit_of(m.items, area.width, m.scroll as int);
    let b = pager_content::hit_of(m.items, area.width, bottom);
    let last_cell = m.cells.len() - 1;
    let heights = pager_content::heights_of(m.items, area.width);
    if let Some(x) = a {
        assert(pager_content::hit_at(m.items, area.width, m.scroll as int, x));
        if x.0 > last_cell {
            pager_layout::lemma_top_of_monotone(heights, last_cell, x.0 as int);
        }
    }
    if let Some(y) = b {
        assert(pager_content::hit_at(m.items, area.width, bottom, y));
        if y.0 > last_cell {
            pager_layout::lemma_top_of_monotone(heights, last_cell, y.0 as int);
        }
    }
    if let Some(x) = a {
        if let Some(y) = b {
            if y.0 < x.0 {
                pager_layout::lemma_top_of_monotone(heights, y.0 + 1, x.0 as int);
            }
        }
    }
}

} // verus!
