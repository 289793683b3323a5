//! Laws of the pointer: what a press, a drag and a turn of the wheel do to the view.

use vstd::prelude::*;

use crate::conversation_viewport;
use crate::conversation_viewport::SelectedSegment;
use crate::geometry::Position;
use crate::geometry::Rect;
use crate::pager_content;
use crate::pager_content::MouseScrollDirection;
use crate::pager_layout;
use crate::viewport_model;
use crate::viewport_model::AutoscrollStep;
use crate::viewport_model::RestoredSelection;
use crate::viewport_model::SelectionPoint;
use crate::viewport_model::ViewportModel;

verus! {

/// An area with something in it that ends within the range of coordinates.
pub open spec fn on_screen(area: Rect) -> bool {
    &&& area.width > 0 && area.height > 0
    &&& area.x + area.width <= u16::MAX
    &&& area.y + area.height <= u16::MAX
}

/// A position within an area.
pub open spec fn inside(area: Rect, position: Position) -> bool {
    &&& 0 <= position.x - area.x < area.width
    &&& 0 <= position.y - area.y < area.height
}

/// Where the selection of a view was begun.
pub open spec fn anchor_of(m: ViewportModel) -> SelectionPoint {
    let (anchor, _) = m.select.selection.endpoints->0;
    anchor
}

/// Where the selection of a view was dragged to.
pub open spec fn focus_of(m: ViewportModel) -> SelectionPoint {
    let (_, focus) = m.select.selection.endpoints->0;
    focus
}

/// A place in the content that is drawn at a position: as many rows below the first row of the
/// view as the position is below the top of the area, and as many columns from its left.
pub open spec fn drawn_at(view: ViewportModel, area: Rect, point: SelectionPoint, position: Position) -> bool {
    &&& point.row - view.scroll == position.y - area.y
    &&& point.column == position.x - area.x
}

/// A press begins the selection at the place that is drawn under the pointer: the row and the
/// column of both ends, less what is scrolled away, are those of the pointer. The press does not
/// move the view, and it asks for no scrolling.
pub proof fn law_press_selects_what_is_under_the_pointer(
    m: ViewportModel,
    area: Rect,
    position: Position,
    restored: Option<RestoredSelection>,
)
    requires
        !m.selecting() || m.cache_matches(area.width),
        on_screen(area),
        m.scroll + area.height <= usize::MAX,
        inside(area, position),
    ensures
        ({
            let n = m.begun(area, position, restored);
            &&& n.scroll == m.scroll && n.cells == m.cells && n.items == m.items
            &&& n.select.selection.endpoints matches Some((anchor, focus)) && anchor == focus
                && drawn_at(m, area, anchor, position)
            &&& n.select.pointer is None && n.select.autoscroll.pointer is None
            &&& !n.select.autoscroll.needs_frame && n.select.last_tick is None
        }),
{
    reveal(ViewportModel::begun);
}

/// The cell that is hit at a position is the one that a selection begins in: the selected row is
/// the row of that cell that was hit.
pub proof fn law_press_selects_in_the_cell_that_is_hit(
    m: ViewportModel,
    area: Rect,
    position: Position,
    restored: Option<RestoredSelection>,
)
    requires
        !m.selecting() || m.cache_matches(area.width),
        on_screen(area),
        m.scroll + area.height <= usize::MAX,
        inside(area, position),
        m.hit(area, position) is Some,
    ensures
        ({
            let hit = m.hit(area, position)->0;
            let row = anchor_of(m.begun(area, position, restored)).row;
            &&& hit.index < m.cells.len()
            &&& pager_content::item_top(m.items, area.width, hit.index as int) <= row
            &&& row < pager_content::item_top(m.items, area.width, hit.index + 1)
            &&& row == pager_content::item_top(m.items, area.width, hit.index as int) + (
            if m.items[hit.index as int].spaced {
                1int
            } else {
                0int
            }) + hit.row_within_cell
        }),
{
    reveal(ViewportModel::begun);
    reveal(ViewportModel::hit);
    let row = m.scroll + (position.y - area.y);
    let found = pager_content::hit_of(m.items, area.width, row)->0;
    assert(pager_content::hit_at(m.items, area.width, row, found));
}

/// A cell is hit wherever one of the rows of its body is under the pointer, and nowhere else: not
/// on the blank row above it, not outside the area, and not below the committed cells.
pub proof fn law_hit_is_the_cell_under_the_pointer(
    m: ViewportModel,
    area: Rect,
    position: Position,
    index: usize,
    row_within_cell: usize,
)
    requires
        m.wf(),
        on_screen(area),
        m.scroll + area.height <= usize::MAX,
        index < m.cells.len(),
        inside(area, position),
        ({
            let top = pager_content::item_top(m.items, area.width, index as int) + (
            if m.items[index as int].spaced {
                1int
            } else {
                0int
            });
            &&& m.scroll + (position.y - area.y) == top + row_within_cell
            &&& top + row_within_cell < pager_content::item_top(m.items, area.width, index + 1)
        }),
    ensures
        m.hit(area, position) matches Some(hit) && hit.index == index && hit.row_within_cell
            == row_within_cell,
{
    reveal(ViewportModel::hit);
    let row = m.scroll + (position.y - area.y);
    let wanted = (index, row_within_cell);
    assert(pager_content::hit_at(m.items, area.width, row, wanted));
    let found = pager_content::hit_of(m.items, area.width, row)->0;
    assert(pager_content::hit_at(m.items, area.width, row, found));
    let heights = pager_content::heights_of(m.items, area.width);
    if found.0 < index {
        pager_layout::lemma_top_of_monotone(heights, found.0 + 1, index as int);
    } else if found.0 > index {
        pager_layout::lemma_top_of_monotone(heights, index + 1, found.0 as int);
    }
}

/// Nothing is hit outside the area.
pub proof fn law_nothing_is_hit_outside(m: ViewportModel, area: Rect, position: Position)
    requires
        area.x + area.width <= u16::MAX,
        area.y + area.height <= u16::MAX,
        !inside(area, position),
    ensures
        m.hit(area, position) is None,
{
    reveal(ViewportModel::hit);
}

/// A drag moves the end of the selection that follows the pointer to the place that is drawn
/// there, and leaves the other end where the selection was begun. Without a selection it selects
/// nothing.
pub proof fn law_drag_moves_the_end_under_the_pointer(
    m: ViewportModel,
    area: Rect,
    position: Position,
    restored: Option<RestoredSelection>,
    scrolls: bool,
    now: u64,
)
    requires
        !m.selecting() || m.cache_matches(area.width),
        on_screen(area),
        m.scroll + area.height <= usize::MAX,
        inside(area, position),
    ensures
        ({
            let n = m.dragged(area, position, restored, scrolls, now);
            &&& n.scroll == m.scroll && n.cells == m.cells && n.items == m.items
            &&& match m.select.selection.endpoints {
                Some((anchor, _)) => {
                    &&& m.drags(area, restored)
                    &&& n.select.selection.endpoints matches Some((from, to)) && from == anchor
                        && drawn_at(m, area, to, position)
                    &&& n.select.pointer == Some(position)
                    &&& n.select.autoscroll.pointer == Some(position)
                    &&& n.select.autoscroll.needs_frame == scrolls
                    &&& !scrolls ==> n.select.last_tick is None
                    &&& scrolls && !m.select.autoscroll.needs_frame ==> n.select.last_tick
                        == Some(now)
                    &&& scrolls && m.select.autoscroll.needs_frame ==> n.select.last_tick
                        == m.select.last_tick
                },
                None => !m.drags(area, restored) && n.select.selection.endpoints is None
                    && n.select.pointer == m.select.pointer,
            }
        }),
{
    reveal(ViewportModel::dragged);
}

/// A drag past the edge of the area selects as far as the nearest place inside: the first or the
/// last row of the view, the first or the last column.
pub proof fn law_drag_past_the_edge_stays_inside(m: ViewportModel, area: Rect, position: Position)
    requires
        on_screen(area),
        m.scroll + area.height <= usize::MAX,
    ensures
        ({
            let point = m.point_at(area, position);
            &&& position.y < area.y ==> point.row == m.scroll
            &&& position.y >= area.y + area.height ==> point.row == m.scroll + area.height - 1
            &&& position.x < area.x ==> point.column == 0
            &&& position.x >= area.x + area.width ==> point.column == area.width - 1
            &&& area.x <= position.x < area.x + area.width ==> point.column == position.x - area.x
            &&& area.y <= position.y < area.y + area.height ==> point.row - m.scroll == position.y
                - area.y
        }),
{
}

/// The whole of a selection made by a press and a drag while the view stands still: it runs from
/// the place under the press to the place under the drag.
pub proof fn law_selection_runs_from_press_to_drag(
    m: ViewportModel,
    area: Rect,
    press: Position,
    drag: Position,
    restored: Option<RestoredSelection>,
    scrolls: bool,
    now: u64,
)
    requires
        !m.selecting() || m.cache_matches(area.width),
        on_screen(area),
        m.scroll + area.height <= usize::MAX,
        inside(area, press),
        inside(area, drag),
    ensures
        m.begun(area, press, restored).dragged(
            area,
            drag,
            restored,
            scrolls,
            now,
        ).select.selection.endpoints matches Some((from, to)) && drawn_at(m, area, from, press)
            && drawn_at(m, area, to, drag),
{
    reveal(ViewportModel::begun);
    reveal(ViewportModel::dragged);
}

/// A press outside the area, or in an empty one, begins nothing.
pub proof fn law_press_outside_begins_nothing(
    m: ViewportModel,
    area: Rect,
    position: Position,
    restored: Option<RestoredSelection>,
)
    requires
        !m.selecting(),
        area.x + area.width <= u16::MAX,
        area.y + area.height <= u16::MAX,
        !inside(area, position),
    ensures
        !m.begun(area, position, restored).selecting(),
        m.begun(area, position, restored).scroll == m.scroll,
{
    reveal(ViewportModel::begun);
}

/// A release ends the selection and lets the changes that waited take effect. A release where the
/// pointer was last dragged to covers what the drag covered.
pub proof fn law_release_ends_the_selection(
    m: ViewportModel,
    area: Rect,
    position: Position,
    restored: Option<RestoredSelection>,
)
    requires
        m.wf(),
        m.selecting(),
        m.cache_matches(area.width),
        on_screen(area),
        m.scroll + area.height <= usize::MAX,
    ensures
        ({
            let n = m.finished(area, position, restored);
            &&& !n.selecting()
            &&& n.select.pointer is None && n.select.autoscroll.pointer is None
            &&& n.deferred is None && n.deferred_mode is None
            &&& n.cells == (match m.deferred {
                Some(cells) => cells,
                None => m.cells,
            })
            &&& n.mode == (match m.deferred_mode {
                Some(mode) => mode,
                None => m.mode,
            })
        }),
        ({
            let endpoints = m.released(area, position, restored).select.selection.endpoints;
            &&& m.select.pointer == Some(position) ==> endpoints
                == m.select.selection.endpoints
            &&& m.select.pointer != Some(position) && inside(area, position) ==> (
            endpoints matches Some((from, to)) && from == anchor_of(m)
                && drawn_at(m, area, to, position))
        }),
{
    reveal(ViewportModel::finished);
}

/// A selection is found again after a change of the width where the content allows it, and the
/// view with it; otherwise it ends. At the same width nothing moves.
pub proof fn law_selection_survives_a_resize(
    m: ViewportModel,
    width: u16,
    restored: Option<RestoredSelection>,
)
    ensures
        m.cache_matches(width) ==> m.projected(width, restored) == m,
        !m.cache_matches(width) && m.selecting() ==> match restored {
            Some(found) => {
                let n = m.projected(width, restored);
                &&& n.select.selection.endpoints == Some((found.anchor, found.focus))
                &&& n.scroll == found.scroll_offset
                &&& n.cells == m.cells && n.items == m.items
            },
            None => !m.projected(width, restored).selecting(),
        },
        !m.selecting() ==> !m.projected(width, restored).selecting() && m.projected(
            width,
            restored,
        ).scroll == m.scroll,
        !m.cache_matches(width) && (!m.selecting() || restored is Some) ==> {
            let cache = m.projected(width, restored).select.cache;
            &&& cache is Some
            &&& cache->0.width == width && cache->0.mode == m.mode
            &&& cache->0.computed.len() == m.items.len()
            &&& forall|i: int|
                0 <= i < cache->0.computed.len() ==> !(#[trigger] cache->0.computed[i])
        },
{
}

/// The rows that are remembered for a selection are those of the bodies: below the blank row of
/// each cell, down to the next cell.
pub proof fn law_remembered_rows_are_those_of_the_bodies(
    heights: Seq<u16>,
    continuations: Seq<bool>,
    i: int,
)
    requires
        continuations.len() == heights.len(),
        0 <= i < heights.len(),
        i == 0 || continuations[i] || heights[i] > 0,
        pager_layout::top_of(heights, i) + heights[i] < usize::MAX,
    ensures
        ({
            let cell = viewport_model::selection_layout(heights, continuations)[i];
            let lead = if i == 0 || continuations[i] {
                0int
            } else {
                1int
            };
            &&& viewport_model::selection_layout(heights, continuations).len() == heights.len()
            &&& cell.top == pager_layout::top_of(heights, i) + lead
            &&& cell.top + cell.height == pager_layout::top_of(heights, i + 1)
        }),
{
    pager_layout::lemma_top_of_bounds(heights, i);
}

/// The text of a cell is asked for once for each layout, for the width and the mode of the
/// layout, and a second request for it gives nothing.
pub proof fn law_text_is_asked_for_once(m: ViewportModel, index: usize)
    requires
        m.select.cache matches Some(cache) && cache.computed.len() == m.items.len(),
    ensures
        conversation_viewport::cell_request(m, index) is Some <==> index < m.items.len()
            && !m.select.cache->0.computed[index as int],
        conversation_viewport::cell_request(m, index) matches Some(request) ==> {
            &&& request.index == index
            &&& request.width == m.select.cache->0.width
            &&& request.render_mode == m.select.cache->0.mode
            &&& index == 0 ==> !request.continues
            &&& 0 < index < m.cells.len() ==> request.continues
                == viewport_model::continues_stream(m.cells[index as int])
        },
        conversation_viewport::cell_request(
            conversation_viewport::cell_asked(m, index),
            index,
        ) is None,
        forall|other: usize|
            other != index ==> #[trigger] conversation_viewport::cell_request(
                conversation_viewport::cell_asked(m, index),
                other,
            ) == conversation_viewport::cell_request(m, other),
        conversation_viewport::cell_asked(m, index).scroll == m.scroll,
        conversation_viewport::cell_asked(m, index).select.selection == m.select.selection,
{
}

proof fn lemma_segment_marks(
    scroll: usize,
    area: Rect,
    segment: SelectedSegment,
    end: int,
    position: Position,
)
    requires
        on_screen(area),
        inside(area, position),
        end <= segment.end,
    ensures
        conversation_viewport::segment_positions(scroll, area, segment, end).contains(position)
            <==> segment.content_row - scroll == position.y - area.y && segment.start <= position.x
            - area.x < end,
    decreases end - segment.start,
{
    let row = segment.content_row - scroll;
    let all = conversation_viewport::segment_positions(scroll, area, segment, end);
    if row < 0 || row >= area.height || end <= segment.start {
    } else {
        lemma_segment_marks(scroll, area, segment, end - 1, position);
        let before = conversation_viewport::segment_positions(scroll, area, segment, end - 1);
        if end - 1 < area.width {
            let last = Position { x: (area.x + end - 1) as u16, y: (area.y + row) as u16 };
            assert(all == before.push(last));
            assert(all[all.len() - 1] == last);
            if all.contains(position) {
                let k = choose|k: int| 0 <= k < all.len() && all[k] == position;
                if k < before.len() {
                    assert(before[k] == position);
                }
            }
            if before.contains(position) {
                let k = choose|k: int| 0 <= k < before.len() && before[k] == position;
                assert(all[k] == position);
            }
        }
    }
}

/// A position is marked as selected exactly where a selected segment is drawn: on its row, less
/// what is scrolled away, and from its first column up to its last.
pub proof fn law_marks_stand_where_the_text_is_drawn(
    scroll: usize,
    area: Rect,
    segments: Seq<SelectedSegment>,
    position: Position,
)
    requires
        on_screen(area),
        inside(area, position),
    ensures
        conversation_viewport::selected_positions(scroll, area, segments).contains(position)
            <==> exists|k: int|
            0 <= k < segments.len() && (#[trigger] segments[k]).content_row - scroll == position.y
                - area.y && segments[k].start <= position.x - area.x < segments[k].end,
    decreases segments.len(),
{
    let all = conversation_viewport::selected_positions(scroll, area, segments);
    if segments.len() > 0 {
        let shorter = segments.drop_last();
        let last = segments.last();
        let before = conversation_viewport::selected_positions(scroll, area, shorter);
        let more = conversation_viewport::segment_positions(scroll, area, last, last.end as int);
        law_marks_stand_where_the_text_is_drawn(scroll, area, shorter, position);
        lemma_segment_marks(scroll, area, last, last.end as int, position);
        if all.contains(position) {
            let k = choose|k: int| 0 <= k < all.len() && all[k] == position;
            if k < before.len() {
                assert(before[k] == position);
                let j = choose|j: int|
                    0 <= j < shorter.len() && (#[trigger] shorter[j]).content_row - scroll
                        == position.y - area.y && shorter[j].start <= position.x - area.x
                        < shorter[j].end;
                assert(segments[j] == shorter[j]);
            } else {
                assert(more[k - before.len()] == position);
                assert(segments[segments.len() - 1] == last);
            }
        }
        if exists|k: int|
            0 <= k < segments.len() && (#[trigger] segments[k]).content_row - scroll == position.y
                - area.y && segments[k].start <= position.x - area.x < segments[k].end {
            let k = choose|k: int|
                0 <= k < segments.len() && (#[trigger] segments[k]).content_row - scroll
                    == position.y - area.y && segments[k].start <= position.x - area.x
                    < segments[k].end;
            if k < shorter.len() {
                assert(shorter[k] == segments[k]);
                let j = choose|j: int| 0 <= j < before.len() && before[j] == position;
                assert(all[j] == position);
            } else {
                let j = choose|j: int| 0 <= j < more.len() && more[j] == position;
                assert(all[before.len() + j] == position);
            }
        }
    }
}

/// The wheel moves the view by the rows that it was turned, up towards the start and down towards
/// the end, and no further than either. A view that arrives at the end keeps to it from then on,
/// and no other does.
pub proof fn law_wheel_moves_the_view(
    m: ViewportModel,
    direction: MouseScrollDirection,
    rows: usize,
)
    requires
        m.scroll <= m.max_scroll,
    ensures
        ({
            let n = m.scrolled(direction, rows);
            &&& n.scroll <= m.max_scroll
            &&& n.max_scroll == m.max_scroll
            &&& n.following <==> n.scroll == m.max_scroll
            &&& n.cells == m.cells && n.items == m.items && n.select == m.select && n.live
                == m.live && n.mode == m.mode && n.frozen == m.frozen
            &&& direction == MouseScrollDirection::Up ==> n.scroll <= m.scroll && (n.scroll == 0
                || m.scroll - n.scroll == rows) && m.scroll - n.scroll <= rows
            &&& direction == MouseScrollDirection::Down ==> n.scroll >= m.scroll && (n.scroll
                == m.max_scroll || n.scroll - m.scroll == rows) && n.scroll - m.scroll <= rows
        }),
{
}

/// A turn of the wheel that the content allows in full is undone by the same turn the other way.
pub proof fn law_wheel_and_back_restores_the_view(m: ViewportModel, rows: usize)
    requires
        m.scroll <= m.max_scroll,
    ensures
        rows <= m.scroll ==> m.scrolled(MouseScrollDirection::Up, rows).scrolled(
            MouseScrollDirection::Down,
            rows,
        ).scroll == m.scroll,
        m.scroll + rows <= m.max_scroll ==> m.scrolled(MouseScrollDirection::Down, rows).scrolled(
            MouseScrollDirection::Up,
            rows,
        ).scroll == m.scroll,
{
}

/// A frame shows rows of the content: it starts within it, and ends at its last row or before. A
/// view that keeps to the end shows the last row; one that is held, or that a selection is made
/// in, stays at its row as long as that exists.
pub proof fn law_frame_shows_rows_of_the_content(
    m: ViewportModel,
    area: Rect,
    restored: Option<RestoredSelection>,
)
    requires
        m.wf(),
        !m.selecting(),
    ensures
        ({
            let n = m.rendered(area, restored);
            let rows = pager_content::item_top(m.items, area.width, m.items.len() as int);
            &&& n.scroll <= n.max_scroll
            &&& n.max_scroll == 0 || n.max_scroll + area.height == rows
            &&& n.max_scroll + area.height >= rows
            &&& n.cells == m.cells && n.live == m.live && n.mode == m.mode
            &&& !n.frozen
            &&& m.following && !m.frozen ==> n.following && n.scroll == n.max_scroll
            &&& !m.following && !m.frozen ==> (n.following <==> n.scroll == n.max_scroll)
            &&& m.frozen ==> n.following == m.following
            &&& (!m.following || m.frozen) && m.scroll <= n.max_scroll ==> n.scroll == m.scroll
            &&& (!m.following || m.frozen) && m.scroll > n.max_scroll ==> n.scroll
                == n.max_scroll
        }),
{
    reveal(ViewportModel::rendered);
    let held = m.thawed(area, restored);
    pager_content::lemma_prepared_heights(
        held.items,
        held.cells.len() as int,
        area.width,
        area.width,
    );
    pager_layout::lemma_top_of_bounds(
        pager_content::heights_of(m.items, area.width),
        m.items.len() as int,
    );
}

/// Cells that take rows are on the screen exactly where one of their rows is, the blank ones above
/// them counted.
pub proof fn law_cells_show_where_their_rows_are(
    m: ViewportModel,
    area: Rect,
    start: int,
    count: int,
)
    requires
        0 <= start,
        0 < count,
        area.width > 0 && area.height > 0,
        m.scroll + area.height <= usize::MAX,
        pager_content::item_top(m.items, area.width, start) < pager_content::item_top(
            m.items,
            area.width,
            start + count,
        ),
    ensures
        m.range_shows(area.width, start, count, area) <==> exists|row: int|
            m.scroll <= row < m.scroll + area.height && #[trigger] covers(
                m,
                area.width,
                start,
                count,
                row,
            ),
{
    reveal(ViewportModel::range_shows);
    let top = pager_content::item_top(m.items, area.width, start);
    let bottom = pager_content::item_top(m.items, area.width, start + count);
    if top < m.scroll + area.height && bottom > m.scroll {
        let row = if top >= m.scroll {
            top
        } else {
            m.scroll as int
        };
        assert(covers(m, area.width, start, count, row));
    }
}

/// Whether a row of the content belongs to cells of a range.
pub open spec fn covers(m: ViewportModel, width: u16, start: int, count: int, row: int) -> bool {
    pager_content::item_top(m.items, width, start) <= row < pager_content::item_top(
        m.items,
        width,
        start + count,
    )
}

/// Scrolling under a dragged selection moves the end of it to the place that is drawn under the
/// pointer once the view has moved, and keeps the other end. It goes on only as long as the
/// content allows every step in full.
pub proof fn law_autoscroll_takes_the_selection_along(
    m: ViewportModel,
    area: Rect,
    step: AutoscrollStep,
    now: u64,
    restored: Option<RestoredSelection>,
)
    requires
        m.selecting(),
        m.cache_matches(area.width),
        m.select.autoscroll.pointer is Some,
        m.scroll <= m.max_scroll,
        m.max_scroll + area.height <= usize::MAX,
        on_screen(area),
        inside(area, step.pointer),
    ensures
        ({
            let n = m.autoscrolled(area, true, now, Some(step), restored);
            let there = m.scrolled(step.direction, step.rows);
            &&& n.scroll == there.scroll
            &&& n.select.selection.endpoints matches Some((from, to)) && from
                == anchor_of(m) && (if n.scroll != m.scroll {
                drawn_at(n, area, to, step.pointer)
            } else {
                to == focus_of(m)
            })
            &&& n.select.autoscroll.pointer is Some <==> n.scroll != m.scroll && (if n.scroll
                > m.scroll {
                n.scroll - m.scroll
            } else {
                m.scroll - n.scroll
            }) == step.rows
            &&& m.with_autoscroll(true, Some(now)).autoscroll_goes_on(Some(step)) <==> n.scroll
                != m.scroll && (if n.scroll > m.scroll {
                n.scroll - m.scroll
            } else {
                m.scroll - n.scroll
            }) == step.rows
        }),
{
    reveal(ViewportModel::autoscrolled);
}

/// A pointer that leaves the edge stops the scrolling but not the selection, and without a
/// dragging pointer no frame scrolls.
pub proof fn law_autoscroll_needs_a_pointer_at_the_edge(
    m: ViewportModel,
    area: Rect,
    scrolls: bool,
    now: u64,
    step: Option<AutoscrollStep>,
    restored: Option<RestoredSelection>,
)
    ensures
        m.select.autoscroll.pointer is None ==> m.autoscrolled(
            area,
            scrolls,
            now,
            step,
            restored,
        ) == m && m.autoscroll_prepared(scrolls, now) == m,
        m.select.autoscroll.pointer is Some && !scrolls ==> {
            let n = m.autoscrolled(area, scrolls, now, step, restored);
            &&& n.scroll == m.scroll && n.select.selection == m.select.selection
            &&& !n.select.autoscroll.needs_frame && n.select.last_tick is None
        },
        m.select.autoscroll.pointer is Some ==> {
            let n = m.autoscroll_prepared(scrolls, now);
            &&& n.scroll == m.scroll && n.select.selection == m.select.selection
            &&& n.select.autoscroll.pointer == m.select.autoscroll.pointer
            &&& n.select.autoscroll.needs_frame == scrolls
            &&& scrolls ==> n.select.last_tick == Some(now)
            &&& !scrolls ==> n.select.last_tick is None
        },
        m.select.last_tick matches Some(last) ==> last <= now ==> last
            + conversation_viewport::elapsed_since(m.select.last_tick, now) == now,
        m.select.last_tick matches Some(last) ==> last > now
            ==> conversation_viewport::elapsed_since(m.select.last_tick, now) == 0,
        m.select.last_tick is None ==> conversation_viewport::elapsed_since(
            m.select.last_tick,
            now,
        ) == 0,
{
    reveal(ViewportModel::autoscrolled);
}

} // verus!
