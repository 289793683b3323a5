//! What a conversation viewport is, as a mathematical value, and how each operation changes it.

use std::sync::Arc;

use vstd::prelude::*;

use crate::compact_tool_groups::ShownCell;
use crate::geometry::Position;
use crate::geometry::Rect;
use crate::history_cell::HistoryRenderMode;
use crate::ledger;
use crate::ledger::Tally;
use crate::pager_content;
use crate::pager_content::ActiveCellDisplaySnapshot;
use crate::pager_content::BodyModel;
use crate::pager_content::BottomFollowMode;
use crate::pager_content::ItemModel;
use crate::pager_content::MouseScrollDirection;
use crate::pager_layout;
use crate::prepared_cell;
use crate::quiet_metrics::QuietMetric;

verus! {

#[derive(Clone, Copy, Debug, PartialEq, Eq, Structural)]
pub struct ConversationCellHit {
    pub index: usize,
    pub row_within_cell: usize,
}

/// A place in the content: a row, and a column within it.
#[derive(Clone, Copy, Debug, PartialEq, Eq, Structural)]
pub struct SelectionPoint {
    pub row: usize,
    pub column: u16,
}

/// The ends of a selection, from where it was begun to where it was dragged.
#[derive(Clone, Copy, Debug)]
pub struct ConversationSelection {
    pub endpoints: Option<(SelectionPoint, SelectionPoint)>,
}

/// The body rows of one cell.
#[derive(Clone, Copy, Debug, PartialEq, Eq, Structural)]
pub struct SelectionCellLayout {
    pub top: usize,
    pub height: usize,
}

/// The rows of all cells at one width, and which cells' texts have been asked for.
#[verifier::ext_equal]
pub struct CacheModel {
    pub width: u16,
    pub mode: HistoryRenderMode,
    pub computed: Seq<bool>,
    pub layout: Seq<SelectionCellLayout>,
}

/// The pointer that drags a selection, and whether it asks for scrolling.
#[derive(Clone, Copy, Debug)]
pub struct SelectionAutoscroll {
    pub pointer: Option<Position>,
    pub needs_frame: bool,
}

/// What an autoscroll tick asks for.
#[derive(Clone, Copy, Debug, PartialEq, Eq, Structural)]
pub struct AutoscrollStep {
    pub direction: MouseScrollDirection,
    pub rows: usize,
    pub pointer: Position,
}

/// The ends of a selection and the scroll offset, found again after the content was laid out
/// anew.
#[derive(Clone, Copy, Debug, PartialEq, Eq, Structural)]
pub struct RestoredSelection {
    pub anchor: SelectionPoint,
    pub focus: SelectionPoint,
    pub scroll_offset: usize,
}

#[verifier::ext_equal]
pub struct SelectModel {
    pub selection: ConversationSelection,
    pub pointer: Option<Position>,
    pub autoscroll: SelectionAutoscroll,
    pub last_tick: Option<u64>,
    pub cache: Option<CacheModel>,
}

/// What the live tail is made of at one moment.
#[derive(Clone, Copy, Debug)]
pub struct ActiveCellRenderKey {
    pub revision: u64,
    pub primary_present: bool,
    pub is_stream_continuation: bool,
    pub token_activity_revision: Option<u64>,
    pub rate_limit_revision: Option<u64>,
}

#[derive(Clone, Copy, Debug)]
pub struct LiveTailKey {
    pub width: u16,
    pub content: ActiveCellRenderKey,
}

/// The live cells by lane, and the key that they were built for.
#[verifier::ext_equal]
pub struct LiveModel {
    pub key: Option<LiveTailKey>,
    pub primary: Seq<Arc<ActiveCellDisplaySnapshot>>,
    pub token: Seq<Arc<ActiveCellDisplaySnapshot>>,
    pub rate_limit: Seq<Arc<ActiveCellDisplaySnapshot>>,
}

pub open spec fn no_live() -> LiveModel {
    LiveModel { key: None, primary: Seq::empty(), token: Seq::empty(), rate_limit: Seq::empty() }
}

/// The live cells in the order in which they are shown.
pub open spec fn live_cells(live: LiveModel) -> Seq<Arc<ActiveCellDisplaySnapshot>> {
    live.primary + live.token + live.rate_limit
}

/// A viewport as a mathematical value.
#[verifier::ext_equal]
pub struct ViewportModel {
    pub items: Seq<ItemModel>,
    pub scroll: usize,
    pub following: bool,
    pub max_scroll: usize,
    pub cells: Seq<ShownCell>,
    pub mode: HistoryRenderMode,
    pub live: LiveModel,
    pub deferred: Option<Seq<ShownCell>>,
    pub deferred_mode: Option<HistoryRenderMode>,
    pub select: SelectModel,
    pub frozen: bool,
}

pub open spec fn continues_stream(cell: ShownCell) -> bool {
    match cell {
        ShownCell::Source(source) => source.stream_continuation,
        _ => false,
    }
}

/// The item of a committed cell.
pub open spec fn item_for(cell: ShownCell, mode: HistoryRenderMode, has_prior: bool) -> ItemModel {
    ItemModel {
        spaced: has_prior && !continues_stream(cell),
        body: BodyModel::Cell { cell, mode },
        prepared: None,
    }
}

/// The items of cells that stand at position `first` and after.
pub open spec fn items_for(cells: Seq<ShownCell>, mode: HistoryRenderMode, first: int) -> Seq<
    ItemModel,
> {
    Seq::new(cells.len(), |i: int| item_for(cells[i], mode, first + i > 0))
}

/// The items of cells that take the place of others, spaced and laid out as those were.
pub open spec fn items_kept(
    items: Seq<ItemModel>,
    cells: Seq<ShownCell>,
    mode: HistoryRenderMode,
) -> Seq<ItemModel> {
    Seq::new(
        cells.len(),
        |i: int|
            ItemModel {
                spaced: items[i].spaced,
                body: BodyModel::Cell { cell: cells[i], mode },
                prepared: items[i].prepared,
            },
    )
}

/// The items of the live cells.
pub open spec fn live_items(
    cells: Seq<Arc<ActiveCellDisplaySnapshot>>,
    has_prior: bool,
) -> Seq<ItemModel> {
    Seq::new(
        cells.len(),
        |k: int|
            ItemModel {
                spaced: (has_prior || k > 0) && !cells[k].is_stream_continuation,
                body: BodyModel::Live(cells[k]),
                prepared: None,
            },
    )
}

pub open spec fn clamp_to(n: int, max: int) -> int {
    if n <= max {
        n
    } else {
        max
    }
}

/// A list with a range replaced. Bounds past the end of the list mean its end.
pub open spec fn spliced<T>(cells: Seq<T>, from: int, to: int, replacement: Seq<T>) -> Seq<T> {
    let len = cells.len() as int;
    cells.take(clamp_to(from, len)) + replacement + cells.skip(clamp_to(to, len))
}

/// An offset moved along with content above it that changed its height.
pub open spec fn moved_offset(offset: int, old_height: int, new_height: int) -> int {
    if new_height >= old_height {
        pager_layout::row_sum(offset, new_height - old_height)
    } else if old_height - new_height <= offset {
        offset - (old_height - new_height)
    } else {
        0
    }
}

/// Whether two cells are handles to the same record. Each Work row is a record of its own.
pub open spec fn same_record(a: ShownCell, b: ShownCell) -> bool {
    match (a, b) {
        (ShownCell::Source(x), ShownCell::Source(y)) => x.id == y.id,
        _ => false,
    }
}

/// The number of leading cells that two lists share.
pub open spec fn common_prefix(a: Seq<ShownCell>, b: Seq<ShownCell>) -> int
    decreases a.len(),
{
    if a.len() > 0 && b.len() > 0 && same_record(a[0], b[0]) {
        1 + common_prefix(a.skip(1), b.skip(1))
    } else {
        0
    }
}

pub proof fn lemma_common_prefix(a: Seq<ShownCell>, b: Seq<ShownCell>)
    ensures
        0 <= common_prefix(a, b) <= a.len(),
        common_prefix(a, b) <= b.len(),
    decreases a.len(),
{
    if a.len() > 0 && b.len() > 0 && same_record(a[0], b[0]) {
        lemma_common_prefix(a.skip(1), b.skip(1));
    }
}

/// The position of a record among the cells that are shown.
pub open spec fn record_position(cells: Seq<ShownCell>, id: u64) -> Option<int>
    decreases cells.len(),
{
    if cells.len() == 0 {
        None
    } else {
        match record_position(cells.drop_last(), id) {
            Some(i) => Some(i),
            None => match cells.last() {
                ShownCell::Source(source) if source.id == id => Some(cells.len() - 1),
                _ => None,
            },
        }
    }
}

/// The rows of the cells below their spacing.
pub open spec fn selection_layout(heights: Seq<u16>, continuations: Seq<bool>) -> Seq<
    SelectionCellLayout,
> {
    Seq::new(
        heights.len(),
        |i: int|
            {
                let lead = if i > 0 && !continuations[i] {
                    1int
                } else {
                    0int
                };
                SelectionCellLayout {
                    top: pager_layout::row_sum(pager_layout::top_of(heights, i), lead) as usize,
                    height: if heights[i] >= lead {
                        (heights[i] - lead) as usize
                    } else {
                        0
                    },
                }
            },
    )
}

pub open spec fn within(n: u16, low: u16, high: u16) -> u16 {
    if n < low {
        low
    } else if n > high {
        high
    } else {
        n
    }
}

pub open spec fn below(a: u16, b: u16) -> u16 {
    if a >= b {
        (a - b) as u16
    } else {
        0
    }
}

pub open spec fn width_of(key: Option<LiveTailKey>) -> Option<u16> {
    match key {
        Some(k) => Some(k.width),
        None => None,
    }
}

pub open spec fn primary_of(key: Option<LiveTailKey>) -> Option<(u64, bool, bool)> {
    match key {
        Some(k) => Some(
            (k.content.revision, k.content.primary_present, k.content.is_stream_continuation),
        ),
        None => None,
    }
}

pub open spec fn token_of(key: Option<LiveTailKey>) -> Option<Option<u64>> {
    match key {
        Some(k) => Some(k.content.token_activity_revision),
        None => None,
    }
}

pub open spec fn rate_limit_of(key: Option<LiveTailKey>) -> Option<Option<u64>> {
    match key {
        Some(k) => Some(k.content.rate_limit_revision),
        None => None,
    }
}

/// Which lanes of the live tail are shown anew.
#[verifier::ext_equal]
pub struct LanePlan {
    pub primary: bool,
    pub token: bool,
    pub rate_limit: bool,
}

/// The lanes whose part of the key changed.
pub open spec fn lanes_changed(current: Option<LiveTailKey>, next: Option<LiveTailKey>) -> LanePlan {
    let width_changed = width_of(current) != width_of(next);
    LanePlan {
        primary: width_changed || primary_of(current) != primary_of(next),
        token: width_changed || token_of(current) != token_of(next),
        rate_limit: width_changed || rate_limit_of(current) != rate_limit_of(next),
    }
}

/// The lanes that have something to show.
pub open spec fn lanes_present(next: Option<LiveTailKey>) -> LanePlan {
    match next {
        Some(k) => LanePlan {
            primary: k.content.primary_present,
            token: k.content.token_activity_revision is Some,
            rate_limit: k.content.rate_limit_revision is Some,
        },
        None => LanePlan { primary: false, token: false, rate_limit: false },
    }
}

/// One lane after a change of the key.
pub open spec fn lane_after(
    current: Seq<Arc<ActiveCellDisplaySnapshot>>,
    fresh: Seq<Arc<ActiveCellDisplaySnapshot>>,
    changed: bool,
    present: bool,
) -> Seq<Arc<ActiveCellDisplaySnapshot>> {
    if !changed {
        current
    } else if present {
        fresh
    } else {
        Seq::empty()
    }
}

/// The live tail for another key, with the snapshots of the lanes that changed.
pub open spec fn live_after(live: LiveModel, next: Option<LiveTailKey>, fresh: LiveModel) -> LiveModel {
    let changed = lanes_changed(live.key, next);
    let present = lanes_present(next);
    LiveModel {
        key: next,
        primary: lane_after(live.primary, fresh.primary, changed.primary, present.primary),
        token: lane_after(live.token, fresh.token, changed.token, present.token),
        rate_limit: lane_after(
            live.rate_limit,
            fresh.rate_limit,
            changed.rate_limit,
            present.rate_limit,
        ),
    }
}

pub open spec fn bump_if(rebuilt: bool, metric: QuietMetric) -> Seq<Tally> {
    if rebuilt {
        seq![Tally::Metric(metric)]
    } else {
        Seq::empty()
    }
}

/// The lanes that are counted as rebuilt.
pub open spec fn lane_bumps(live: LiveModel, next: Option<LiveTailKey>) -> Seq<Tally> {
    let changed = lanes_changed(live.key, next);
    let present = lanes_present(next);
    bump_if(changed.primary && present.primary, QuietMetric::LivePrimaryRebuild) + bump_if(
        changed.token && present.token,
        QuietMetric::LiveTokenRebuild,
    ) + bump_if(changed.rate_limit && present.rate_limit, QuietMetric::LiveRateLimitRebuild)
}

impl ViewportModel {
    /// The items are those of the committed cells, followed by those of the live cells, and
    /// changes wait only while a selection is made.
    pub open spec fn wf(self) -> bool {
        &&& self.items.len() == self.cells.len() + live_cells(self.live).len()
        &&& forall|i: int|
            0 <= i < self.cells.len() ==> (#[trigger] self.items[i]).body == (BodyModel::Cell {
                cell: self.cells[i],
                mode: self.mode,
            })
        &&& self.items.skip(self.cells.len() as int) == live_items(
            live_cells(self.live),
            self.cells.len() > 0,
        )
        &&& self.live.key is None ==> live_cells(self.live).len() == 0
        &&& !self.selecting() ==> self.deferred is None && self.deferred_mode is None
    }

    pub open spec fn selecting(self) -> bool {
        self.select.selection.endpoints is Some
    }

    /// Whether the next change keeps the view at the end.
    pub open spec fn follows(self) -> bool {
        !self.frozen && self.following
    }

    pub open spec fn committed_items(self) -> Seq<ItemModel> {
        self.items.take(self.cells.len() as int)
    }

    /// The view at another offset.
    pub open spec fn at_offset(self, scroll: usize) -> ViewportModel {
        ViewportModel { scroll, following: scroll == usize::MAX, ..self }
    }

    /// The view at the end, if asked for.
    pub open spec fn at_end_if(self, follow: bool) -> ViewportModel {
        if follow {
            ViewportModel { scroll: usize::MAX, following: true, ..self }
        } else {
            self
        }
    }

    /// No pointer drags the selection.
    pub open spec fn still(self) -> ViewportModel {
        ViewportModel {
            select: SelectModel {
                autoscroll: SelectionAutoscroll { pointer: None, needs_frame: false },
                last_tick: None,
                ..self.select
            },
            ..self
        }
    }

    pub open spec fn pointing(self, pointer: Option<Position>) -> ViewportModel {
        ViewportModel { select: SelectModel { pointer, ..self.select }, ..self }
    }

    pub open spec fn with_endpoints(
        self,
        endpoints: Option<(SelectionPoint, SelectionPoint)>,
    ) -> ViewportModel {
        ViewportModel {
            select: SelectModel {
                selection: ConversationSelection { endpoints },
                ..self.select
            },
            ..self
        }
    }

    pub open spec fn with_cache(self, cache: Option<CacheModel>) -> ViewportModel {
        ViewportModel { select: SelectModel { cache, ..self.select }, ..self }
    }

    /// The changes that waited take effect.
    pub open spec fn caught_up(self) -> ViewportModel {
        let mode = match self.deferred_mode {
            Some(mode) => mode,
            None => self.mode,
        };
        if self.deferred is None && self.deferred_mode is None {
            self
        } else {
            ViewportModel {
                items: items_for(self.upcoming(), mode, 0),
                cells: self.upcoming(),
                mode,
                live: no_live(),
                deferred: None,
                deferred_mode: None,
                ..self
            }.with_cache(None).at_end_if(self.follows())
        }
    }

    pub open spec fn cancelled(self) -> ViewportModel {
        self.still().pointing(None).with_endpoints(None).caught_up()
    }

    /// No selection, and no rows remembered for one.
    pub open spec fn invalidated(self) -> ViewportModel {
        self.cancelled().with_cache(None)
    }

    /// The cells that the next change applies to while a selection is made.
    pub open spec fn upcoming(self) -> Seq<ShownCell> {
        match self.deferred {
            Some(cells) => cells,
            None => self.cells,
        }
    }

    /// One more committed cell.
    #[verifier::opaque]
    pub open spec fn pushed(self, cell: ShownCell) -> ViewportModel {
        if self.selecting() {
            ViewportModel { deferred: Some(self.upcoming().push(cell)), ..self }
        } else {
            let m = self.invalidated();
            ViewportModel {
                cells: m.cells.push(cell),
                items: m.committed_items().push(item_for(cell, m.mode, m.cells.len() > 0))
                    + live_items(live_cells(m.live), true),
                ..m
            }.at_end_if(m.follows())
        }
    }

    /// Other committed cells. The leading cells that stay keep their spacing.
    #[verifier::opaque]
    pub open spec fn with_cells(self, cells: Seq<ShownCell>) -> ViewportModel {
        if self.selecting() {
            ViewportModel { deferred: Some(cells), ..self }
        } else {
            let m = self.invalidated();
            let kept = common_prefix(m.cells, cells);
            ViewportModel {
                cells,
                items: items_kept(m.items, cells.take(kept), m.mode) + items_for(
                    cells.skip(kept),
                    m.mode,
                    kept,
                ),
                live: no_live(),
                ..m
            }.at_end_if(m.follows())
        }
    }

    /// Another render mode.
    pub open spec fn with_mode(self, mode: HistoryRenderMode) -> ViewportModel {
        let effective = match self.deferred_mode {
            Some(waiting) => waiting,
            None => self.mode,
        };
        if effective == mode {
            self
        } else if self.selecting() {
            ViewportModel { deferred_mode: Some(mode), ..self }
        } else {
            let m = self.invalidated();
            ViewportModel {
                items: items_for(m.cells, mode, 0),
                mode,
                live: no_live(),
                ..m
            }.at_end_if(m.follows())
        }
    }

    /// The bounds of a range of committed cells.
    pub open spec fn range_start(self, start: int) -> int {
        clamp_to(start, self.cells.len() as int)
    }

    pub open spec fn range_end(self, start: int, count: int) -> int {
        clamp_to(self.range_start(start) + count, self.cells.len() as int)
    }

    /// The committed items with a range of cells replaced.
    pub open spec fn replaced_items(self, from: int, to: int, replacement: Seq<ShownCell>) -> Seq<
        ItemModel,
    > {
        self.committed_items().take(from) + items_for(replacement, self.mode, from)
            + self.committed_items().skip(to)
    }

    /// The offset after a range was replaced: what changes above the view moves it along.
    pub open spec fn replaced_offset(
        self,
        width: u16,
        from: int,
        to: int,
        replacement: Seq<ShownCell>,
    ) -> int {
        let before = self.committed_items();
        let after = self.replaced_items(from, to, replacement);
        moved_offset(
            self.scroll as int,
            pager_content::item_top(before, width, to) - pager_content::item_top(
                before,
                width,
                from,
            ),
            pager_content::item_top(after, width, from + replacement.len())
                - pager_content::item_top(after, width, from),
        )
    }

    /// A range of the committed cells replaced while nothing is selected. A view that does not
    /// keep to the end stays with the rows that it shows.
    pub open spec fn replaced(
        self,
        width: u16,
        from: int,
        to: int,
        replacement: Seq<ShownCell>,
    ) -> ViewportModel {
        let cells = self.cells.take(from) + replacement + self.cells.skip(to);
        let changed = ViewportModel {
            cells,
            items: self.replaced_items(from, to, replacement) + live_items(
                live_cells(self.live),
                cells.len() > 0,
            ),
            ..self
        };
        if self.follows() {
            changed.at_end_if(true)
        } else if pager_content::item_top(self.committed_items(), width, to) <= self.scroll {
            changed.at_offset(self.replaced_offset(width, from, to, replacement) as usize)
        } else {
            changed
        }
    }

    /// Some committed cells replaced.
    #[verifier::opaque]
    pub open spec fn with_range(
        self,
        width: u16,
        start: int,
        count: int,
        replacement: Seq<ShownCell>,
    ) -> ViewportModel {
        if self.selecting() {
            ViewportModel {
                deferred: Some(
                    spliced(
                        self.upcoming(),
                        self.range_start(start),
                        self.range_end(start, count),
                        replacement,
                    ),
                ),
                ..self
            }
        } else {
            self.invalidated().replaced(
                width,
                self.range_start(start),
                self.range_end(start, count),
                replacement,
            )
        }
    }

    /// Whether the rows remembered for a selection are those of the content at a width.
    pub open spec fn cache_matches(self, width: u16) -> bool {
        self.select.cache matches Some(cache) && cache.width == width && cache.mode == self.mode
            && cache.computed.len() == self.items.len()
    }

    pub open spec fn continuations(self) -> Seq<bool> {
        Seq::new(
            self.items.len(),
            |i: int|
                if i < self.cells.len() {
                    continues_stream(self.cells[i])
                } else {
                    live_cells(self.live)[i - self.cells.len()].is_stream_continuation
                },
        )
    }

    /// The rows of the content at a width are remembered. A selection made on other rows is
    /// found again on them, or dropped.
    pub open spec fn projected(
        self,
        width: u16,
        restored: Option<RestoredSelection>,
    ) -> ViewportModel {
        let laid_out = self.with_cache(
            Some(
                CacheModel {
                    width,
                    mode: self.mode,
                    computed: Seq::new(self.items.len(), |i: int| false),
                    layout: selection_layout(
                        pager_content::heights_of(self.items, width),
                        self.continuations(),
                    ),
                },
            ),
        );
        if self.cache_matches(width) {
            self
        } else if !self.selecting() {
            laid_out
        } else {
            match restored {
                Some(found) => laid_out.with_endpoints(Some((found.anchor, found.focus))).at_offset(
                    found.scroll_offset,
                ),
                None => laid_out.cancelled(),
            }
        }
    }

    /// The place in the content under a position on the screen. A position outside the area
    /// counts as the nearest one inside.
    pub open spec fn point_at(self, area: Rect, position: Position) -> SelectionPoint {
        SelectionPoint {
            row: pager_layout::row_sum(
                self.scroll as int,
                below(within(position.y, area.y, below(area.bottom_edge(), 1)), area.y) as int,
            ) as usize,
            column: below(within(position.x, area.x, below(area.right_edge(), 1)), area.x),
        }
    }

    /// The viewport in which a place was looked up.
    pub open spec fn pointed(self, area: Rect, restored: Option<RestoredSelection>) -> ViewportModel {
        if area.empty_area() {
            self
        } else {
            self.projected(area.width, restored)
        }
    }

    /// Where a selection begins.
    pub open spec fn starts_at(
        self,
        area: Rect,
        position: Position,
        restored: Option<RestoredSelection>,
    ) -> Option<SelectionPoint> {
        if area.empty_area() || !area.holds(position) {
            None
        } else {
            Some(self.pointed(area, restored).point_at(area, position))
        }
    }

    /// Where a selection is dragged to.
    pub open spec fn dragged_to(
        self,
        area: Rect,
        position: Position,
        restored: Option<RestoredSelection>,
    ) -> Option<SelectionPoint> {
        if area.empty_area() {
            None
        } else {
            Some(self.pointed(area, restored).point_at(area, position))
        }
    }

    #[verifier::opaque]
    pub open spec fn begun(
        self,
        area: Rect,
        position: Position,
        restored: Option<RestoredSelection>,
    ) -> ViewportModel {
        let m = self.pointed(area, restored);
        match self.starts_at(area, position, restored) {
            Some(point) => m.still().pointing(None).with_endpoints(Some((point, point))),
            None => m,
        }
    }

    /// The end of the selection that follows the pointer, moved.
    pub open spec fn focused(self, point: Option<SelectionPoint>) -> ViewportModel {
        match (self.select.selection.endpoints, point) {
            (Some((anchor, _)), Some(focus)) => self.with_endpoints(Some((anchor, focus))),
            _ => self,
        }
    }

    /// Whether a drag to a position moves a selection.
    pub open spec fn drags(
        self,
        area: Rect,
        restored: Option<RestoredSelection>,
    ) -> bool {
        !area.empty_area() && self.pointed(area, restored).selecting()
    }

    /// A drag to a position. `scrolls` says whether the pointer is where it asks for scrolling.
    #[verifier::opaque]
    pub open spec fn dragged(
        self,
        area: Rect,
        position: Position,
        restored: Option<RestoredSelection>,
        scrolls: bool,
        now: u64,
    ) -> ViewportModel {
        let m = self.pointed(area, restored);
        if self.drags(area, restored) {
            let moved = m.focused(self.dragged_to(area, position, restored)).pointing(
                Some(position),
            );
            ViewportModel {
                select: SelectModel {
                    autoscroll: SelectionAutoscroll {
                        pointer: Some(position),
                        needs_frame: scrolls,
                    },
                    last_tick: if !scrolls {
                        None
                    } else if m.select.autoscroll.needs_frame {
                        m.select.last_tick
                    } else {
                        Some(now)
                    },
                    ..moved.select
                },
                ..moved
            }
        } else {
            m
        }
    }

    /// The selection as it is when the pointer is released.
    pub open spec fn released(
        self,
        area: Rect,
        position: Position,
        restored: Option<RestoredSelection>,
    ) -> ViewportModel {
        let m = self.still().pointing(None);
        if self.select.pointer == Some(position) {
            m
        } else {
            m.pointed(area, restored).focused(m.dragged_to(area, position, restored))
        }
    }

    #[verifier::opaque]
    pub open spec fn finished(
        self,
        area: Rect,
        position: Position,
        restored: Option<RestoredSelection>,
    ) -> ViewportModel {
        self.released(area, position, restored).with_endpoints(None).caught_up()
    }

    pub open spec fn scrolled(self, direction: MouseScrollDirection, rows: usize) -> ViewportModel {
        let scroll = pager_content::moved_by(self.scroll, self.max_scroll, direction, rows);
        ViewportModel {
            scroll: scroll as usize,
            following: scroll == self.max_scroll,
            ..self
        }
    }

    /// The rows that a scroll moves the view by.
    pub open spec fn rows_moved(self, direction: MouseScrollDirection, rows: usize) -> int {
        let from = pager_content::in_range(self.scroll, self.max_scroll as int);
        let to = pager_content::moved_by(self.scroll, self.max_scroll, direction, rows);
        if to >= from {
            to - from
        } else {
            from - to
        }
    }

    pub open spec fn with_autoscroll(
        self,
        needs_frame: bool,
        last_tick: Option<u64>,
    ) -> ViewportModel {
        ViewportModel {
            select: SelectModel {
                autoscroll: SelectionAutoscroll { needs_frame, ..self.select.autoscroll },
                last_tick,
                ..self.select
            },
            ..self
        }
    }

    /// One step of scrolling under a pointer that drags a selection. A step that the content
    /// does not allow in full ends the scrolling.
    pub open spec fn autoscrolled_by(
        self,
        area: Rect,
        step: Option<AutoscrollStep>,
        restored: Option<RestoredSelection>,
    ) -> ViewportModel {
        match step {
            None => self,
            Some(s) => {
                let moved = self.rows_moved(s.direction, s.rows);
                let m = self.scrolled(s.direction, s.rows);
                let followed = m.pointed(area, restored).focused(
                    m.dragged_to(area, s.pointer, restored),
                );
                if moved == 0 {
                    m.still()
                } else if moved < s.rows {
                    followed.still()
                } else {
                    followed
                }
            },
        }
    }

    /// Whether the scrolling goes on after a step.
    pub open spec fn autoscroll_goes_on(self, step: Option<AutoscrollStep>) -> bool {
        match step {
            None => self.select.autoscroll.needs_frame,
            Some(s) => self.rows_moved(s.direction, s.rows) > 0 && self.rows_moved(
                s.direction,
                s.rows,
            ) >= s.rows,
        }
    }

    #[verifier::opaque]
    pub open spec fn autoscrolled(
        self,
        area: Rect,
        scrolls: bool,
        now: u64,
        step: Option<AutoscrollStep>,
        restored: Option<RestoredSelection>,
    ) -> ViewportModel {
        if self.select.autoscroll.pointer is None {
            self
        } else if !scrolls {
            self.with_autoscroll(false, None)
        } else {
            self.with_autoscroll(true, Some(now)).autoscrolled_by(area, step, restored)
        }
    }

    pub open spec fn autoscroll_prepared(self, scrolls: bool, now: u64) -> ViewportModel {
        if self.select.autoscroll.pointer is None {
            self
        } else {
            self.with_autoscroll(
                scrolls,
                if scrolls {
                    Some(now)
                } else {
                    None
                },
            )
        }
    }

    /// Whether a selection that is being made ends when the live tail is to change: it was made
    /// at another width, and the tail is another one.
    pub open spec fn live_change_ends_selection(
        self,
        width: u16,
        active: Option<ActiveCellRenderKey>,
    ) -> bool {
        &&& self.selecting()
        &&& !(self.select.cache matches Some(cache) && cache.width == width)
        &&& self.live.key matches Some(current) && Some(current.content) != active
    }

    /// Whether the live tail waits for a selection that is being made.
    pub open spec fn live_waits(self, width: u16) -> bool {
        self.selecting() && ((self.select.cache matches Some(cache) && cache.width == width)
            || self.live.key is None)
    }

    /// The viewport whose live tail is about to change.
    pub open spec fn live_ready(
        self,
        width: u16,
        active: Option<ActiveCellRenderKey>,
    ) -> ViewportModel {
        if self.live_change_ends_selection(width, active) {
            self.cancelled()
        } else {
            self
        }
    }

    pub open spec fn next_key(width: u16, active: Option<ActiveCellRenderKey>) -> Option<
        LiveTailKey,
    > {
        match active {
            Some(content) => Some(LiveTailKey { width, content }),
            None => None,
        }
    }

    /// Whether a live tail is built anew.
    pub open spec fn live_rebuilds(self, width: u16, active: Option<ActiveCellRenderKey>) -> bool {
        !self.live_waits(width) && self.live_ready(width, active).live.key != Self::next_key(
            width,
            active,
        )
    }

    /// Another live tail behind the committed cells.
    #[verifier::opaque]
    pub open spec fn with_live(
        self,
        width: u16,
        active: Option<ActiveCellRenderKey>,
        fresh: LiveModel,
    ) -> ViewportModel {
        let m = self.live_ready(width, active);
        if self.live_waits(width) {
            self
        } else if !self.live_rebuilds(width, active) {
            m
        } else {
            let live = live_after(m.live, Self::next_key(width, active), fresh);
            let kept = if m.selecting() {
                m
            } else {
                m.with_cache(None)
            };
            ViewportModel {
                items: m.committed_items() + live_items(live_cells(live), m.cells.len() > 0),
                live,
                ..kept
            }.at_end_if(!m.selecting() && m.follows())
        }
    }

    /// The lanes that a change of the live tail counts as rebuilt.
    pub open spec fn live_bumps(self, width: u16, active: Option<ActiveCellRenderKey>) -> Seq<
        Tally,
    > {
        if self.live_rebuilds(width, active) {
            lane_bumps(self.live_ready(width, active).live, Self::next_key(width, active))
        } else {
            Seq::empty()
        }
    }

    /// A frame of the given size.
    pub open spec fn settled(self, width: u16, height: u16, mode: BottomFollowMode) -> ViewportModel {
        let max = pager_content::last_offset(self.items, width, height);
        let scroll = if mode == BottomFollowMode::Enabled && self.following {
            max
        } else {
            pager_content::in_range(self.scroll, max)
        };
        ViewportModel {
            scroll: scroll as usize,
            max_scroll: max as usize,
            following: if mode == BottomFollowMode::Enabled {
                scroll == max
            } else {
                self.following
            },
            ..self
        }
    }

    /// The view that a frame lays out: where rows are remembered for a selection, they are
    /// brought up to date.
    pub open spec fn thawed(self, area: Rect, restored: Option<RestoredSelection>) -> ViewportModel {
        let thawed = ViewportModel { frozen: false, ..self };
        if self.select.cache is Some {
            thawed.projected(area.width, restored)
        } else {
            thawed
        }
    }

    /// The view with every committed cell laid out at a width.
    pub open spec fn prepared_at(self, width: u16) -> ViewportModel {
        ViewportModel {
            items: pager_content::prepared_items(self.items, self.cells.len() as int, width),
            ..self
        }
    }

    #[verifier::opaque]
    pub open spec fn rendered(self, area: Rect, restored: Option<RestoredSelection>) -> ViewportModel {
        let mode = if self.selecting() || self.frozen {
            BottomFollowMode::Frozen
        } else {
            BottomFollowMode::Enabled
        };
        self.thawed(area, restored).prepared_at(area.width).settled(area.width, area.height, mode)
    }

    /// Whether a cell, or the blank row above it, is on the screen.
    pub open spec fn shows(self, area: Rect, index: int) -> bool {
        self.range_shows(area.width, index, 1, area)
    }

    /// What the draw of those of the first committed cells that are on the screen counts.
    pub open spec fn draw_tallies(self, area: Rect, count: int) -> Seq<Tally>
        decreases count,
    {
        if count <= 0 {
            Seq::empty()
        } else if self.shows(area, count - 1) {
            self.draw_tallies(area, count - 1) + prepared_cell::draw_tallies(
                self.items[count - 1].prepared,
                area.width,
            )
        } else {
            self.draw_tallies(area, count - 1)
        }
    }

    /// Whether every committed cell was last laid out at a width.
    pub open spec fn laid_out_at(self, width: u16) -> bool {
        forall|i: int|
            0 <= i < self.cells.len() ==> (#[trigger] self.items[i]).prepared == Some(width)
    }

    /// What the draw of those of the first committed cells that are on the screen counts where
    /// each of them was laid out before.
    pub open spec fn warm_tallies(self, area: Rect, count: int) -> Seq<Tally>
        decreases count,
    {
        if count <= 0 {
            Seq::empty()
        } else if self.shows(area, count - 1) {
            self.warm_tallies(area, count - 1) + seq![
                Tally::Metric(QuietMetric::LayoutVisibleCellDraw),
                Tally::Metric(QuietMetric::PreparedCellCacheHit),
            ]
        } else {
            self.warm_tallies(area, count - 1)
        }
    }

    /// What a frame counts: the layouts of the committed cells that were not laid out at its
    /// width, and the draws of those on the screen.
    #[verifier::opaque]
    pub open spec fn frame_tallies(self, area: Rect, restored: Option<RestoredSelection>) -> Seq<
        Tally,
    > {
        let before = self.thawed(area, restored);
        let after = self.rendered(area, restored);
        pager_content::layout_tallies(before.items, before.cells.len() as int, area.width)
            + after.draw_tallies(area, after.cells.len() as int)
    }

    /// The committed cell under a position on the screen.
    #[verifier::opaque]
    pub open spec fn hit(self, area: Rect, position: Position) -> Option<ConversationCellHit> {
        let row = pager_layout::row_sum(self.scroll as int, below(position.y, area.y) as int);
        if area.empty_area() || !area.holds(position) {
            None
        } else {
            match pager_content::hit_of(self.items, area.width, row) {
                Some((index, row_within_cell)) => if index < self.cells.len() {
                    Some(ConversationCellHit { index, row_within_cell })
                } else {
                    None
                },
                None => None,
            }
        }
    }

    /// Whether any row of a range of cells is on the screen.
    #[verifier::opaque]
    pub open spec fn range_shows(self, width: u16, start: int, count: int, area: Rect) -> bool {
        &&& !area.empty_area()
        &&& count > 0
        &&& pager_content::item_top(self.items, width, start) < pager_layout::row_sum(
            self.scroll as int,
            area.height as int,
        )
        &&& pager_content::item_top(self.items, width, start + count) > self.scroll
    }

    /// The first and the last committed cell on the screen.
    #[verifier::opaque]
    pub open spec fn visible_range(self, area: Rect) -> Option<(usize, usize)> {
        let bottom = pager_layout::row_sum(self.scroll as int, below(area.height, 1) as int);
        if area.empty_area() || self.cells.len() == 0 {
            None
        } else {
            match (
                pager_content::hit_of(self.items, area.width, self.scroll as int),
                pager_content::hit_of(self.items, area.width, bottom),
            ) {
                (Some((first, _)), Some((last, _))) => Some(
                    (
                        clamp_to(first as int, self.cells.len() - 1) as usize,
                        clamp_to(last as int, self.cells.len() - 1) as usize,
                    ),
                ),
                _ => None,
            }
        }
    }
}

/// Laying cells out leaves a viewport in order.
pub proof fn lemma_prepared_wf(m: ViewportModel, width: u16)
    requires
        m.wf(),
    ensures
        m.prepared_at(width).wf(),
{
    let n = m.prepared_at(width);
    assert forall|i: int| 0 <= i < n.cells.len() implies (#[trigger] n.items[i]).body == (
    BodyModel::Cell { cell: n.cells[i], mode: n.mode }) by {
        assert(m.items[i].body == (BodyModel::Cell { cell: m.cells[i], mode: m.mode }));
    }
    assert(n.items.skip(n.cells.len() as int) =~= m.items.skip(m.cells.len() as int));
}

/// No frame counts live rows among its layouts and draws.
pub proof fn lemma_frame_tallies(m: ViewportModel, area: Rect, restored: Option<RestoredSelection>)
    ensures
        ledger::occurrences(m.frame_tallies(area, restored), QuietMetric::LiveTailMaxRows) == 0,
{
    reveal(ViewportModel::frame_tallies);
    let before = m.thawed(area, restored);
    let after = m.rendered(area, restored);
    let a = pager_content::layout_tallies(before.items, before.cells.len() as int, area.width);
    let b = after.draw_tallies(area, after.cells.len() as int);
    pager_content::lemma_layout_tallies(before.items, before.cells.len() as int, area.width);
    lemma_draw_tallies(after, area, after.cells.len() as int);
    ledger::lemma_occurrences_concat(a, b, QuietMetric::LiveTailMaxRows);
}

pub proof fn lemma_warm_tallies(m: ViewportModel, area: Rect, count: int)
    requires
        m.laid_out_at(area.width),
        count <= m.cells.len(),
    ensures
        m.draw_tallies(area, count) == m.warm_tallies(area, count),
    decreases count,
{
    if count > 0 {
        lemma_warm_tallies(m, area, count - 1);
        assert(m.items[count - 1].prepared == Some(area.width));
        prepared_cell::law_same_width_is_laid_out_once(area.width);
    }
}

/// The layout of cells that are all laid out at its width counts nothing.
pub proof fn lemma_warm_layout(items: Seq<ItemModel>, count: int, width: u16)
    requires
        count <= items.len(),
        forall|i: int| 0 <= i < count ==> (#[trigger] items[i]).prepared == Some(width),
    ensures
        pager_content::layout_tallies(items, count, width) == Seq::<Tally>::empty(),
    decreases count,
{
    if count > 0 {
        lemma_warm_layout(items, count - 1, width);
        assert(items[count - 1].prepared == Some(width));
        assert(pager_content::layout_tallies(items, count, width) =~= Seq::<Tally>::empty());
    }
}

/// A frame has every committed cell laid out at its width. Where those that it shows were so
/// before, the frame lays nothing out: it counts its draws, and each of them takes the last
/// layout. It shows the cells from before unless it ends a selection that changes waited for.
pub proof fn law_warm_frames_lay_nothing_out(
    m: ViewportModel,
    area: Rect,
    restored: Option<RestoredSelection>,
)
    requires
        m.wf(),
    ensures
        m.rendered(area, restored).laid_out_at(area.width),
        m.deferred is None && m.deferred_mode is None ==> m.thawed(area, restored).cells == m.cells
            && m.thawed(area, restored).items == m.items,
        m.thawed(area, restored).laid_out_at(area.width) ==> m.frame_tallies(area, restored)
            == m.rendered(area, restored).warm_tallies(
            area,
            m.rendered(area, restored).cells.len() as int,
        ),
{
    reveal(ViewportModel::rendered);
    reveal(ViewportModel::frame_tallies);
    let before = m.thawed(area, restored);
    let after = m.rendered(area, restored);
    let count = before.cells.len() as int;
    assert(before.items.len() >= count) by {
        if m.deferred is Some || m.deferred_mode is Some {
            lemma_cancelled_wf(m);
        }
    }
    lemma_warm_tallies(after, area, count);
    if before.laid_out_at(area.width) {
        lemma_warm_layout(before.items, count, area.width);
        assert(m.frame_tallies(area, restored) =~= after.warm_tallies(area, count));
    }
}

proof fn lemma_draw_tallies(m: ViewportModel, area: Rect, count: int)
    ensures
        ledger::occurrences(m.draw_tallies(area, count), QuietMetric::LiveTailMaxRows) == 0,
    decreases count,
{
    if count > 0 {
        lemma_draw_tallies(m, area, count - 1);
        if m.shows(area, count - 1) {
            let last = m.items[count - 1].prepared;
            prepared_cell::lemma_no_live_rows(last, area.width);
            ledger::lemma_occurrences_concat(
                m.draw_tallies(area, count - 1),
                prepared_cell::draw_tallies(last, area.width),
                QuietMetric::LiveTailMaxRows,
            );
        }
    }
}

pub proof fn lemma_cancelled_wf(m: ViewportModel)
    requires
        m.wf(),
    ensures
        m.cancelled().wf(),
        !m.cancelled().selecting(),
{
    let n = m.cancelled();
    if m.deferred is Some || m.deferred_mode is Some {
        assert(n.items.skip(n.cells.len() as int) =~= live_items(
            live_cells(n.live),
            n.cells.len() > 0,
        ));
    }
}

/// A selection that ends leaves a viewport in order.
pub proof fn lemma_ended_wf(m: ViewportModel)
    requires
        m.wf(),
    ensures
        m.with_endpoints(None).caught_up().wf(),
        !m.with_endpoints(None).caught_up().selecting(),
{
    let n = m.with_endpoints(None).caught_up();
    if m.deferred is Some || m.deferred_mode is Some {
        assert(n.items.skip(n.cells.len() as int) =~= live_items(
            live_cells(n.live),
            n.cells.len() > 0,
        ));
    }
}

pub proof fn lemma_replaced_wf(
    m: ViewportModel,
    width: u16,
    from: int,
    to: int,
    replacement: Seq<ShownCell>,
)
    requires
        m.wf(),
        0 <= from <= to <= m.cells.len(),
    ensures
        m.replaced(width, from, to, replacement).wf(),
{
    let n = m.replaced(width, from, to, replacement);
    let body = m.replaced_items(from, to, replacement);
    assert(n.items.skip(n.cells.len() as int) =~= live_items(
        live_cells(n.live),
        n.cells.len() > 0,
    ));
    assert forall|i: int| 0 <= i < n.cells.len() implies (#[trigger] n.items[i]).body == (
    BodyModel::Cell { cell: n.cells[i], mode: n.mode }) by {
        if i >= from + replacement.len() {
            let j = i - replacement.len() - from + to;
            assert(body[i] == m.committed_items().skip(to)[j - to]);
            assert(m.items[j].body == (BodyModel::Cell { cell: m.cells[j], mode: m.mode }));
        } else if i < from {
            assert(body[i] == m.items[i]);
        }
    }
}

} // verus!
