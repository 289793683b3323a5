//! Retained conversation rendering for an application-owned terminal viewport.
//!
//! This module owns the projection of a transcript onto the screen and its bottom-follow state.
//! While text is being selected the retained content stays as it is; changes wait until the
//! selection ends.

use std::sync::Arc;

use vstd::prelude::*;

use crate::compact_tool_groups;
use crate::compact_tool_groups::ViewCell;
use crate::geometry::Position;
use crate::geometry::Rect;
use crate::history_cell;
use crate::history_cell::HistoryRenderMode;
use crate::ledger;
use crate::ledger::QuietLedger;
use crate::ledger::Tally;
use crate::pager_content;
use crate::pager_content::ActiveCellDisplaySnapshot;
use crate::pager_content::BottomFollowMode;
use crate::pager_content::ItemBody;
use crate::pager_content::MouseScrollDirection;
use crate::pager_content::PagerContent;
use crate::pager_content::PagerItem;
use crate::pager_layout;
use crate::prepared_cell;
use crate::prepared_cell::PreparedConversationCell;
use crate::quiet_metrics::QuietMetric;
use crate::viewport_model;
use crate::viewport_model::ActiveCellRenderKey;
use crate::viewport_model::AutoscrollStep;
use crate::viewport_model::CacheModel;
use crate::viewport_model::ConversationCellHit;
use crate::viewport_model::ConversationSelection;
use crate::viewport_model::LiveModel;
use crate::viewport_model::LiveTailKey;
use crate::viewport_model::RestoredSelection;
use crate::viewport_model::SelectModel;
use crate::viewport_model::SelectionAutoscroll;
use crate::viewport_model::SelectionCellLayout;
use crate::viewport_model::SelectionPoint;
use crate::viewport_model::ViewportModel;

verus! {

/// The rows of all cells at one width, and which cells' texts have been asked for.
pub struct SelectionProjectionCache {
    pub width: u16,
    pub render_mode: HistoryRenderMode,
    pub computed: Vec<bool>,
    pub layout: Vec<SelectionCellLayout>,
}

/// Everything about a selection.
pub struct SelectionState {
    pub selection: ConversationSelection,
    pub pointer: Option<Position>,
    pub autoscroll: SelectionAutoscroll,
    pub last_tick: Option<u64>,
    pub cache: Option<SelectionProjectionCache>,
}

impl View for SelectionState {
    type V = SelectModel;

    open spec fn view(&self) -> SelectModel {
        SelectModel {
            selection: self.selection,
            pointer: self.pointer,
            autoscroll: self.autoscroll,
            last_tick: self.last_tick,
            cache: match self.cache {
                Some(cache) => Some(
                    CacheModel {
                        width: cache.width,
                        mode: cache.render_mode,
                        computed: cache.computed@,
                        layout: cache.layout@,
                    },
                ),
                None => None,
            },
        }
    }
}

/// The cells behind the committed ones, by lane.
pub struct LiveTail {
    pub key: Option<LiveTailKey>,
    pub primary: Vec<Arc<ActiveCellDisplaySnapshot>>,
    pub token: Vec<Arc<ActiveCellDisplaySnapshot>>,
    pub rate_limit: Vec<Arc<ActiveCellDisplaySnapshot>>,
}

impl View for LiveTail {
    type V = LiveModel;

    open spec fn view(&self) -> LiveModel {
        LiveModel {
            key: self.key,
            primary: self.primary@,
            token: self.token@,
            rate_limit: self.rate_limit@,
        }
    }
}

pub struct ConversationViewport {
    pub content: PagerContent,
    pub cells: Vec<ViewCell>,
    pub render_mode: HistoryRenderMode,
    pub live: LiveTail,
    pub deferred_cells: Option<Vec<ViewCell>>,
    pub deferred_render_mode: Option<HistoryRenderMode>,
    pub select: SelectionState,
    pub freeze_bottom_follow_once: bool,
}

impl View for ConversationViewport {
    type V = ViewportModel;

    open spec fn view(&self) -> ViewportModel {
        ViewportModel {
            items: self.content.models(),
            scroll: self.content.scroll_offset,
            following: self.content.following,
            max_scroll: self.content.max_scroll,
            cells: compact_tool_groups::shown(self.cells@),
            mode: self.render_mode,
            live: self.live@,
            deferred: match self.deferred_cells {
                Some(cells) => Some(compact_tool_groups::shown(cells@)),
                None => None,
            },
            deferred_mode: self.deferred_render_mode,
            select: self.select@,
            frozen: self.freeze_bottom_follow_once,
        }
    }
}

fn is_same_record(a: &ViewCell, b: &ViewCell) -> (r: bool)
    ensures
        r == viewport_model::same_record(a@, b@),
{
    match (a, b) {
        (ViewCell::Source(x), ViewCell::Source(y)) => x.id == y.id,
        _ => false,
    }
}

fn cell_continues_stream(cell: &ViewCell) -> (r: bool)
    ensures
        r == viewport_model::continues_stream(cell@),
{
    match cell {
        ViewCell::Source(source) => source.stream_continuation,
        ViewCell::Work(_) => false,
    }
}

fn cell_renderable(cell: &ViewCell, mode: HistoryRenderMode, has_prior_cells: bool) -> (r:
    PagerItem)
    ensures
        r@ == viewport_model::item_for(cell@, mode, has_prior_cells),
        r.ready(),
{
    PagerItem {
        spaced: has_prior_cells && !cell_continues_stream(cell),
        body: ItemBody::Cell { cell: cell.share(), mode },
        prepared: None,
    }
}

/// The items of cells that stand at position `first` and after.
fn render_cells(cells: &Vec<ViewCell>, mode: HistoryRenderMode, first: usize) -> (r: Vec<PagerItem>)
    ensures
        pager_content::all_ready(r@),
        pager_content::item_models(r@) == viewport_model::items_for(
            compact_tool_groups::shown(cells@),
            mode,
            first as int,
        ),
{
    let ghost all = viewport_model::items_for(
        compact_tool_groups::shown(cells@),
        mode,
        first as int,
    );
    let mut out: Vec<PagerItem> = Vec::new();
    let mut i: usize = 0;
    while i < cells.len()
        invariant
            i <= cells@.len(),
            all == viewport_model::items_for(
                compact_tool_groups::shown(cells@),
                mode,
                first as int,
            ),
            pager_content::all_ready(out@),
            pager_content::item_models(out@) == all.take(i as int),
        decreases cells@.len() - i,
    {
        let item = cell_renderable(&cells[i], mode, first > 0 || i > 0);
        proof {
            assert(all[i as int] == item@);
            pager_content::lemma_item_models_push(out@, item);
            assert(all.take(i + 1) =~= all.take(i as int).push(item@));
        }
        out.push(item);
        i += 1;
    }
    proof {
        assert(all.take(cells@.len() as int) =~= all);
    }
    out
}

/// Further handles to the same cells.
pub fn share_cells(cells: &Vec<ViewCell>) -> (r: Vec<ViewCell>)
    ensures
        r@ == cells@,
{
    let mut out: Vec<ViewCell> = Vec::new();
    let mut i: usize = 0;
    while i < cells.len()
        invariant
            i <= cells@.len(),
            out@ == cells@.take(i as int),
        decreases cells@.len() - i,
    {
        out.push(cells[i].share());
        proof {
            assert(out@ =~= cells@.take(i + 1));
        }
        i += 1;
    }
    proof {
        assert(cells@.take(cells@.len() as int) =~= cells@);
    }
    out
}

fn splice_cells(cells: &mut Vec<ViewCell>, from: usize, to: usize, replacement: Vec<ViewCell>)
    requires
        from <= to,
    ensures
        compact_tool_groups::shown(final(cells)@) == viewport_model::spliced(
            compact_tool_groups::shown(old(cells)@),
            from as int,
            to as int,
            compact_tool_groups::shown(replacement@),
        ),
{
    let ghost before = cells@;
    let len: usize = cells.len();
    let first: usize = if from <= len {
        from
    } else {
        len
    };
    let last: usize = if to <= len {
        to
    } else {
        len
    };
    let mut more = replacement;
    let mut tail = cells.split_off(last);
    cells.truncate(first);
    cells.append(&mut more);
    cells.append(&mut tail);
    proof {
        assert(cells@ =~= viewport_model::spliced(before, from as int, to as int, replacement@));
        assert(compact_tool_groups::shown(cells@) =~= viewport_model::spliced(
            compact_tool_groups::shown(before),
            from as int,
            to as int,
            compact_tool_groups::shown(replacement@),
        ));
    }
}

fn smaller(a: usize, b: usize) -> (r: usize)
    ensures
        r == viewport_model::clamp_to(a as int, b as int),
{
    if a <= b {
        a
    } else {
        b
    }
}

impl ConversationViewport {
    pub open spec fn wf(&self) -> bool {
        self.content.wf() && self@.wf()
    }

    pub fn new(cells: Vec<ViewCell>, render_mode: HistoryRenderMode) -> (r: Self)
        ensures
            r.wf(),
            r@.cells == compact_tool_groups::shown(cells@),
            r@.items == viewport_model::items_for(
                compact_tool_groups::shown(cells@),
                render_mode,
                0,
            ),
            r@.mode == render_mode,
            r@.live == viewport_model::no_live(),
            r@.deferred is None && r@.deferred_mode is None,
            !r@.selecting(),
            r@.select.cache is None && r@.select.pointer is None && r@.select.last_tick is None,
            r@.select.autoscroll.pointer is None && !r@.select.autoscroll.needs_frame,
            r@.scroll == usize::MAX && r@.following && r@.max_scroll == 0 && !r@.frozen,
    {
        let items = render_cells(&cells, render_mode, 0);
        let r = ConversationViewport {
            content: PagerContent::new(items),
            cells,
            render_mode,
            live: LiveTail {
                key: None,
                primary: Vec::new(),
                token: Vec::new(),
                rate_limit: Vec::new(),
            },
            deferred_cells: None,
            deferred_render_mode: None,
            select: SelectionState {
                selection: ConversationSelection { endpoints: None },
                pointer: None,
                autoscroll: SelectionAutoscroll { pointer: None, needs_frame: false },
                last_tick: None,
                cache: None,
            },
            freeze_bottom_follow_once: false,
        };
        proof {
            assert(r@.live =~= viewport_model::no_live());
            assert(r@.items.skip(r@.cells.len() as int) =~= viewport_model::live_items(
                viewport_model::live_cells(r@.live),
                r@.cells.len() > 0,
            ));
        }
        r
    }

    pub fn selection_is_active(&self) -> (r: bool)
        ensures
            r == self@.selecting(),
    {
        self.select.selection.endpoints.is_some()
    }

    pub fn scroll_offset(&self) -> (r: usize)
        ensures
            r == self@.scroll,
    {
        self.content.scroll_offset()
    }

    pub fn is_following_bottom(&self) -> (r: bool)
        ensures
            r == self@.following,
    {
        self.content.is_following_bottom()
    }

    pub fn committed_cell_count(&self) -> (r: usize)
        ensures
            r == self@.cells.len(),
    {
        self.cells.len()
    }

    pub fn committed_cell(&self, index: usize) -> (r: Option<&ViewCell>)
        ensures
            match r {
                Some(cell) => index < self@.cells.len() && cell@ == self@.cells[index as int],
                None => index >= self@.cells.len(),
            },
    {
        if index < self.cells.len() {
            Some(&self.cells[index])
        } else {
            None
        }
    }

    /// The position of the committed cell that is a handle to a record.
    pub fn committed_cell_position(&self, target: u64) -> (r: Option<usize>)
        ensures
            match r {
                Some(i) => viewport_model::record_position(self@.cells, target) == Some(i as int),
                None => viewport_model::record_position(self@.cells, target) is None,
            },
    {
        let ghost cells = self@.cells;
        let mut found: Option<usize> = None;
        let mut i: usize = 0;
        while i < self.cells.len()
            invariant
                i <= self.cells@.len(),
                cells == compact_tool_groups::shown(self.cells@),
                match found {
                    Some(k) => viewport_model::record_position(cells.take(i as int), target)
                        == Some(k as int),
                    None => viewport_model::record_position(cells.take(i as int), target) is None,
                },
            decreases self.cells@.len() - i,
        {
            proof {
                assert(cells.take(i + 1).drop_last() =~= cells.take(i as int));
                assert(cells.take(i + 1).last() == self.cells@[i as int]@);
            }
            if found.is_none() {
                if let ViewCell::Source(source) = &self.cells[i] {
                    if source.id == target {
                        found = Some(i);
                    }
                }
            }
            i += 1;
        }
        proof {
            assert(cells.take(cells.len() as int) =~= cells);
        }
        found
    }

    fn should_follow_bottom(&self) -> (r: bool)
        ensures
            r == self@.follows(),
    {
        !self.freeze_bottom_follow_once && self.content.is_following_bottom()
    }

    /// Keeps an offset through the next frame, whatever changes.
    pub fn preserve_scroll_offset_through_next_render(&mut self, scroll_offset: usize)
        requires
            old(self).wf(),
        ensures
            final(self).wf(),
            final(self)@ == (ViewportModel {
                frozen: true,
                ..old(self)@.at_offset(scroll_offset)
            }),
    {
        self.content.set_scroll_offset(scroll_offset);
        self.freeze_bottom_follow_once = true;
    }

    fn stop_selection_autoscroll(&mut self)
        requires
            old(self).content.wf(),
        ensures
            final(self).content.wf(),
            final(self)@ == old(self)@.still(),
    {
        self.select.autoscroll = SelectionAutoscroll { pointer: None, needs_frame: false };
        self.select.last_tick = None;
    }

    /// Drops the items of the live cells.
    fn take_live_tail_renderables(&mut self)
        requires
            old(self).content.wf(),
            old(self)@.cells.len() <= old(self)@.items.len(),
        ensures
            final(self).content.wf(),
            final(self)@ == (ViewportModel {
                items: old(self)@.committed_items(),
                ..old(self)@
            }),
    {
        let committed: usize = self.cells.len();
        self.content.truncate(committed);
    }

    fn push_lane(
        content: &mut PagerContent,
        lane: &Vec<Arc<ActiveCellDisplaySnapshot>>,
        has_prior: bool,
    )
        requires
            old(content).wf(),
        ensures
            final(content).wf(),
            final(content).models() == old(content).models() + viewport_model::live_items(
                lane@,
                has_prior,
            ),
            final(content).same_place(old(content)),
    {
        let ghost before = content.models();
        let ghost all = viewport_model::live_items(lane@, has_prior);
        let mut k: usize = 0;
        proof {
            assert(before + all.take(0) =~= before);
        }
        while k < lane.len()
            invariant
                k <= lane@.len(),
                all == viewport_model::live_items(lane@, has_prior),
                content.wf(),
                content.models() == before + all.take(k as int),
                content.same_place(old(content)),
            decreases lane@.len() - k,
        {
            let item = PagerItem {
                spaced: (has_prior || k > 0) && !lane[k].is_stream_continuation,
                body: ItemBody::Live(history_cell::share(&lane[k])),
                prepared: None,
            };
            proof {
                assert(all[k as int] == item@);
                assert(all.take(k + 1) =~= all.take(k as int).push(item@));
                assert(before + all.take(k + 1) =~= (before + all.take(k as int)).push(item@));
            }
            content.push(item);
            k += 1;
        }
        proof {
            assert(all.take(lane@.len() as int) =~= all);
        }
    }

    /// Appends the items of the live cells.
    fn push_live_tail_renderables(&mut self)
        requires
            old(self).content.wf(),
        ensures
            final(self).content.wf(),
            final(self)@ == (ViewportModel {
                items: old(self)@.items + viewport_model::live_items(
                    viewport_model::live_cells(old(self)@.live),
                    old(self)@.cells.len() > 0,
                ),
                ..old(self)@
            }),
    {
        let ghost before = self@;
        let any_cells = self.cells.len() > 0;
        Self::push_lane(&mut self.content, &self.live.primary, any_cells);
        let any_primary = any_cells || self.live.primary.len() > 0;
        Self::push_lane(&mut self.content, &self.live.token, any_primary);
        let any_token = any_primary || self.live.token.len() > 0;
        Self::push_lane(&mut self.content, &self.live.rate_limit, any_token);
        proof {
            let all = viewport_model::live_items(
                viewport_model::live_cells(before.live),
                any_cells,
            );
            assert(viewport_model::live_items(before.live.primary, any_cells)
                + viewport_model::live_items(before.live.token, any_primary)
                + viewport_model::live_items(before.live.rate_limit, any_token) =~= all);
            assert(self.content.models() =~= before.items + all);
        }
    }

    fn clear_live(&mut self)
        requires
            old(self).content.wf(),
        ensures
            final(self).content.wf(),
            final(self)@ == (ViewportModel { live: viewport_model::no_live(), ..old(self)@ }),
    {
        self.live.key = None;
        self.live.primary.clear();
        self.live.token.clear();
        self.live.rate_limit.clear();
        proof {
            assert(self@.live =~= viewport_model::no_live());
        }
    }

    fn scroll_to_bottom_if(&mut self, follow_bottom: bool)
        requires
            old(self).content.wf(),
        ensures
            final(self).content.wf(),
            final(self)@ == old(self)@.at_end_if(follow_bottom),
    {
        if follow_bottom {
            self.content.scroll_to_bottom();
        }
    }

    fn apply_deferred_state(&mut self)
        requires
            old(self).content.wf(),
        ensures
            final(self).content.wf(),
            final(self)@ == old(self)@.caught_up(),
    {
        let ghost before = self@;
        let deferred_cells = self.deferred_cells.take();
        let deferred_render_mode = self.deferred_render_mode.take();
        if deferred_cells.is_none() && deferred_render_mode.is_none() {
            return;
        }
        let follow_bottom = self.should_follow_bottom();
        self.clear_live();
        if let Some(cells) = deferred_cells {
            self.cells = cells;
        }
        if let Some(render_mode) = deferred_render_mode {
            self.render_mode = render_mode;
        }
        let items = render_cells(&self.cells, self.render_mode, 0);
        self.content.replace(items);
        self.select.cache = None;
        proof {
            assert(self@.cells =~= before.upcoming());
        }
        self.scroll_to_bottom_if(follow_bottom);
    }

    pub fn cancel_selection(&mut self)
        requires
            old(self).wf(),
        ensures
            final(self).wf(),
            final(self)@ == old(self)@.cancelled(),
            !final(self)@.selecting(),
    {
        let ghost before = self@;
        self.stop_selection_autoscroll();
        self.select.pointer = None;
        self.select.selection = ConversationSelection { endpoints: None };
        proof {
            assert(self@ =~= before.still().pointing(None).with_endpoints(None));
        }
        self.apply_deferred_state();
        proof {
            viewport_model::lemma_cancelled_wf(before);
        }
    }

    fn invalidate_selection_projections(&mut self)
        requires
            old(self).wf(),
        ensures
            final(self).wf(),
            final(self)@ == old(self)@.invalidated(),
            !final(self)@.selecting(),
    {
        self.cancel_selection();
        self.select.cache = None;
    }

    /// The cells that wait, for a change while a selection is made.
    fn waiting_cells(&mut self) -> (r: Vec<ViewCell>)
        requires
            old(self).content.wf(),
        ensures
            final(self).content.wf(),
            final(self)@ == (ViewportModel { deferred: None, ..old(self)@ }),
            compact_tool_groups::shown(r@) == old(self)@.upcoming(),
    {
        match self.deferred_cells.take() {
            Some(cells) => cells,
            None => share_cells(&self.cells),
        }
    }

    pub fn push_cell(&mut self, cell: ViewCell)
        requires
            old(self).wf(),
        ensures
            final(self).wf(),
            final(self)@ == old(self)@.pushed(cell@),
    {
        proof {
            reveal(ViewportModel::pushed);
        }
        let ghost start = self@;
        if self.selection_is_active() {
            let mut waiting = self.waiting_cells();
            proof {
                assert(compact_tool_groups::shown(waiting@.push(cell)) =~= start.upcoming().push(
                    cell@,
                ));
            }
            waiting.push(cell);
            self.deferred_cells = Some(waiting);
            return;
        }
        self.invalidate_selection_projections();
        let ghost m = self@;
        let follow_bottom = self.should_follow_bottom();
        let had_prior_cells = self.cells.len() > 0;
        self.take_live_tail_renderables();
        let item = cell_renderable(&cell, self.render_mode, had_prior_cells);
        proof {
            assert(compact_tool_groups::shown(self.cells@.push(cell)) =~= m.cells.push(cell@));
        }
        self.cells.push(cell);
        self.content.push(item);
        self.push_live_tail_renderables();
        self.scroll_to_bottom_if(follow_bottom);
        proof {
            assert(self@ =~= start.pushed(cell@));
            assert(self@.items.skip(self@.cells.len() as int) =~= viewport_model::live_items(
                viewport_model::live_cells(m.live),
                true,
            ));
        }
    }

    /// Replaces cells while nothing is selected and nothing is remembered for a selection.
    fn replace_committed(
        &mut self,
        width: u16,
        from: usize,
        to: usize,
        replacement: Vec<ViewCell>,
    )
        requires
            old(self).wf(),
            from <= to <= old(self)@.cells.len(),
        ensures
            final(self).content.wf(),
            final(self)@ == old(self)@.replaced(
                width,
                from as int,
                to as int,
                compact_tool_groups::shown(replacement@),
            ),
    {
        let ghost m = self@;
        let ghost cells = compact_tool_groups::shown(replacement@);
        let ghost before = m.committed_items();
        let ghost after = m.replaced_items(from as int, to as int, cells);
        let follow_bottom = self.should_follow_bottom();
        self.take_live_tail_renderables();
        let scroll_offset = self.content.scroll_offset();
        let replacement_len: usize = replacement.len();
        let (old_top, old_bottom) = self.content.renderable_range_rows(width, from, to - from);
        let next_renderables = render_cells(&replacement, self.render_mode, from);
        splice_cells(&mut self.cells, from, to, replacement);
        self.content.replace_range(from, to - from, next_renderables);
        proof {
            assert(self.content.models() =~= after);
            assert(compact_tool_groups::shown(self.cells@) =~= m.cells.take(from as int) + cells
                + m.cells.skip(to as int));
        }
        let (new_top, new_bottom) = self.content.renderable_range_rows(
            width,
            from,
            replacement_len,
        );
        self.push_live_tail_renderables();
        if follow_bottom {
            self.content.scroll_to_bottom();
        } else if old_bottom <= scroll_offset {
            proof {
                pager_layout::lemma_top_of_monotone(
                    pager_content::heights_of(before, width),
                    from as int,
                    to as int,
                );
                pager_layout::lemma_top_of_monotone(
                    pager_content::heights_of(after, width),
                    from as int,
                    from + cells.len(),
                );
            }
            let old_height: usize = old_bottom - old_top;
            let new_height: usize = new_bottom - new_top;
            let adjusted: usize = if new_height >= old_height {
                scroll_offset.saturating_add(new_height - old_height)
            } else {
                scroll_offset.saturating_sub(old_height - new_height)
            };
            proof {
                assert(adjusted == m.replaced_offset(width, from as int, to as int, cells));
            }
            self.content.set_scroll_offset(adjusted);
        }
    }

    /// Replaces one range of committed cells without rebuilding what stands before and after it.
    pub fn replace_range(
        &mut self,
        metrics: &mut QuietLedger,
        width: u16,
        start: usize,
        remove_count: usize,
        replacement: Vec<ViewCell>,
    )
        requires
            old(self).wf(),
        ensures
            final(self).wf(),
            final(self)@ == old(self)@.with_range(
                width,
                start as int,
                remove_count as int,
                compact_tool_groups::shown(replacement@),
            ),
            ledger::counted(
                *old(metrics),
                *final(metrics),
                seq![Tally::Metric(QuietMetric::RangeReplacement)],
            ),
    {
        proof {
            reveal(ViewportModel::with_range);
        }
        ledger::bump(metrics, QuietMetric::RangeReplacement);
        let ghost begin = self@;
        let ghost cells = compact_tool_groups::shown(replacement@);
        let count: usize = self.cells.len();
        let from: usize = smaller(start, count);
        let to: usize = if remove_count <= count - from {
            from + remove_count
        } else {
            count
        };
        if self.selection_is_active() {
            let mut waiting = self.waiting_cells();
            splice_cells(&mut waiting, from, to, replacement);
            self.deferred_cells = Some(waiting);
            return;
        }
        self.invalidate_selection_projections();
        let ghost m = self@;
        self.replace_committed(width, from, to, replacement);
        proof {
            viewport_model::lemma_replaced_wf(m, width, from as int, to as int, cells);
        }
    }

    pub fn replace_cells(&mut self, cells: Vec<ViewCell>)
        requires
            old(self).wf(),
        ensures
            final(self).wf(),
            final(self)@ == old(self)@.with_cells(compact_tool_groups::shown(cells@)),
    {
        proof {
            reveal(ViewportModel::with_cells);
        }
        let ghost begin = self@;
        let ghost next = compact_tool_groups::shown(cells@);
        if self.selection_is_active() {
            self.deferred_cells = Some(cells);
            return;
        }
        self.invalidate_selection_projections();
        let ghost m = self@;
        let follow_bottom = self.should_follow_bottom();
        let kept = self.common_prefix_len(&cells);
        proof {
            viewport_model::lemma_common_prefix(m.cells, next);
        }
        let ghost target = viewport_model::items_kept(m.items, next.take(kept as int), m.mode)
            + viewport_model::items_for(next.skip(kept as int), m.mode, kept as int);
        let mut items: Vec<PagerItem> = Vec::new();
        let mut i: usize = 0;
        while i < cells.len()
            invariant
                i <= cells@.len(),
                kept <= cells@.len(),
                kept <= m.cells.len(),
                self.wf(),
                self@ == m,
                next == compact_tool_groups::shown(cells@),
                target == viewport_model::items_kept(m.items, next.take(kept as int), m.mode)
                    + viewport_model::items_for(next.skip(kept as int), m.mode, kept as int),
                pager_content::all_ready(items@),
                pager_content::item_models(items@) == target.take(i as int),
            decreases cells@.len() - i,
        {
            let item = if i < kept {
                let body = ItemBody::Cell { cell: cells[i].share(), mode: self.render_mode };
                let prepared = match self.content.items[i].prepared {
                    Some(last) => Some(
                        PreparedConversationCell {
                            width: last.width,
                            height: pager_content::measure_body(&body, last.width),
                        },
                    ),
                    None => None,
                };
                PagerItem { spaced: self.content.items[i].spaced, body, prepared }
            } else {
                cell_renderable(&cells[i], self.render_mode, i > 0)
            };
            proof {
                assert(target[i as int] == item@);
                pager_content::lemma_item_models_push(items@, item);
                assert(target.take(i + 1) =~= target.take(i as int).push(item@));
            }
            items.push(item);
            i += 1;
        }
        proof {
            assert(target.take(target.len() as int) =~= target);
        }
        self.clear_live();
        self.content.replace(items);
        self.cells = cells;
        self.scroll_to_bottom_if(follow_bottom);
        proof {
            assert(self@ =~= begin.with_cells(next));
            assert(self@.items.skip(self@.cells.len() as int) =~= viewport_model::live_items(
                viewport_model::live_cells(self@.live),
                self@.cells.len() > 0,
            ));
        }
    }

    fn common_prefix_len(&self, cells: &Vec<ViewCell>) -> (r: usize)
        ensures
            r == viewport_model::common_prefix(
                self@.cells,
                compact_tool_groups::shown(cells@),
            ),
    {
        let ghost a = self@.cells;
        let ghost b = compact_tool_groups::shown(cells@);
        let mut kept: usize = 0;
        proof {
            assert(a.skip(0) =~= a);
            assert(b.skip(0) =~= b);
        }
        while kept < self.cells.len() && kept < cells.len() && is_same_record(
            &self.cells[kept],
            &cells[kept],
        )
            invariant
                a == compact_tool_groups::shown(self.cells@),
                b == compact_tool_groups::shown(cells@),
                kept <= a.len(),
                kept <= b.len(),
                kept + viewport_model::common_prefix(a.skip(kept as int), b.skip(kept as int))
                    == viewport_model::common_prefix(a, b),
            decreases b.len() - kept,
        {
            proof {
                assert(a.skip(kept as int)[0] == a[kept as int]);
                assert(b.skip(kept as int)[0] == b[kept as int]);
                assert(a.skip(kept as int).skip(1) =~= a.skip(kept + 1));
                assert(b.skip(kept as int).skip(1) =~= b.skip(kept + 1));
            }
            kept += 1;
        }
        proof {
            if kept < a.len() && kept < b.len() {
                assert(a.skip(kept as int)[0] == a[kept as int]);
                assert(b.skip(kept as int)[0] == b[kept as int]);
            }
        }
        kept
    }

    pub fn set_render_mode(&mut self, render_mode: HistoryRenderMode)
        requires
            old(self).wf(),
        ensures
            final(self).wf(),
            final(self)@ == old(self)@.with_mode(render_mode),
    {
        let ghost begin = self@;
        let effective = match self.deferred_render_mode {
            Some(waiting) => waiting,
            None => self.render_mode,
        };
        if effective == render_mode {
            return;
        }
        if self.selection_is_active() {
            self.deferred_render_mode = Some(render_mode);
            return;
        }
        self.invalidate_selection_projections();
        let follow_bottom = self.should_follow_bottom();
        self.clear_live();
        self.render_mode = render_mode;
        let items = render_cells(&self.cells, self.render_mode, 0);
        self.content.replace(items);
        self.scroll_to_bottom_if(follow_bottom);
        proof {
            assert(self@ =~= begin.with_mode(render_mode));
            assert(self@.items.skip(self@.cells.len() as int) =~= viewport_model::live_items(
                viewport_model::live_cells(self@.live),
                self@.cells.len() > 0,
            ));
        }
    }
}

/// The text of a cell that a selection needs.
#[derive(Clone, Copy, Debug, PartialEq, Eq, Structural)]
pub struct ProjectionRequest {
    pub index: usize,
    pub width: u16,
    pub render_mode: HistoryRenderMode,
    /// Whether the text stands directly below that of the cell before, without a blank line.
    pub continues: bool,
}

/// What is asked for when a selection needs the text of a cell.
pub open spec fn cell_request(m: ViewportModel, index: usize) -> Option<ProjectionRequest> {
    match m.select.cache {
        Some(cache) if index < cache.computed.len() && !cache.computed[index as int] && index
            < m.items.len() => Some(
            ProjectionRequest {
                index,
                width: cache.width,
                render_mode: cache.mode,
                continues: index > 0 && m.continuations()[index as int],
            },
        ),
        _ => None,
    }
}

/// The viewport after the text of a cell was asked for.
pub open spec fn cell_asked(m: ViewportModel, index: usize) -> ViewportModel {
    match m.select.cache {
        Some(cache) if index < cache.computed.len() && !cache.computed[index as int] && index
            < m.items.len() => m.with_cache(
            Some(CacheModel { computed: cache.computed.update(index as int, true), ..cache }),
        ),
        _ => m,
    }
}

/// The time since the last tick of autoscrolling.
pub open spec fn elapsed_since(last_tick: Option<u64>, now: u64) -> u64 {
    match last_tick {
        Some(last) => if now >= last {
            (now - last) as u64
        } else {
            0
        },
        None => 0,
    }
}

/// The columns of a content row that a selection covers.
#[derive(Clone, Copy, Debug, PartialEq, Eq, Structural)]
pub struct SelectedSegment {
    pub content_row: usize,
    pub start: u16,
    pub end: u16,
}

/// The positions of one selected segment that are on the screen, up to a column.
pub open spec fn segment_positions(
    scroll: usize,
    area: Rect,
    segment: SelectedSegment,
    end: int,
) -> Seq<Position>
    decreases end - segment.start,
{
    let row = segment.content_row - scroll;
    if row < 0 || row >= area.height || end <= segment.start {
        Seq::empty()
    } else {
        let before = segment_positions(scroll, area, segment, end - 1);
        if end - 1 < area.width {
            before.push(
                Position {
                    x: crate::geometry::edge(area.x, (end - 1) as u16),
                    y: crate::geometry::edge(area.y, row as u16),
                },
            )
        } else {
            before
        }
    }
}

/// The positions on the screen that a selection covers.
pub open spec fn selected_positions(
    scroll: usize,
    area: Rect,
    segments: Seq<SelectedSegment>,
) -> Seq<Position>
    decreases segments.len(),
{
    if segments.len() == 0 {
        Seq::empty()
    } else {
        selected_positions(scroll, area, segments.drop_last()) + segment_positions(
            scroll,
            area,
            segments.last(),
            segments.last().end as int,
        )
    }
}

fn push_segment(out: &mut Vec<Position>, scroll: usize, area: Rect, segment: SelectedSegment)
    ensures
        final(out)@ == old(out)@ + segment_positions(scroll, area, segment, segment.end as int),
{
    let ghost before = out@;
    if segment.content_row < scroll || segment.content_row - scroll >= area.height as usize {
        proof {
            assert(out@ =~= before + Seq::<Position>::empty());
        }
        return;
    }
    let row: u16 = (segment.content_row - scroll) as u16;
    let mut column: u16 = segment.start;
    proof {
        assert(out@ =~= before + segment_positions(scroll, area, segment, column as int));
    }
    while column < segment.end
        invariant
            segment.start <= column,
            segment.start <= segment.end ==> column <= segment.end,
            segment.end < segment.start ==> column == segment.start,
            segment.content_row >= scroll,
            row == segment.content_row - scroll,
            row < area.height,
            out@ == before + segment_positions(scroll, area, segment, column as int),
        decreases segment.end - column,
    {
        if column < area.width {
            out.push(
                Position { x: area.x.saturating_add(column), y: area.y.saturating_add(row) },
            );
        }
        proof {
            assert(out@ =~= before + segment_positions(scroll, area, segment, column + 1));
        }
        column += 1;
    }
    proof {
        if segment.end < segment.start {
            assert(segment_positions(scroll, area, segment, segment.end as int)
                =~= segment_positions(scroll, area, segment, segment.start as int));
        }
    }
}

impl ConversationViewport {
    fn continues_at(&self, index: usize) -> (r: bool)
        requires
            self.wf(),
            index < self@.items.len(),
        ensures
            r == self@.continuations()[index as int],
    {
        let cells: usize = self.cells.len();
        if index < cells {
            return cell_continues_stream(&self.cells[index]);
        }
        let k: usize = index - cells;
        let primary: usize = self.live.primary.len();
        if k < primary {
            return self.live.primary[k].is_stream_continuation;
        }
        let token: usize = self.live.token.len();
        if k - primary < token {
            return self.live.token[k - primary].is_stream_continuation;
        }
        self.live.rate_limit[k - primary - token].is_stream_continuation
    }

    /// Brings the remembered rows of the content up to date for a width. `restored` is where a
    /// selection that is being made is found again on the new rows.
    fn ensure_selection_projections(&mut self, width: u16, restored: Option<RestoredSelection>)
        requires
            old(self).wf(),
        ensures
            final(self).wf(),
            final(self)@ == old(self)@.projected(width, restored),
    {
        let ghost begin = self@;
        let count: usize = self.content.len();
        let matches_cache = match &self.select.cache {
            Some(cache) => cache.width == width && cache.render_mode == self.render_mode
                && cache.computed.len() == count,
            None => false,
        };
        if matches_cache {
            return;
        }
        let selection_was_active = self.selection_is_active();
        let heights = self.content.renderable_heights(width);
        let ghost wanted = viewport_model::selection_layout(heights@, begin.continuations());
        let mut content_top: usize = 0;
        let mut layout: Vec<SelectionCellLayout> = Vec::new();
        let mut computed: Vec<bool> = Vec::new();
        let mut index: usize = 0;
        while index < count
            invariant
                index <= count,
                count == begin.items.len(),
                heights@.len() == count,
                self.wf(),
                self@ == begin,
                wanted == viewport_model::selection_layout(heights@, begin.continuations()),
                content_top == pager_layout::top_of(heights@, index as int),
                layout@ == wanted.take(index as int),
                computed@ == Seq::new(index as nat, |i: int| false),
            decreases count - index,
        {
            let leading: usize = if index > 0 && !self.continues_at(index) {
                1
            } else {
                0
            };
            let height: usize = heights[index] as usize;
            let cell = SelectionCellLayout {
                top: content_top.saturating_add(leading),
                height: height.saturating_sub(leading),
            };
            proof {
                assert(wanted[index as int] == cell);
                assert(wanted.take(index + 1) =~= wanted.take(index as int).push(cell));
                assert(Seq::new((index + 1) as nat, |i: int| false) =~= computed@.push(false));
            }
            layout.push(cell);
            computed.push(false);
            content_top = content_top.saturating_add(height);
            index += 1;
        }
        proof {
            assert(wanted.take(count as int) =~= wanted);
        }
        self.select.cache = Some(
            SelectionProjectionCache { width, render_mode: self.render_mode, computed, layout },
        );
        if selection_was_active {
            match restored {
                Some(found) => {
                    self.select.selection = ConversationSelection {
                        endpoints: Some((found.anchor, found.focus)),
                    };
                    self.content.set_scroll_offset(found.scroll_offset);
                },
                None => {
                    self.cancel_selection();
                },
            }
        }
    }

    /// Asks for the text of a cell, once for each layout.
    pub fn ensure_cell_projection(&mut self, index: usize) -> (r: Option<ProjectionRequest>)
        requires
            old(self).wf(),
        ensures
            final(self).wf(),
            r == cell_request(old(self)@, index),
            final(self)@ == cell_asked(old(self)@, index),
    {
        if index >= self.content.len() {
            return None;
        }
        let continues = index > 0 && self.continues_at(index);
        match self.select.cache.take() {
            Some(mut cache) => {
                if index >= cache.computed.len() || cache.computed[index] {
                    self.select.cache = Some(cache);
                    return None;
                }
                let request = ProjectionRequest {
                    index,
                    width: cache.width,
                    render_mode: cache.render_mode,
                    continues,
                };
                cache.computed.set(index, true);
                self.select.cache = Some(cache);
                Some(request)
            },
            None => None,
        }
    }

    fn selection_point(
        &mut self,
        area: Rect,
        position: Position,
        restored: Option<RestoredSelection>,
    ) -> (r: SelectionPoint)
        requires
            old(self).wf(),
            !area.empty_area(),
        ensures
            final(self).wf(),
            final(self)@ == old(self)@.pointed(area, restored),
            r == final(self)@.point_at(area, position),
    {
        self.ensure_selection_projections(area.width, restored);
        let right: u16 = area.right().saturating_sub(1);
        let bottom: u16 = area.bottom().saturating_sub(1);
        let x: u16 = if position.x < area.x {
            area.x
        } else if position.x > right {
            right
        } else {
            position.x
        };
        let y: u16 = if position.y < area.y {
            area.y
        } else if position.y > bottom {
            bottom
        } else {
            position.y
        };
        let screen_row: u16 = y.saturating_sub(area.y);
        SelectionPoint {
            row: self.content.scroll_offset().saturating_add(screen_row as usize),
            column: x.saturating_sub(area.x),
        }
    }

    pub fn begin_selection(
        &mut self,
        area: Rect,
        position: Position,
        restored: Option<RestoredSelection>,
    ) -> (r: bool)
        requires
            old(self).wf(),
        ensures
            final(self).wf(),
            final(self)@ == old(self)@.begun(area, position, restored),
            r == (!area.empty_area() && area.holds(position)),
    {
        proof {
            reveal(ViewportModel::begun);
        }
        if area.is_empty() {
            return false;
        }
        let point = self.selection_point(area, position, restored);
        if !area.contains(position) {
            return false;
        }
        self.stop_selection_autoscroll();
        self.select.pointer = None;
        self.select.selection = ConversationSelection { endpoints: Some((point, point)) };
        true
    }

    fn move_focus(&mut self, point: SelectionPoint)
        requires
            old(self).wf(),
        ensures
            final(self).wf(),
            final(self)@ == old(self)@.focused(Some(point)),
    {
        if let Some((anchor, _)) = self.select.selection.endpoints {
            self.select.selection = ConversationSelection { endpoints: Some((anchor, point)) };
        }
    }

    /// Drags the selection to a position. `scrolls` says whether the pointer is where it asks
    /// for scrolling.
    pub fn update_selection(
        &mut self,
        area: Rect,
        position: Position,
        restored: Option<RestoredSelection>,
        scrolls: bool,
        now: u64,
    ) -> (r: bool)
        requires
            old(self).wf(),
        ensures
            final(self).wf(),
            final(self)@ == old(self)@.dragged(area, position, restored, scrolls, now),
            r == old(self)@.drags(area, restored),
    {
        proof {
            reveal(ViewportModel::dragged);
        }
        if area.is_empty() {
            return false;
        }
        let point = self.selection_point(area, position, restored);
        if !self.selection_is_active() {
            return false;
        }
        let ghost m = self@;
        self.move_focus(point);
        self.select.pointer = Some(position);
        let was_active = self.select.autoscroll.needs_frame;
        self.select.autoscroll = SelectionAutoscroll {
            pointer: Some(position),
            needs_frame: scrolls,
        };
        if !scrolls {
            self.select.last_tick = None;
        } else if !was_active {
            self.select.last_tick = Some(now);
        }
        true
    }

    /// Ends a selection where the pointer is released. `selected` is the text that it covers.
    pub fn finish_selection(
        &mut self,
        area: Rect,
        position: Position,
        restored: Option<RestoredSelection>,
        selected: Option<String>,
    ) -> (r: Option<String>)
        requires
            old(self).wf(),
        ensures
            final(self).wf(),
            final(self)@ == old(self)@.finished(area, position, restored),
            !final(self)@.selecting(),
            r == selected,
    {
        proof {
            reveal(ViewportModel::finished);
        }
        let ghost begin = self@;
        let release_matches_last_drag = match self.select.pointer {
            Some(pointer) => pointer == position,
            None => false,
        };
        self.stop_selection_autoscroll();
        self.select.pointer = None;
        if !release_matches_last_drag && !area.is_empty() {
            let point = self.selection_point(area, position, restored);
            self.move_focus(point);
        }
        proof {
            assert(self@ =~= begin.released(area, position, restored));
        }
        let ghost released = self@;
        self.select.selection = ConversationSelection { endpoints: None };
        self.apply_deferred_state();
        proof {
            viewport_model::lemma_ended_wf(released);
        }
        selected
    }

    /// Moves the view by the rows of a turn of the wheel.
    pub fn handle_mouse_scroll(&mut self, direction: MouseScrollDirection, rows: usize)
        requires
            old(self).wf(),
        ensures
            final(self).wf(),
            final(self)@ == old(self)@.scrolled(direction, rows),
    {
        let _ = self.content.scroll_rows(direction, rows);
    }

    /// Moves the view by the rows of a turn of the wheel while the pointer drags a selection.
    pub fn handle_selection_mouse_scroll(
        &mut self,
        area: Rect,
        direction: MouseScrollDirection,
        rows: usize,
        position: Position,
        restored: Option<RestoredSelection>,
        scrolls: bool,
        now: u64,
    )
        requires
            old(self).wf(),
        ensures
            final(self).wf(),
            final(self)@ == old(self)@.scrolled(direction, rows).dragged(
                area,
                position,
                restored,
                scrolls,
                now,
            ),
    {
        let _ = self.content.scroll_rows(direction, rows);
        let _ = self.update_selection(area, position, restored, scrolls, now);
    }

    /// Moves the view to the offset that a key stands for, if it stands for one.
    pub fn handle_navigation_key(&mut self, target: Option<usize>) -> (r: bool)
        requires
            old(self).wf(),
        ensures
            final(self).wf(),
            match target {
                Some(offset) => r && final(self)@ == old(self)@.at_offset(offset),
                None => !r && final(self)@ == old(self)@,
            },
    {
        match target {
            Some(offset) => {
                self.content.set_scroll_offset(offset);
                true
            },
            None => false,
        }
    }

    /// The time that a step of autoscrolling covers.
    pub fn autoscroll_elapsed(&self, now: u64) -> (r: u64)
        ensures
            r == elapsed_since(self@.select.last_tick, now),
    {
        match self.select.last_tick {
            Some(last) => now.saturating_sub(last),
            None => 0,
        }
    }

    /// Scrolls under a pointer that drags a selection. `step` is what the time since the last
    /// tick amounts to.
    pub fn advance_selection_autoscroll(
        &mut self,
        area: Rect,
        scrolls: bool,
        now: u64,
        step: Option<AutoscrollStep>,
        restored: Option<RestoredSelection>,
    ) -> (r: bool)
        requires
            old(self).wf(),
        ensures
            final(self).wf(),
            final(self)@ == old(self)@.autoscrolled(area, scrolls, now, step, restored),
            r == (old(self)@.select.autoscroll.pointer is Some && scrolls && old(
                self,
            )@.with_autoscroll(true, Some(now)).autoscroll_goes_on(step)),
    {
        proof {
            reveal(ViewportModel::autoscrolled);
        }
        if self.select.autoscroll.pointer.is_none() {
            return false;
        }
        self.select.autoscroll = SelectionAutoscroll {
            pointer: self.select.autoscroll.pointer,
            needs_frame: scrolls,
        };
        if !scrolls {
            self.select.last_tick = None;
            return false;
        }
        self.select.last_tick = Some(now);
        self.advance_selection_autoscroll_by(area, step, restored)
    }

    fn advance_selection_autoscroll_by(
        &mut self,
        area: Rect,
        step: Option<AutoscrollStep>,
        restored: Option<RestoredSelection>,
    ) -> (r: bool)
        requires
            old(self).wf(),
        ensures
            final(self).wf(),
            final(self)@ == old(self)@.autoscrolled_by(area, step, restored),
            r == old(self)@.autoscroll_goes_on(step),
    {
        let step = match step {
            Some(step) => step,
            None => return self.select.autoscroll.needs_frame,
        };
        let moved = self.content.scroll_rows(step.direction, step.rows);
        if moved == 0 {
            self.stop_selection_autoscroll();
            return false;
        }
        if !area.is_empty() {
            let point = self.selection_point(area, step.pointer, restored);
            self.move_focus(point);
        }
        if moved < step.rows {
            self.stop_selection_autoscroll();
            return false;
        }
        true
    }

    pub fn prepare_selection_autoscroll(&mut self, scrolls: bool, now: u64) -> (r: bool)
        requires
            old(self).wf(),
        ensures
            final(self).wf(),
            final(self)@ == old(self)@.autoscroll_prepared(scrolls, now),
            r == (old(self)@.select.autoscroll.pointer is Some && scrolls),
    {
        if self.select.autoscroll.pointer.is_none() {
            return false;
        }
        self.select.autoscroll = SelectionAutoscroll {
            pointer: self.select.autoscroll.pointer,
            needs_frame: scrolls,
        };
        self.select.last_tick = if scrolls {
            Some(now)
        } else {
            None
        };
        scrolls
    }

    /// Settles the view for a frame of the given area.
    pub fn render(
        &mut self,
        metrics: &mut QuietLedger,
        area: Rect,
        restored: Option<RestoredSelection>,
    )
        requires
            old(self).wf(),
        ensures
            final(self).wf(),
            final(self)@ == old(self)@.rendered(area, restored),
            ledger::counted(
                *old(metrics),
                *final(metrics),
                old(self)@.frame_tallies(area, restored),
            ),
    {
        let ghost begin = self@;
        let ghost counters = *metrics;
        proof {
            reveal(ViewportModel::rendered);
            reveal(ViewportModel::frame_tallies);
        }
        let frozen = self.freeze_bottom_follow_once;
        self.freeze_bottom_follow_once = false;
        let bottom_follow = if self.selection_is_active() || frozen {
            BottomFollowMode::Frozen
        } else {
            BottomFollowMode::Enabled
        };
        if self.select.cache.is_some() {
            self.ensure_selection_projections(area.width, restored);
        }
        let ghost before = self@;
        self.content.lay_out(metrics, self.cells.len(), area.width);
        let ghost middle = *metrics;
        proof {
            viewport_model::lemma_prepared_wf(before, area.width);
            assert(self@ =~= before.prepared_at(area.width));
        }
        self.content.settle(area.width, area.height, bottom_follow);
        proof {
            assert(self@ =~= begin.rendered(area, restored));
        }
        self.draw_cells(metrics, area);
        proof {
            ledger::lemma_counted_concat(
                counters,
                middle,
                *metrics,
                pager_content::layout_tallies(
                    before.items,
                    before.cells.len() as int,
                    area.width,
                ),
                self@.draw_tallies(area, self@.cells.len() as int),
            );
        }
    }

    /// Draws the committed cells that are on the screen.
    fn draw_cells(&mut self, metrics: &mut QuietLedger, area: Rect)
        requires
            old(self).wf(),
            forall|i: int|
                0 <= i < old(self)@.cells.len() ==> (#[trigger] old(self)@.items[i]).prepared
                    == Some(area.width),
        ensures
            final(self).wf(),
            final(self)@ == old(self)@,
            ledger::counted(
                *old(metrics),
                *final(metrics),
                old(self)@.draw_tallies(area, old(self)@.cells.len() as int),
            ),
    {
        let ghost view = self@;
        let ghost counters = *metrics;
        proof {
            ledger::lemma_counted_nothing(counters);
        }
        let mut i: usize = 0;
        while i < self.cells.len()
            invariant
                i <= self.cells@.len(),
                self.wf(),
                self@ == view,
                counters == *old(metrics),
                view == old(self)@,
                forall|j: int|
                    0 <= j < view.cells.len() ==> (#[trigger] view.items[j]).prepared == Some(
                        area.width,
                    ),
                ledger::counted(counters, *metrics, view.draw_tallies(area, i as int)),
            decreases self.cells@.len() - i,
        {
            if self.committed_range_intersects_viewport(area.width, i, 1, area) {
                let ghost before = *metrics;
                proof {
                    assert(self@.items[i as int] == self.content.items@[i as int]@);
                }
                self.content.draw(metrics, i, area.width);
                proof {
                    assert(self@.items =~= view.items);
                    ledger::lemma_counted_concat(
                        counters,
                        before,
                        *metrics,
                        view.draw_tallies(area, i as int),
                        prepared_cell::draw_tallies(view.items[i as int].prepared, area.width),
                    );
                }
            }
            i += 1;
        }
    }

    /// The positions on the screen that the selected segments cover.
    pub fn render_selection(&self, area: Rect, segments: &Vec<SelectedSegment>) -> (r: Vec<Position>)
        ensures
            r@ == selected_positions(self@.scroll, area, segments@),
    {
        let scroll: usize = self.content.scroll_offset();
        let mut out: Vec<Position> = Vec::new();
        let mut i: usize = 0;
        while i < segments.len()
            invariant
                i <= segments@.len(),
                out@ == selected_positions(scroll, area, segments@.take(i as int)),
            decreases segments@.len() - i,
        {
            push_segment(&mut out, scroll, area, segments[i]);
            proof {
                assert(segments@.take(i + 1).drop_last() =~= segments@.take(i as int));
            }
            i += 1;
        }
        proof {
            assert(segments@.take(segments@.len() as int) =~= segments@);
        }
        out
    }

    pub fn committed_cell_hit(&mut self, area: Rect, position: Position) -> (r: Option<
        ConversationCellHit,
    >)
        requires
            old(self).wf(),
        ensures
            final(self).wf(),
            final(self)@ == old(self)@,
            r == old(self)@.hit(area, position),
    {
        proof {
            reveal(ViewportModel::hit);
        }
        if area.is_empty() || !area.contains(position) {
            return None;
        }
        let screen_row: u16 = position.y.saturating_sub(area.y);
        let content_row: usize = self.content.scroll_offset().saturating_add(screen_row as usize);
        match self.content.renderable_hit(area.width, content_row) {
            Some((index, row_within_cell)) => if index < self.cells.len() {
                Some(ConversationCellHit { index, row_within_cell })
            } else {
                None
            },
            None => None,
        }
    }

    pub fn committed_range_intersects_viewport(
        &mut self,
        width: u16,
        start: usize,
        count: usize,
        area: Rect,
    ) -> (r: bool)
        requires
            old(self).wf(),
        ensures
            final(self).wf(),
            final(self)@ == old(self)@,
            r == old(self)@.range_shows(width, start as int, count as int, area),
    {
        proof {
            reveal(ViewportModel::range_shows);
        }
        if area.is_empty() || count == 0 {
            return false;
        }
        let (top, bottom) = self.content.renderable_range_rows(width, start, count);
        let viewport_top: usize = self.content.scroll_offset();
        let viewport_bottom: usize = viewport_top.saturating_add(area.height as usize);
        top < viewport_bottom && bottom > viewport_top
    }

    pub fn visible_committed_cell_range(&mut self, area: Rect) -> (r: Option<(usize, usize)>)
        requires
            old(self).wf(),
        ensures
            final(self).wf(),
            final(self)@ == old(self)@,
            r == old(self)@.visible_range(area),
    {
        proof {
            reveal(ViewportModel::visible_range);
        }
        if area.is_empty() || self.cells.len() == 0 {
            return None;
        }
        let top: usize = self.content.scroll_offset();
        let rows: u16 = area.height.saturating_sub(1);
        let bottom: usize = top.saturating_add(rows as usize);
        let first = match self.content.renderable_hit(area.width, top) {
            Some(hit) => hit.0,
            None => return None,
        };
        let last = match self.content.renderable_hit(area.width, bottom) {
            Some(hit) => hit.0,
            None => return None,
        };
        let max: usize = self.cells.len() - 1;
        Some((smaller(first, max), smaller(last, max)))
    }
}

/// The snapshots of the lanes that are built anew.
pub struct LaneSnapshots {
    pub primary: Vec<Arc<ActiveCellDisplaySnapshot>>,
    pub token: Vec<Arc<ActiveCellDisplaySnapshot>>,
    pub rate_limit: Vec<Arc<ActiveCellDisplaySnapshot>>,
}

impl View for LaneSnapshots {
    type V = LiveModel;

    open spec fn view(&self) -> LiveModel {
        LiveModel {
            key: None,
            primary: self.primary@,
            token: self.token@,
            rate_limit: self.rate_limit@,
        }
    }
}

/// A lane of the live tail.
#[derive(Clone, Copy, Debug, PartialEq, Eq, Structural)]
pub enum ActiveCellLane {
    Primary,
    TokenActivity,
    RateLimit,
}

pub open spec fn planned(plan: viewport_model::LanePlan, lane: ActiveCellLane) -> bool {
    match lane {
        ActiveCellLane::Primary => plan.primary,
        ActiveCellLane::TokenActivity => plan.token,
        ActiveCellLane::RateLimit => plan.rate_limit,
    }
}

fn same_content(a: ActiveCellRenderKey, b: ActiveCellRenderKey) -> (r: bool)
    ensures
        r == (a == b),
{
    a.revision == b.revision && a.primary_present == b.primary_present
        && a.is_stream_continuation == b.is_stream_continuation
        && a.token_activity_revision == b.token_activity_revision && a.rate_limit_revision
        == b.rate_limit_revision
}

fn same_key(a: Option<LiveTailKey>, b: Option<LiveTailKey>) -> (r: bool)
    ensures
        r == (a == b),
{
    match (a, b) {
        (Some(x), Some(y)) => x.width == y.width && same_content(x.content, y.content),
        (None, None) => true,
        _ => false,
    }
}

/// Whether the part of a key that belongs to a lane changed.
fn lane_changed(a: Option<LiveTailKey>, b: Option<LiveTailKey>, lane: ActiveCellLane) -> (r: bool)
    ensures
        r == planned(viewport_model::lanes_changed(a, b), lane),
{
    match (a, b) {
        (Some(x), Some(y)) => x.width != y.width || match lane {
            ActiveCellLane::Primary => x.content.revision != y.content.revision
                || x.content.primary_present != y.content.primary_present
                || x.content.is_stream_continuation != y.content.is_stream_continuation,
            ActiveCellLane::TokenActivity => !(x.content.token_activity_revision
                == y.content.token_activity_revision),
            ActiveCellLane::RateLimit => !(x.content.rate_limit_revision
                == y.content.rate_limit_revision),
        },
        (None, None) => false,
        _ => true,
    }
}

/// Whether a lane has something to show.
fn lane_present(key: Option<LiveTailKey>, lane: ActiveCellLane) -> (r: bool)
    ensures
        r == planned(viewport_model::lanes_present(key), lane),
{
    match key {
        Some(k) => match lane {
            ActiveCellLane::Primary => k.content.primary_present,
            ActiveCellLane::TokenActivity => k.content.token_activity_revision.is_some(),
            ActiveCellLane::RateLimit => k.content.rate_limit_revision.is_some(),
        },
        None => false,
    }
}

/// Puts the fresh snapshots of a lane in place, and counts the lane as rebuilt.
fn rebuild_lane(
    current: &mut Vec<Arc<ActiveCellDisplaySnapshot>>,
    fresh: Vec<Arc<ActiveCellDisplaySnapshot>>,
    changed: bool,
    present: bool,
    metrics: &mut QuietLedger,
    metric: QuietMetric,
)
    ensures
        final(current)@ == viewport_model::lane_after(old(current)@, fresh@, changed, present),
        ledger::counted(
            *old(metrics),
            *final(metrics),
            viewport_model::bump_if(changed && present, metric),
        ),
{
    if changed {
        if present {
            ledger::bump(metrics, metric);
            *current = fresh;
        } else {
            current.clear();
            proof {
                ledger::lemma_counted_nothing(*metrics);
            }
        }
    } else {
        proof {
            ledger::lemma_counted_nothing(*metrics);
        }
    }
}

/// The rows of live cells, added up and kept within the range of a counter.
pub open spec fn live_rows(cells: Seq<Arc<ActiveCellDisplaySnapshot>>, width: u16) -> u64
    decreases cells.len(),
{
    if cells.len() == 0 {
        0
    } else {
        let rows = live_rows(cells.drop_last(), width) + pager_content::rows_at(
            crate::text::views(cells.last().lines@),
            width,
        );
        if rows <= u64::MAX {
            rows as u64
        } else {
            u64::MAX
        }
    }
}

/// The rows that a live tail records, where it is built anew.
pub open spec fn live_peak(
    view: ViewportModel,
    width: u16,
    active: Option<ActiveCellRenderKey>,
    fresh: LiveModel,
) -> Option<u64> {
    if view.live_rebuilds(width, active) {
        Some(live_rows(viewport_model::live_cells(view.with_live(width, active, fresh).live), width))
    } else {
        None
    }
}

/// Builds the lanes of the live tail for another key.
fn rebuild_live(
    live: &mut LiveTail,
    next_key: Option<LiveTailKey>,
    fresh: LaneSnapshots,
    metrics: &mut QuietLedger,
)
    ensures
        final(live)@ == viewport_model::live_after(old(live)@, next_key, fresh@),
        ledger::counted(
            *old(metrics),
            *final(metrics),
            viewport_model::lane_bumps(old(live)@, next_key),
        ),
{
    let ghost counters = *metrics;
    let current_key = live.key;
    live.key = next_key;
    let primary_changed = lane_changed(current_key, next_key, ActiveCellLane::Primary);
    let token_changed = lane_changed(current_key, next_key, ActiveCellLane::TokenActivity);
    let rate_limit_changed = lane_changed(current_key, next_key, ActiveCellLane::RateLimit);
    let primary_present = lane_present(next_key, ActiveCellLane::Primary);
    let token_present = lane_present(next_key, ActiveCellLane::TokenActivity);
    let rate_limit_present = lane_present(next_key, ActiveCellLane::RateLimit);
    rebuild_lane(
        &mut live.primary,
        fresh.primary,
        primary_changed,
        primary_present,
        metrics,
        QuietMetric::LivePrimaryRebuild,
    );
    let ghost after_primary = *metrics;
    rebuild_lane(
        &mut live.token,
        fresh.token,
        token_changed,
        token_present,
        metrics,
        QuietMetric::LiveTokenRebuild,
    );
    let ghost after_token = *metrics;
    rebuild_lane(
        &mut live.rate_limit,
        fresh.rate_limit,
        rate_limit_changed,
        rate_limit_present,
        metrics,
        QuietMetric::LiveRateLimitRebuild,
    );
    proof {
        let primary = viewport_model::bump_if(
            primary_changed && primary_present,
            QuietMetric::LivePrimaryRebuild,
        );
        let token = viewport_model::bump_if(
            token_changed && token_present,
            QuietMetric::LiveTokenRebuild,
        );
        let rate_limit = viewport_model::bump_if(
            rate_limit_changed && rate_limit_present,
            QuietMetric::LiveRateLimitRebuild,
        );
        ledger::lemma_counted_concat(
            counters,
            after_primary,
            after_token,
            primary,
            token,
        );
        ledger::lemma_counted_concat(
            counters,
            after_token,
            *metrics,
            primary + token,
            rate_limit,
        );
    }
}

fn add_lane_rows(start: u64, lane: &Vec<Arc<ActiveCellDisplaySnapshot>>, width: u16) -> (r: u64)
    ensures
        forall|before: Seq<Arc<ActiveCellDisplaySnapshot>>|
            start == live_rows(before, width) ==> r == #[trigger] live_rows(
                before + lane@,
                width,
            ),
{
    let mut rows: u64 = start;
    let mut i: usize = 0;
    proof {
        assert forall|before: Seq<Arc<ActiveCellDisplaySnapshot>>|
            start == live_rows(before, width) implies rows == #[trigger] live_rows(
            before + lane@.take(0),
            width,
        ) by {
            assert(before + lane@.take(0) =~= before);
        }
    }
    while i < lane.len()
        invariant
            i <= lane@.len(),
            forall|before: Seq<Arc<ActiveCellDisplaySnapshot>>|
                start == live_rows(before, width) ==> rows == #[trigger] live_rows(
                    before + lane@.take(i as int),
                    width,
                ),
        decreases lane@.len() - i,
    {
        let ghost sum = rows;
        let count: usize = pager_content::count_rows(&lane[i].lines, width);
        rows = rows.saturating_add(count as u64);
        proof {
            assert forall|before: Seq<Arc<ActiveCellDisplaySnapshot>>|
                start == live_rows(before, width) implies rows == #[trigger] live_rows(
                before + lane@.take(i + 1),
                width,
            ) by {
                assert(sum == live_rows(before + lane@.take(i as int), width));
                assert((before + lane@.take(i + 1)).drop_last() =~= before + lane@.take(i as int));
                assert((before + lane@.take(i + 1)).last() == lane@[i as int]);
            }
        }
        i += 1;
    }
    proof {
        assert(lane@.take(lane@.len() as int) =~= lane@);
    }
    rows
}

impl ConversationViewport {
    /// Whether a lane has to be shown anew for a key, so that its snapshots are needed.
    pub fn lane_needs_snapshots(
        &self,
        width: u16,
        active_key: Option<ActiveCellRenderKey>,
        lane: ActiveCellLane,
    ) -> (r: bool)
        requires
            self.wf(),
        ensures
            r == (self@.live_rebuilds(width, active_key) && {
                let next = ViewportModel::next_key(width, active_key);
                &&& planned(
                    viewport_model::lanes_changed(
                        self@.live_ready(width, active_key).live.key,
                        next,
                    ),
                    lane,
                )
                &&& planned(viewport_model::lanes_present(next), lane)
            }),
    {
        let next = match active_key {
            Some(content) => Some(LiveTailKey { width, content }),
            None => None,
        };
        if self.live_waits(width) {
            return false;
        }
        let current = if self.live_change_ends_selection(width, active_key) && (
        self.deferred_cells.is_some() || self.deferred_render_mode.is_some()) {
            None
        } else {
            self.live.key
        };
        !same_key(current, next) && lane_changed(current, next, lane) && lane_present(next, lane)
    }

    /// Records the rows of the live tail, for the largest one that was ever shown.
    fn record_live_tail_rows(&self, metrics: &mut QuietLedger, width: u16)
        ensures
            ledger::recorded(
                *old(metrics),
                *final(metrics),
                QuietMetric::LiveTailMaxRows,
                live_rows(viewport_model::live_cells(self@.live), width),
            ),
    {
        let rows: u64 = add_lane_rows(
            add_lane_rows(
                add_lane_rows(0, &self.live.primary, width),
                &self.live.token,
                width,
            ),
            &self.live.rate_limit,
            width,
        );
        proof {
            let live = self@.live;
            assert(Seq::<Arc<ActiveCellDisplaySnapshot>>::empty() + live.primary =~= live.primary);
        }
        ledger::record_max(metrics, QuietMetric::LiveTailMaxRows, rows);
    }

    fn selection_width_is(&self, width: u16) -> (r: bool)
        ensures
            r == (self@.select.cache matches Some(cache) && cache.width == width),
    {
        match &self.select.cache {
            Some(cache) => cache.width == width,
            None => false,
        }
    }

    fn live_waits(&self, width: u16) -> (r: bool)
        ensures
            r == self@.live_waits(width),
    {
        self.selection_is_active() && (self.selection_width_is(width) || self.live.key.is_none())
    }

    fn live_change_ends_selection(
        &self,
        width: u16,
        active_key: Option<ActiveCellRenderKey>,
    ) -> (r: bool)
        ensures
            r == self@.live_change_ends_selection(width, active_key),
    {
        if !self.selection_is_active() || self.selection_width_is(width) {
            return false;
        }
        match (self.live.key, active_key) {
            (Some(current), Some(next)) => !same_content(current.content, next),
            (Some(_), None) => true,
            (None, _) => false,
        }
    }

    /// Shows the live tail of a key behind the committed cells. `fresh` holds the snapshots of
    /// the lanes that have to be shown anew. Says whether the tail was built anew.
    ///
    /// The screen coordinates of a drag and the rows under it must describe the same content.
    /// Active cells can change with every output, so the live tail waits until the drag ends.
    pub fn sync_live_tail(
        &mut self,
        metrics: &mut QuietLedger,
        width: u16,
        active_key: Option<ActiveCellRenderKey>,
        fresh: LaneSnapshots,
    ) -> (r: bool)
        requires
            old(self).wf(),
        ensures
            final(self).wf(),
            final(self)@ == old(self)@.with_live(width, active_key, fresh@),
            ledger::drawn(
                *old(metrics),
                *final(metrics),
                old(self)@.live_bumps(width, active_key),
                live_peak(old(self)@, width, active_key, fresh@),
            ),
            r == old(self)@.live_rebuilds(width, active_key),
    {
        proof {
            reveal(ViewportModel::with_live);
        }
        let ghost begin = self@;
        let ghost counters = *metrics;
        proof {
            ledger::lemma_counted_nothing(counters);
            ledger::lemma_drawn_of_counted(counters, counters, Seq::empty());
        }
        if self.live_waits(width) {
            return false;
        }
        if self.live_change_ends_selection(width, active_key) {
            self.cancel_selection();
        }
        let ghost m = self@;
        let next_key = match active_key {
            Some(content) => Some(LiveTailKey { width, content }),
            None => None,
        };
        if same_key(self.live.key, next_key) {
            return false;
        }
        let follow_bottom = !self.selection_is_active() && self.should_follow_bottom();
        self.take_live_tail_renderables();
        if !self.selection_is_active() {
            self.select.cache = None;
        }
        rebuild_live(&mut self.live, next_key, fresh, metrics);
        let ghost rebuilt = *metrics;
        self.record_live_tail_rows(metrics, width);
        proof {
            ledger::lemma_drawn_of_recorded(
                counters,
                rebuilt,
                *metrics,
                begin.live_bumps(width, active_key),
                live_rows(viewport_model::live_cells(self@.live), width),
            );
        }
        self.push_live_tail_renderables();
        self.scroll_to_bottom_if(follow_bottom);
        proof {
            assert(self@ =~= begin.with_live(width, active_key, fresh@));
            assert(self@.items.skip(self@.cells.len() as int) =~= viewport_model::live_items(
                viewport_model::live_cells(self@.live),
                self@.cells.len() > 0,
            ));
        }
        true
    }
}

} // verus!
