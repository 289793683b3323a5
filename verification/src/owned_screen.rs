//! Application-owned alternate-screen rendering.
//!
//! The owned mode keeps committed conversation cells in a retained viewport and reserves the
//! bottom of every frame for the composer.

use std::sync::Arc;

use vstd::prelude::*;

use crate::compact_tool_groups;
use crate::compact_tool_groups::CompactToolGroupHover;
use crate::compact_tool_groups::CompactToolGroupId;
use crate::compact_tool_groups::CompactToolGroupSourceRange;
use crate::compact_tool_groups::GroupModel;
use crate::compact_tool_groups::ShownCell;
use crate::compact_tool_groups::ViewCell;
use crate::conversation_viewport;
use crate::conversation_viewport::ConversationViewport;
use crate::conversation_viewport::LaneSnapshots;
use crate::geometry;
use crate::geometry::Position;
use crate::geometry::Rect;
use crate::history_cell;
use crate::history_cell::HistoryCell;
use crate::history_cell::HistoryRenderMode;
use crate::ledger;
use crate::ledger::QuietLedger;
use crate::ledger::Tally;
use crate::pager_content::MouseScrollDirection;
use crate::quiet_metrics;
use crate::quiet_metrics::QuietMetric;
use crate::quiet_metrics::RangeReplacementReason;
use crate::screen_model;
use crate::screen_model::FrameModel;
use crate::screen_model::GroupPlace;
use crate::screen_model::ScreenModel;
use crate::tool_run_projection;
use crate::viewport_model::ActiveCellRenderKey;
use crate::viewport_model::AutoscrollStep;
use crate::viewport_model::RestoredSelection;
use crate::viewport_model::ViewportModel;

verus! {

pub const PANE_HEADER_HEIGHT: u16 = 1;

pub struct OwnedScreen {
    pub viewport: ConversationViewport,
    pub source_cells: Vec<Arc<HistoryCell>>,
    pub compact_tool_groups: bool,
    pub expanded_tool_groups: Vec<CompactToolGroupId>,
    pub tool_group_hover: CompactToolGroupHover,
    pub pending_tool_group_click: Option<CompactToolGroupId>,
    pub pending_tool_group_seals: Vec<CompactToolGroupId>,
    pub last_clicked_tool_group: Option<CompactToolGroupId>,
    pub replay_in_progress: bool,
    pub last_pane_area: Rect,
    pub last_conversation_area: Rect,
    pub last_bottom_area: Rect,
    pub last_rendered_conversation_area: Rect,
    pub last_selection_viewport_area: Option<Rect>,
    pub last_hover_position: Option<Position>,
}

impl View for OwnedScreen {
    type V = ScreenModel;

    open spec fn view(&self) -> ScreenModel {
        ScreenModel {
            view: self.viewport@,
            sources: self.source_cells@,
            compact: self.compact_tool_groups,
            expanded: self.expanded_tool_groups@,
            hover: self.tool_group_hover.id,
            pending_click: self.pending_tool_group_click,
            pending_seals: self.pending_tool_group_seals@,
            last_clicked: self.last_clicked_tool_group,
            replaying: self.replay_in_progress,
            pane_area: self.last_pane_area,
            conversation_area: self.last_conversation_area,
            bottom_area: self.last_bottom_area,
            rendered_area: self.last_rendered_conversation_area,
            selection_area: self.last_selection_viewport_area,
            hover_position: self.last_hover_position,
        }
    }
}

fn remove_id(ids: &mut Vec<CompactToolGroupId>, id: CompactToolGroupId)
    ensures
        final(ids)@ == screen_model::without(old(ids)@, id),
{
    let mut out: Vec<CompactToolGroupId> = Vec::new();
    let mut i: usize = 0;
    while i < ids.len()
        invariant
            i <= ids@.len(),
            ids@ == old(ids)@,
            out@ == screen_model::without(ids@.take(i as int), id),
        decreases ids@.len() - i,
    {
        proof {
            assert(ids@.take(i + 1).drop_last() =~= ids@.take(i as int));
        }
        if ids[i] != id {
            out.push(ids[i]);
        }
        i += 1;
    }
    proof {
        assert(ids@.take(ids@.len() as int) =~= ids@);
    }
    *ids = out;
}

fn copy_ids(ids: &Vec<CompactToolGroupId>) -> (r: Vec<CompactToolGroupId>)
    ensures
        r@ == ids@,
{
    let mut out: Vec<CompactToolGroupId> = Vec::new();
    let mut i: usize = 0;
    while i < ids.len()
        invariant
            i <= ids@.len(),
            out@ == ids@.take(i as int),
        decreases ids@.len() - i,
    {
        out.push(ids[i]);
        proof {
            assert(out@ =~= ids@.take(i + 1));
        }
        i += 1;
    }
    proof {
        assert(ids@.take(ids@.len() as int) =~= ids@);
    }
    out
}

fn insert_id(ids: &mut Vec<CompactToolGroupId>, id: CompactToolGroupId)
    ensures
        final(ids)@ == screen_model::including(old(ids)@, id),
{
    if !compact_tool_groups::holds_id(ids, id) {
        ids.push(id);
    }
}

/// Keeps the identifiers that are among others, however those are listed.
fn retain_ids(
    ids: &mut Vec<CompactToolGroupId>,
    valid: &Vec<CompactToolGroupId>,
    Ghost(members): Ghost<Seq<CompactToolGroupId>>,
)
    requires
        forall|id: CompactToolGroupId| valid@.contains(id) <==> #[trigger] members.contains(id),
    ensures
        final(ids)@ == screen_model::only(old(ids)@, members),
{
    let mut out: Vec<CompactToolGroupId> = Vec::new();
    let mut i: usize = 0;
    while i < ids.len()
        invariant
            i <= ids@.len(),
            ids@ == old(ids)@,
            forall|id: CompactToolGroupId| valid@.contains(id) <==> #[trigger] members.contains(id),
            out@ == screen_model::only(ids@.take(i as int), members),
        decreases ids@.len() - i,
    {
        proof {
            assert(ids@.take(i + 1).drop_last() =~= ids@.take(i as int));
            assert(valid@.contains(ids@[i as int]) <==> members.contains(ids@[i as int]));
        }
        if compact_tool_groups::holds_id(valid, ids[i]) {
            out.push(ids[i]);
        }
        i += 1;
    }
    proof {
        assert(ids@.take(ids@.len() as int) =~= ids@);
    }
    *ids = out;
}

fn retained_id(id: Option<CompactToolGroupId>, valid: &Vec<CompactToolGroupId>) -> (r: Option<
    CompactToolGroupId,
>)
    ensures
        r == screen_model::only_if(id, valid@),
{
    match id {
        Some(group) => if compact_tool_groups::holds_id(valid, group) {
            Some(group)
        } else {
            None
        },
        None => None,
    }
}

fn same_id(a: Option<CompactToolGroupId>, b: Option<CompactToolGroupId>) -> (r: bool)
    ensures
        r == (a == b),
{
    match (a, b) {
        (Some(x), Some(y)) => x == y,
        (None, None) => true,
        _ => false,
    }
}

fn as_view_cells(cells: &Vec<Arc<HistoryCell>>) -> (r: Vec<ViewCell>)
    ensures
        compact_tool_groups::shown(r@) == compact_tool_groups::as_sources(cells@),
{
    let ghost all = compact_tool_groups::as_sources(cells@);
    let mut out: Vec<ViewCell> = Vec::new();
    let mut i: usize = 0;
    while i < cells.len()
        invariant
            i <= cells@.len(),
            all == compact_tool_groups::as_sources(cells@),
            compact_tool_groups::shown(out@) == all.take(i as int),
        decreases cells@.len() - i,
    {
        let cell = ViewCell::Source(history_cell::share(&cells[i]));
        proof {
            assert(compact_tool_groups::shown(out@.push(cell)) =~= compact_tool_groups::shown(
                out@,
            ).push(cell@));
            assert(all.take(i + 1) =~= all.take(i as int).push(cell@));
        }
        out.push(cell);
        i += 1;
    }
    proof {
        assert(all.take(cells@.len() as int) =~= all);
    }
    out
}

/// Where a group is to be shown: in place of a range of cells, later, or not at all.
enum PlaceOnScreen {
    At(usize, usize),
    Waiting,
    Nowhere,
}

impl View for PlaceOnScreen {
    type V = GroupPlace;

    closed spec fn view(&self) -> GroupPlace {
        match *self {
            PlaceOnScreen::At(start, count) => GroupPlace::At {
                start: start as int,
                count: count as int,
            },
            PlaceOnScreen::Waiting => GroupPlace::Waiting,
            PlaceOnScreen::Nowhere => GroupPlace::Nowhere,
        }
    }
}

impl OwnedScreen {
    pub open spec fn wf(&self) -> bool {
        self.viewport.wf() && self@.wf()
    }

    pub fn new(render_mode: HistoryRenderMode) -> (r: Self)
        ensures
            r.wf(),
            r@.sources == Seq::<Arc<HistoryCell>>::empty(),
            r@.view.cells == Seq::<ShownCell>::empty(),
            r@.view.mode == render_mode,
            r@.view.following && r@.view.scroll == usize::MAX && !r@.view.selecting(),
            r@.compact == (render_mode == HistoryRenderMode::Rich),
            r@.expanded == Seq::<CompactToolGroupId>::empty(),
            r@.pending_seals == Seq::<CompactToolGroupId>::empty(),
            r@.hover == 0 && r@.hover_position is None,
            r@.pending_click is None && r@.last_clicked is None && !r@.replaying,
            r@.pane_area == Rect::nothing() && r@.conversation_area == Rect::nothing(),
            r@.bottom_area == Rect::nothing() && r@.rendered_area == Rect::nothing(),
            r@.selection_area is None,
    {
        let nothing = Rect { x: 0, y: 0, width: 0, height: 0 };
        let r = OwnedScreen {
            viewport: ConversationViewport::new(Vec::new(), render_mode),
            source_cells: Vec::new(),
            compact_tool_groups: render_mode == HistoryRenderMode::Rich,
            expanded_tool_groups: Vec::new(),
            tool_group_hover: CompactToolGroupHover { id: 0 },
            pending_tool_group_click: None,
            pending_tool_group_seals: Vec::new(),
            last_clicked_tool_group: None,
            replay_in_progress: false,
            last_pane_area: nothing,
            last_conversation_area: nothing,
            last_bottom_area: nothing,
            last_rendered_conversation_area: nothing,
            last_selection_viewport_area: None,
            last_hover_position: None,
        };
        proof {
            assert(r@.view.cells =~= Seq::<ShownCell>::empty());
        }
        r
    }

    /// Clears the hover and says whether anything was hovered.
    pub fn clear_tool_group_hover(&mut self) -> (r: bool)
        requires
            old(self).wf(),
        ensures
            final(self).wf(),
            final(self)@ == old(self)@.unhovered(),
            r == (old(self)@.hover != 0),
    {
        self.last_hover_position = None;
        self.tool_group_hover.update(None)
    }

    fn width(&self) -> (r: u16)
        ensures
            r == self@.width(),
    {
        if self.last_conversation_area.width >= 1 {
            self.last_conversation_area.width
        } else {
            1
        }
    }

    /// Takes other source cells and projects them from the start. Returns the groups that they
    /// hold.
    pub fn replace_source_cells(
        &mut self,
        metrics: &mut QuietLedger,
        cells: Vec<Arc<HistoryCell>>,
        compact_tool_groups: bool,
        reason: QuietMetric,
    ) -> (r: Vec<CompactToolGroupId>)
        requires
            old(self).wf(),
        ensures
            final(self).wf(),
            final(self)@ == old(self)@.with_sources(cells@, compact_tool_groups),
            ledger::counted(
                *old(metrics),
                *final(metrics),
                screen_model::sources_bumps(cells@, compact_tool_groups, reason),
            ),
            r@.no_duplicates(),
            forall|id: CompactToolGroupId|
                r@.contains(id) <==> screen_model::valid_groups(cells@).contains(id),
    {
        proof {
            reveal(ScreenModel::with_sources);
        }
        let ghost begin = self@;
        let ghost counters = *metrics;
        ledger::bump(metrics, QuietMetric::FullProjection);
        let ghost middle = *metrics;
        ledger::bump(metrics, reason);
        proof {
            ledger::lemma_counted_concat(
                counters,
                middle,
                *metrics,
                seq![Tally::Metric(QuietMetric::FullProjection)],
                seq![Tally::Metric(reason)],
            );
            assert(seq![Tally::Metric(QuietMetric::FullProjection)] + seq![Tally::Metric(reason)] =~= seq![
                Tally::Metric(QuietMetric::FullProjection),
                Tally::Metric(reason),
            ]);
        }
        let _ = self.clear_tool_group_hover();
        let ghost announced = *metrics;
        let valid_groups = compact_tool_groups::compact_tool_group_ids(metrics, &cells);
        let ghost searched = *metrics;
        let ghost members = screen_model::valid_groups(cells@);
        retain_ids(&mut self.expanded_tool_groups, &valid_groups, Ghost(members));
        self.last_clicked_tool_group = retained_id(self.last_clicked_tool_group, &valid_groups);
        if !compact_tool_groups {
            self.pending_tool_group_click = None;
        }
        let projected = compact_tool_groups::project_owned_cells_with_expanded(
            metrics,
            &cells,
            compact_tool_groups,
            &self.expanded_tool_groups,
        );
        proof {
            let first = seq![Tally::Metric(QuietMetric::FullProjection), Tally::Metric(reason)];
            let all = compact_tool_groups::all_scans(cells@);
            ledger::lemma_counted_concat(counters, announced, searched, first, all);
            ledger::lemma_counted_concat(
                counters,
                searched,
                *metrics,
                first + all,
                compact_tool_groups::projection_scans(cells@, compact_tool_groups),
            );
        }
        self.source_cells = cells;
        self.compact_tool_groups = compact_tool_groups;
        self.viewport.replace_cells(projected);
        self.pending_tool_group_seals.clear();
        proof {
            screen_model::lemma_only(begin.expanded, members);
            assert(self@ =~= begin.with_sources(cells@, compact_tool_groups));
        }
        valid_groups
    }

    pub fn source_cells_match(&self, cells: &Vec<Arc<HistoryCell>>) -> (r: bool)
        ensures
            r == self@.sources_match(cells@),
    {
        if self.source_cells.len() != cells.len() {
            return false;
        }
        let mut i: usize = 0;
        while i < cells.len()
            invariant
                i <= cells@.len(),
                self.source_cells@.len() == cells@.len(),
                forall|k: int|
                    0 <= k < i ==> (#[trigger] self.source_cells@[k]).id == cells@[k].id,
            decreases cells@.len() - i,
        {
            if self.source_cells[i].id != cells[i].id {
                proof {
                    assert(self@.sources[i as int].id != cells@[i as int].id);
                }
                return false;
            }
            i += 1;
        }
        true
    }

    pub fn projected_group_position(&self, group: CompactToolGroupId) -> (r: Option<usize>)
        requires
            self.wf(),
        ensures
            match r {
                Some(i) => {
                    &&& i < self@.view.cells.len()
                    &&& screen_model::group_position(self@.view.cells, group) == Some(i as int)
                },
                None => screen_model::group_position(self@.view.cells, group) is None,
            },
    {
        let ghost cells = self@.view.cells;
        let count: usize = self.viewport.committed_cell_count();
        let mut found: Option<usize> = None;
        let mut i: usize = 0;
        while i < count
            invariant
                i <= count,
                count == cells.len(),
                cells == self.viewport@.cells,
                match found {
                    Some(k) => k < i && screen_model::group_position(cells.take(i as int), group)
                        == Some(k as int),
                    None => screen_model::group_position(cells.take(i as int), group) is None,
                },
            decreases count - i,
        {
            proof {
                assert(cells.take(i + 1).drop_last() =~= cells.take(i as int));
                assert(cells.take(i + 1).last() == cells[i as int]);
            }
            if found.is_none() {
                if let Some(cell) = self.viewport.committed_cell(i) {
                    let header = compact_tool_groups::compact_tool_group_header_id(cell, 0);
                    if same_id(header, Some(group)) {
                        found = Some(i);
                    }
                }
            }
            i += 1;
        }
        proof {
            assert(cells.take(cells.len() as int) =~= cells);
        }
        found
    }

    /// Counts a replacement and shows cells in the place of a range.
    fn show_range(
        &mut self,
        metrics: &mut QuietLedger,
        reason: RangeReplacementReason,
        start: usize,
        count: usize,
        cells: Vec<ViewCell>,
    )
        requires
            old(self).wf(),
        ensures
            final(self).wf(),
            final(self)@ == old(self)@.viewing(
                old(self)@.view.with_range(
                    old(self)@.width(),
                    start as int,
                    count as int,
                    compact_tool_groups::shown(cells@),
                ),
            ),
            ledger::counted(
                *old(metrics),
                *final(metrics),
                seq![
                    Tally::Metric(quiet_metrics::replacement_metric(reason)),
                    Tally::Metric(QuietMetric::RangeReplacement),
                ],
            ),
    {
        let ghost counters = *metrics;
        let width = self.width();
        ledger::bump_range_replacement(metrics, reason);
        let ghost middle = *metrics;
        self.viewport.replace_range(metrics, width, start, count, cells);
        proof {
            let first = seq![Tally::Metric(quiet_metrics::replacement_metric(reason))];
            let second = seq![Tally::Metric(QuietMetric::RangeReplacement)];
            ledger::lemma_counted_concat(counters, middle, *metrics, first, second);
            assert(first + second =~= seq![
                Tally::Metric(quiet_metrics::replacement_metric(reason)),
                Tally::Metric(QuietMetric::RangeReplacement),
            ]);
        }
    }

    /// Folds or expands a group where it stands.
    pub fn apply_tool_group_projection(
        &mut self,
        metrics: &mut QuietLedger,
        group: CompactToolGroupId,
        expanded: bool,
        respect_anchor_guard: bool,
        reason: RangeReplacementReason,
    ) -> (r: bool)
        requires
            old(self).wf(),
        ensures
            final(self).wf(),
            ({
                let step = old(self)@.group_projected(
                    group,
                    expanded,
                    respect_anchor_guard,
                    reason,
                );
                &&& final(self)@ == step.screen
                &&& r == step.done
                &&& ledger::counted(*old(metrics), *final(metrics), step.bumps)
            }),
    {
        proof {
            reveal(ScreenModel::group_projected);
        }
        let ghost begin = self@;
        proof {
            ledger::lemma_counted_nothing(*metrics);
            screen_model::lemma_found_group(begin.sources, group);
            screen_model::lemma_without(begin.pending_seals, group);
        }
        let ghost counters = *metrics;
        let ghost scans = screen_model::id_scans(begin.sources, group);
        let found = compact_tool_groups::compact_tool_group_projection_by_id(
            metrics,
            &self.source_cells,
            group,
            expanded,
        );
        let ghost searched = *metrics;
        proof {
            assert(scans + Seq::<Tally>::empty() =~= scans);
        }
        let projection = match found {
            Some(projection) => projection,
            None => {
                remove_id(&mut self.pending_tool_group_seals, group);
                return false;
            },
        };
        match self.place_of_group(
            group,
            projection.source_start,
            projection.source_cells,
            respect_anchor_guard,
            Ghost(screen_model::found_group(begin.sources, group)->0),
        ) {
            PlaceOnScreen::At(start, count) => {
                self.show_range(metrics, reason, start, count, projection.cells);
                proof {
                    ledger::lemma_counted_concat(
                        counters,
                        searched,
                        *metrics,
                        scans,
                        seq![
                            Tally::Metric(quiet_metrics::replacement_metric(reason)),
                            Tally::Metric(QuietMetric::RangeReplacement),
                        ],
                    );
                }
                remove_id(&mut self.pending_tool_group_seals, group);
                true
            },
            PlaceOnScreen::Waiting => {
                insert_id(&mut self.pending_tool_group_seals, group);
                false
            },
            PlaceOnScreen::Nowhere => false,
        }
    }

    fn place_of_group(
        &mut self,
        group: CompactToolGroupId,
        source_start: usize,
        source_cells: usize,
        respect_anchor_guard: bool,
        Ghost(g): Ghost<GroupModel>,
    ) -> (r: PlaceOnScreen)
        requires
            old(self).wf(),
            source_start < old(self)@.sources.len(),
            g.start == source_start,
            g.sources == source_cells,
        ensures
            final(self).wf(),
            final(self)@ == old(self)@,
            r@ == old(self)@.group_place(g, group, respect_anchor_guard),
    {
        match self.projected_group_position(group) {
            Some(row) => {
                let below: usize = if compact_tool_groups::holds_id(
                    &self.expanded_tool_groups,
                    group,
                ) {
                    source_cells
                } else {
                    0
                };
                PlaceOnScreen::At(row, 1usize.saturating_add(below))
            },
            None => {
                let first = self.source_cells[source_start].id;
                match self.viewport.committed_cell_position(first) {
                    Some(position) => if respect_anchor_guard && self.guarded(
                        position,
                        source_cells,
                    ) {
                        PlaceOnScreen::Waiting
                    } else {
                        PlaceOnScreen::At(position, source_cells)
                    },
                    None => if respect_anchor_guard && self.viewport.selection_is_active() {
                        PlaceOnScreen::Waiting
                    } else {
                        PlaceOnScreen::Nowhere
                    },
                }
            },
        }
    }

    fn guarded(&mut self, position: usize, count: usize) -> (r: bool)
        requires
            old(self).wf(),
        ensures
            final(self).wf(),
            final(self)@ == old(self)@,
            r == (old(self)@.view.selecting() || (!old(self)@.view.following && old(
                self,
            )@.view.range_shows(
                old(self)@.width(),
                position as int,
                count as int,
                old(self)@.conversation_area,
            ))),
    {
        if self.viewport.selection_is_active() {
            return true;
        }
        if self.viewport.is_following_bottom() {
            return false;
        }
        let width = self.width();
        self.viewport.committed_range_intersects_viewport(
            width,
            position,
            count,
            self.last_conversation_area,
        )
    }

    pub fn resolve_pending_tool_group_seals(&mut self, metrics: &mut QuietLedger)
        requires
            old(self).wf(),
        ensures
            final(self).wf(),
            ({
                let step = old(self)@.seals_resolved(old(self)@.pending_seals);
                &&& final(self)@ == step.screen
                &&& ledger::counted(*old(metrics), *final(metrics), step.bumps)
            }),
    {
        let ghost begin = self@;
        let ghost counters = *metrics;
        let pending = copy_ids(&self.pending_tool_group_seals);
        let mut i: usize = 0;
        proof {
            ledger::lemma_counted_nothing(*metrics);
            assert(pending@.take(0) =~= Seq::empty());
        }
        while i < pending.len()
            invariant
                i <= pending@.len(),
                self.wf(),
                self@ == begin.seals_resolved(pending@.take(i as int)).screen,
                ledger::counted(
                    counters,
                    *metrics,
                    begin.seals_resolved(pending@.take(i as int)).bumps,
                ),
            decreases pending@.len() - i,
        {
            let ghost before = begin.seals_resolved(pending@.take(i as int));
            let ghost middle = *metrics;
            let ghost step = self@.group_projected(
                pending@[i as int],
                false,
                true,
                RangeReplacementReason::Seal,
            );
            let _ = self.apply_tool_group_projection(
                metrics,
                pending[i],
                false,
                true,
                RangeReplacementReason::Seal,
            );
            proof {
                assert(pending@.take(i + 1).drop_last() =~= pending@.take(i as int));
                ledger::lemma_counted_concat(
                    counters,
                    middle,
                    *metrics,
                    before.bumps,
                    step.bumps,
                );
            }
            i += 1;
        }
        proof {
            assert(pending@.take(pending@.len() as int) =~= pending@);
        }
    }

    fn fold_groups(&mut self, metrics: &mut QuietLedger, ids: &Vec<CompactToolGroupId>)
        requires
            old(self).wf(),
        ensures
            final(self).wf(),
            ({
                let step = old(self)@.groups_folded(ids@);
                &&& final(self)@ == step.screen
                &&& ledger::counted(*old(metrics), *final(metrics), step.bumps)
            }),
    {
        let ghost begin = self@;
        let ghost counters = *metrics;
        let mut i: usize = 0;
        proof {
            ledger::lemma_counted_nothing(*metrics);
            assert(ids@.take(0) =~= Seq::empty());
        }
        while i < ids.len()
            invariant
                i <= ids@.len(),
                self.wf(),
                self@ == begin.groups_folded(ids@.take(i as int)).screen,
                ledger::counted(
                    counters,
                    *metrics,
                    begin.groups_folded(ids@.take(i as int)).bumps,
                ),
            decreases ids@.len() - i,
        {
            let ghost before = begin.groups_folded(ids@.take(i as int));
            let ghost middle = *metrics;
            let expanded = compact_tool_groups::holds_id(&self.expanded_tool_groups, ids[i]);
            let ghost step = self@.group_projected(
                ids@[i as int],
                expanded,
                false,
                RangeReplacementReason::UserToggle,
            );
            let _ = self.apply_tool_group_projection(
                metrics,
                ids[i],
                expanded,
                false,
                RangeReplacementReason::UserToggle,
            );
            proof {
                assert(ids@.take(i + 1).drop_last() =~= ids@.take(i as int));
                ledger::lemma_counted_concat(
                    counters,
                    middle,
                    *metrics,
                    before.bumps,
                    step.bumps,
                );
            }
            i += 1;
        }
        proof {
            assert(ids@.take(ids@.len() as int) =~= ids@);
        }
    }

    fn unfold_group(&mut self, metrics: &mut QuietLedger, group: CompactToolGroupId)
        requires
            old(self).wf(),
        ensures
            final(self).wf(),
            final(self)@ == old(self)@.group_unfolded(group).screen,
            ledger::counted(
                *old(metrics),
                *final(metrics),
                old(self)@.group_unfolded(group).bumps,
            ),
    {
        let ghost begin = self@;
        proof {
            reveal(ScreenModel::group_unfolded);
            ledger::lemma_counted_nothing(*metrics);
            screen_model::lemma_found_group(begin.sources, group);
        }
        let row = match self.projected_group_position(group) {
            Some(row) => row,
            None => return,
        };
        let ghost counters = *metrics;
        let ghost scans = screen_model::id_scans(begin.sources, group);
        let found = compact_tool_groups::compact_tool_group_cells_by_id(
            metrics,
            &self.source_cells,
            group,
        );
        let ghost searched = *metrics;
        proof {
            assert(scans + Seq::<Tally>::empty() =~= scans);
        }
        let sources = match found {
            Some(sources) => sources,
            None => return,
        };
        let below: usize = if compact_tool_groups::holds_id(&self.expanded_tool_groups, group) {
            sources.len()
        } else {
            0
        };
        let cells = as_view_cells(&sources);
        self.show_range(
            metrics,
            RangeReplacementReason::UserToggle,
            row,
            1usize.saturating_add(below),
            cells,
        );
        proof {
            ledger::lemma_counted_concat(
                counters,
                searched,
                *metrics,
                scans,
                seq![
                    Tally::Metric(QuietMetric::RangeReplacementUserToggle),
                    Tally::Metric(QuietMetric::RangeReplacement),
                ],
            );
        }
    }

    fn unfold_groups(&mut self, metrics: &mut QuietLedger, ids: &Vec<CompactToolGroupId>)
        requires
            old(self).wf(),
        ensures
            final(self).wf(),
            ({
                let step = old(self)@.groups_unfolded(ids@);
                &&& final(self)@ == step.screen
                &&& ledger::counted(*old(metrics), *final(metrics), step.bumps)
            }),
    {
        let ghost begin = self@;
        let ghost counters = *metrics;
        let ghost whole = begin.groups_unfolded(ids@);
        let mut done: Ghost<Seq<Tally>> = Ghost(Seq::empty());
        let mut left: usize = ids.len();
        proof {
            ledger::lemma_counted_nothing(*metrics);
            assert(ids@.take(ids@.len() as int) =~= ids@);
            assert(done@ + whole.bumps =~= whole.bumps);
        }
        while left > 0
            invariant
                left <= ids@.len(),
                self.wf(),
                ledger::counted(counters, *metrics, done@),
                self@.groups_unfolded(ids@.take(left as int)).screen == whole.screen,
                done@ + self@.groups_unfolded(ids@.take(left as int)).bumps == whole.bumps,
            decreases left,
        {
            let ghost screen = self@;
            let ghost step = screen.group_unfolded(ids@[left - 1]);
            let ghost middle = *metrics;
            let ghost listed = ids@.take(left as int);
            left -= 1;
            self.unfold_group(metrics, ids[left]);
            proof {
                assert(listed.drop_last() =~= ids@.take(left as int));
                ledger::lemma_counted_concat(
                    counters,
                    middle,
                    *metrics,
                    done@,
                    step.bumps,
                );
                let rest = self@.groups_unfolded(ids@.take(left as int));
                assert((done@ + step.bumps) + rest.bumps =~= done@ + (step.bumps + rest.bumps));
                done@ = done@ + step.bumps;
            }
        }
        proof {
            assert(ids@.take(0) =~= Seq::empty());
            assert(done@ + Seq::<Tally>::empty() =~= done@);
        }
    }

    pub fn set_compact_tool_groups(
        &mut self,
        metrics: &mut QuietLedger,
        compact_tool_groups: bool,
    )
        requires
            old(self).wf(),
        ensures
            final(self).wf(),
            final(self)@ == old(self)@.with_compact(compact_tool_groups).screen,
            ledger::counted(
                *old(metrics),
                *final(metrics),
                old(self)@.with_compact(compact_tool_groups).bumps,
            ),
    {
        proof {
            reveal(ScreenModel::with_compact);
            ledger::lemma_counted_nothing(*metrics);
        }
        if self.compact_tool_groups == compact_tool_groups {
            return;
        }
        let ghost counters = *metrics;
        let ghost scans = compact_tool_groups::all_scans(self@.sources);
        let ids = compact_tool_groups::compact_tool_group_ids_in_order(metrics, &self.source_cells);
        let ghost searched = *metrics;
        if compact_tool_groups {
            self.compact_tool_groups = true;
            let ghost step = self@.groups_folded(ids@);
            self.fold_groups(metrics, &ids);
            proof {
                ledger::lemma_counted_concat(
                    counters,
                    searched,
                    *metrics,
                    scans,
                    step.bumps,
                );
            }
        } else {
            let ghost step = self@.groups_unfolded(ids@);
            self.unfold_groups(metrics, &ids);
            proof {
                ledger::lemma_counted_concat(
                    counters,
                    searched,
                    *metrics,
                    scans,
                    step.bumps,
                );
            }
            self.compact_tool_groups = false;
            self.pending_tool_group_seals.clear();
            self.pending_tool_group_click = None;
            let _ = self.clear_tool_group_hover();
        }
    }

    /// Appends a source cell. A seal folds the run before it.
    pub fn push_source_cell(
        &mut self,
        metrics: &mut QuietLedger,
        cell: Arc<HistoryCell>,
        compact_tool_groups: bool,
    )
        requires
            old(self).wf(),
        ensures
            final(self).wf(),
            final(self)@ == old(self)@.source_pushed(cell, compact_tool_groups).screen,
            ledger::counted(
                *old(metrics),
                *final(metrics),
                old(self)@.source_pushed(cell, compact_tool_groups).bumps,
            ),
    {
        proof {
            reveal(ScreenModel::source_pushed);
        }
        let ghost begin = self@;
        let ghost counters = *metrics;
        let _ = self.clear_tool_group_hover();
        self.set_compact_tool_groups(metrics, compact_tool_groups);
        let ghost ready = begin.unhovered().with_compact(compact_tool_groups);
        let is_seal = tool_run_projection::seal_cell(&cell).is_some();
        self.source_cells.push(history_cell::share(&cell));
        if !is_seal {
            self.viewport.push_cell(ViewCell::Source(cell));
            return;
        }
        if !compact_tool_groups {
            return;
        }
        let ghost m = self@;
        let seal_index: usize = self.source_cells.len() - 1;
        let ghost compacted = *metrics;
        let ghost scans = compact_tool_groups::seal_scans(m.sources, seal_index as int);
        let found = compact_tool_groups::compact_tool_group_before_seal(
            metrics,
            &self.source_cells,
            seal_index,
            false,
        );
        proof {
            ledger::lemma_counted_concat(
                counters,
                compacted,
                *metrics,
                ready.bumps,
                scans,
            );
        }
        let group = match found {
            Some(projection) => projection.id,
            None => return,
        };
        let ghost middle = *metrics;
        let ghost step = m.group_projected(group, false, true, RangeReplacementReason::Seal);
        let _ = self.apply_tool_group_projection(
            metrics,
            group,
            false,
            true,
            RangeReplacementReason::Seal,
        );
        proof {
            ledger::lemma_counted_concat(
                counters,
                middle,
                *metrics,
                ready.bumps + scans,
                step.bumps,
            );
            screen_model::lemma_without(self@.expanded, group);
        }
        remove_id(&mut self.expanded_tool_groups, group);
    }

    /// The cells on the screen that show a source cell, or the group that it is in.
    fn shown_range(
        &self,
        source_index: usize,
        group: Option<CompactToolGroupSourceRange>,
    ) -> (r: Option<(usize, usize)>)
        requires
            self.wf(),
            source_index < self@.sources.len(),
            compact_tool_groups::range_matches(
                group,
                compact_tool_groups::group_of_source(
                    compact_tool_groups::groups_of(self@.sources),
                    source_index as int,
                ),
            ),
        ensures
            match r {
                Some((start, count)) => self@.shown_range(source_index as int) == Some(
                    (start as int, count as int),
                ),
                None => self@.shown_range(source_index as int) is None,
            },
    {
        proof {
            screen_model::lemma_group_of_source(self@.sources, source_index as int);
        }
        match group {
            Some(group) => match self.projected_group_position(group.id) {
                Some(row) => {
                    let below: usize = if compact_tool_groups::holds_id(
                        &self.expanded_tool_groups,
                        group.id,
                    ) {
                        group.source_cells
                    } else {
                        0
                    };
                    Some((row, 1usize.saturating_add(below)))
                },
                None => match self.viewport.committed_cell_position(
                    self.source_cells[group.source_start].id,
                ) {
                    Some(position) => Some((position, group.source_cells)),
                    None => None,
                },
            },
            None => match self.viewport.committed_cell_position(
                self.source_cells[source_index].id,
            ) {
                Some(position) => Some((position, 1)),
                None => None,
            },
        }
    }

    fn forget_group(&mut self, group: CompactToolGroupId)
        requires
            old(self).wf(),
        ensures
            final(self).wf(),
            final(self)@ == old(self)@.group_forgotten(group),
    {
        proof {
            screen_model::lemma_without(self@.expanded, group);
            screen_model::lemma_without(self@.pending_seals, group);
        }
        remove_id(&mut self.expanded_tool_groups, group);
        remove_id(&mut self.pending_tool_group_seals, group);
        if same_id(self.pending_tool_group_click, Some(group)) {
            self.pending_tool_group_click = None;
        }
        if same_id(self.last_clicked_tool_group, Some(group)) {
            self.last_clicked_tool_group = None;
        }
        if same_id(self.tool_group_hover.hovered(), Some(group)) {
            self.last_hover_position = None;
            let _ = self.tool_group_hover.update(None);
        }
    }

    /// What the screen shows for a group one of whose source cells was replaced.
    fn reproject_group(
        &self,
        metrics: &mut QuietLedger,
        group: CompactToolGroupSourceRange,
        survives: bool,
    ) -> (r: Vec<ViewCell>)
        requires
            self.wf(),
            group.source_start + group.source_cells < self@.sources.len(),
            survives == screen_model::valid_groups(
                self@.sources.subrange(
                    group.source_start as int,
                    group.source_start + group.source_cells + 1,
                ),
            ).contains(group.id),
        ensures
            compact_tool_groups::shown(r@) == compact_tool_groups::projection(
                self@.sources.subrange(
                    group.source_start as int,
                    group.source_start + group.source_cells + 1,
                ),
                self@.compact && !(survives && self@.pending_seals.contains(group.id)
                    && screen_model::group_position(self@.view.cells, group.id) is None),
                self@.expanded,
            ),
            ledger::counted(
                *old(metrics),
                *final(metrics),
                compact_tool_groups::projection_scans(
                    self@.sources.subrange(
                        group.source_start as int,
                        group.source_start + group.source_cells + 1,
                    ),
                    self@.compact && !(survives && self@.pending_seals.contains(group.id)
                        && screen_model::group_position(self@.view.cells, group.id) is None),
                ),
            ),
    {
        let len: usize = self.source_cells.len();
        let end: usize = group.source_start + group.source_cells + 1;
        let affected = compact_tool_groups::cells_between(
            &self.source_cells,
            group.source_start,
            end,
        );
        let visually_guarded = survives && compact_tool_groups::holds_id(
            &self.pending_tool_group_seals,
            group.id,
        ) && self.projected_group_position(group.id).is_none();
        compact_tool_groups::project_owned_cells_with_expanded(
            metrics,
            &affected,
            self.compact_tool_groups && !visually_guarded,
            &self.expanded_tool_groups,
        )
    }

    /// Puts a source cell in the place of another one.
    pub fn replace_source_cell(
        &mut self,
        metrics: &mut QuietLedger,
        source_index: usize,
        replacement: Arc<HistoryCell>,
        compact_tool_groups: bool,
    ) -> (r: bool)
        requires
            old(self).wf(),
        ensures
            final(self).wf(),
            ({
                let step = old(self)@.source_replaced(
                    source_index as int,
                    replacement,
                    compact_tool_groups,
                );
                &&& final(self)@ == step.screen
                &&& r == step.done
                &&& ledger::counted(*old(metrics), *final(metrics), step.bumps)
            }),
    {
        let ghost begin = self@;
        proof {
            reveal(ScreenModel::source_replaced);
            ledger::lemma_counted_nothing(*metrics);
            screen_model::lemma_group_of_source(begin.sources, source_index as int);
        }
        if self.compact_tool_groups != compact_tool_groups {
            return false;
        }
        if source_index >= self.source_cells.len() {
            return false;
        }
        let ghost counters = *metrics;
        let ghost scans = compact_tool_groups::source_scans(begin.sources, source_index);
        let old_group = compact_tool_groups::compact_tool_group_containing_source_index(
            metrics,
            &self.source_cells,
            source_index,
        );
        let ghost searched = *metrics;
        proof {
            assert(scans + Seq::<Tally>::empty() =~= scans);
            ledger::lemma_counted_nothing(searched);
        }
        let (start, count) = match self.shown_range(source_index, old_group) {
            Some(range) => range,
            None => return false,
        };
        let is_seal = tool_run_projection::seal_cell(&replacement).is_some();
        self.source_cells.set(source_index, history_cell::share(&replacement));
        let ghost m = begin.source_updated(source_index as int, replacement);
        let ghost g = compact_tool_groups::group_of_source(
            compact_tool_groups::groups_of(begin.sources),
            source_index as int,
        );
        let projected = match old_group {
            Some(group) => {
                let len: usize = self.source_cells.len();
                let end: usize = group.source_start + group.source_cells + 1;
                let affected = compact_tool_groups::cells_between(
                    &self.source_cells,
                    group.source_start,
                    end,
                );
                let valid = compact_tool_groups::compact_tool_group_ids(metrics, &affected);
                let ghost valid_metrics = *metrics;
                let survives = compact_tool_groups::holds_id(&valid, group.id);
                proof {
                    assert(valid@.contains(group.id) <==> screen_model::valid_groups(
                        affected@,
                    ).contains(group.id));
                }
                if !survives {
                    self.forget_group(group.id);
                }
                let rows = self.reproject_group(metrics, group, survives);
                proof {
                    assert(affected@ == m.group_stretch(g->0));
                    ledger::lemma_counted_concat(
                        searched,
                        valid_metrics,
                        *metrics,
                        compact_tool_groups::all_scans(affected@),
                        compact_tool_groups::projection_scans(affected@, m.folds_again(g->0)),
                    );
                }
                rows
            },
            None => {
                let mut cells: Vec<ViewCell> = Vec::new();
                if !is_seal {
                    cells.push(ViewCell::Source(replacement));
                }
                proof {
                    assert(compact_tool_groups::shown(cells@) =~= m.reprojected(g, replacement));
                }
                cells
            },
        };
        proof {
            assert(self@ =~= m);
            assert(compact_tool_groups::shown(projected@) == m.reprojected(g, replacement));
        }
        let ghost projected_metrics = *metrics;
        self.show_range(metrics, RangeReplacementReason::Lifecycle, start, count, projected);
        proof {
            let again = m.reprojection_scans(g);
            ledger::lemma_counted_concat(
                counters,
                searched,
                projected_metrics,
                scans,
                again,
            );
            ledger::lemma_counted_concat(
                counters,
                projected_metrics,
                *metrics,
                scans + again,
                seq![
                    Tally::Metric(QuietMetric::RangeReplacementLifecycle),
                    Tally::Metric(QuietMetric::RangeReplacement),
                ],
            );
        }
        true
    }

    /// Where a boundary between source cells lies among the cells that are shown.
    pub fn projected_source_boundary(&self, metrics: &mut QuietLedger, source_index: usize) -> (r:
        Option<usize>)
        requires
            self.wf(),
        ensures
            ledger::counted(
                *old(metrics),
                *final(metrics),
                self@.boundary_scans(source_index as int),
            ),
            match r {
                Some(i) => self@.boundary(source_index as int) == Some(i as int),
                None => self@.boundary(source_index as int) is None,
            },
    {
        proof {
            screen_model::lemma_group_of_source(self@.sources, source_index as int);
            ledger::lemma_counted_nothing(*metrics);
        }
        let len: usize = self.source_cells.len();
        if source_index > len {
            return None;
        }
        if source_index == len {
            return Some(self.viewport.committed_cell_count());
        }
        if tool_run_projection::seal_cell(&self.source_cells[source_index]).is_some() {
            return None;
        }
        match compact_tool_groups::compact_tool_group_containing_source_index(
            metrics,
            &self.source_cells,
            source_index,
        ) {
            Some(group) => {
                if group.source_start != source_index {
                    return None;
                }
                match self.projected_group_position(group.id) {
                    Some(row) => Some(row),
                    None => self.viewport.committed_cell_position(
                        self.source_cells[group.source_start].id,
                    ),
                }
            },
            None => self.viewport.committed_cell_position(self.source_cells[source_index].id),
        }
    }

    fn keep_groups(&mut self, metrics: &mut QuietLedger)
        requires
            old(self).wf(),
        ensures
            ledger::counted(
                *old(metrics),
                *final(metrics),
                compact_tool_groups::all_scans(old(self)@.sources),
            ),
            final(self).wf(),
            final(self)@ == old(self)@.groups_kept(screen_model::valid_groups(old(self)@.sources)),
    {
        let ghost members = screen_model::valid_groups(self@.sources);
        let valid = compact_tool_groups::compact_tool_group_ids(metrics, &self.source_cells);
        proof {
            screen_model::lemma_only(self@.expanded, members);
            screen_model::lemma_only(self@.pending_seals, members);
        }
        retain_ids(&mut self.expanded_tool_groups, &valid, Ghost(members));
        retain_ids(&mut self.pending_tool_group_seals, &valid, Ghost(members));
        self.pending_tool_group_click = retained_id(self.pending_tool_group_click, &valid);
        self.last_clicked_tool_group = retained_id(self.last_clicked_tool_group, &valid);
        if let Some(hovered) = self.tool_group_hover.hovered() {
            proof {
                assert(valid@.contains(hovered) <==> members.contains(hovered));
            }
            if !compact_tool_groups::holds_id(&valid, hovered) {
                self.last_hover_position = None;
                let _ = self.tool_group_hover.update(None);
            }
        }
    }

    /// Applies a structural splice of the source cells without rebuilding unrelated cells.
    ///
    /// Boundaries must fall between shown cells or complete Work segments. A splice that would
    /// cut through a sealed segment fails, so that the caller can project from the start instead.
    pub fn splice_source_cells(
        &mut self,
        metrics: &mut QuietLedger,
        source_index: usize,
        remove_count: usize,
        replacements: Vec<Arc<HistoryCell>>,
        compact_tool_groups: bool,
    ) -> (r: bool)
        requires
            old(self).wf(),
        ensures
            final(self).wf(),
            ({
                let step = old(self)@.sources_spliced(
                    source_index as int,
                    remove_count as int,
                    replacements@,
                    compact_tool_groups,
                );
                &&& final(self)@ == step.screen
                &&& r == step.done
                &&& ledger::counted(*old(metrics), *final(metrics), step.bumps)
            }),
    {
        let ghost begin = self@;
        proof {
            reveal(ScreenModel::sources_spliced);
            ledger::lemma_counted_nothing(*metrics);
        }
        if self.compact_tool_groups != compact_tool_groups {
            return false;
        }
        let len: usize = self.source_cells.len();
        if source_index > len || remove_count > len - source_index {
            return false;
        }
        let source_end: usize = source_index + remove_count;
        let ghost counters = *metrics;
        let ghost first = begin.boundary_scans(source_index as int);
        let ghost second = begin.boundary_scans(source_end as int);
        let start = self.projected_source_boundary(metrics, source_index);
        let ghost one = *metrics;
        proof {
            assert(first + Seq::<Tally>::empty() =~= first);
        }
        let start = match start {
            Some(start) => start,
            None => return false,
        };
        let end = self.projected_source_boundary(metrics, source_end);
        let ghost two = *metrics;
        proof {
            ledger::lemma_counted_concat(counters, one, two, first, second);
            assert(first + second + Seq::<Tally>::empty() =~= first + second);
        }
        let end = match end {
            Some(end) => end,
            None => return false,
        };
        if end < start {
            return false;
        }
        let projected = compact_tool_groups::project_owned_cells_with_expanded(
            metrics,
            &replacements,
            compact_tool_groups,
            &self.expanded_tool_groups,
        );
        let ghost three = *metrics;
        let mut more = replacements;
        let mut tail = self.source_cells.split_off(source_end);
        self.source_cells.truncate(source_index);
        self.source_cells.append(&mut more);
        self.source_cells.append(&mut tail);
        proof {
            assert(self.source_cells@ =~= begin.sources.take(source_index as int) + replacements@
                + begin.sources.skip(source_end as int));
        }
        let ghost sources = self@.sources;
        self.keep_groups(metrics);
        let ghost four = *metrics;
        self.show_range(
            metrics,
            RangeReplacementReason::StructuralEdit,
            start,
            end - start,
            projected,
        );
        proof {
            let both = first + second;
            let folded = compact_tool_groups::projection_scans(replacements@, compact_tool_groups);
            let kept = compact_tool_groups::all_scans(sources);
            ledger::lemma_counted_concat(counters, two, three, both, folded);
            ledger::lemma_counted_concat(counters, three, four, both + folded, kept);
            ledger::lemma_counted_concat(
                counters,
                four,
                *metrics,
                both + folded + kept,
                seq![
                    Tally::Metric(QuietMetric::RangeReplacementStructural),
                    Tally::Metric(QuietMetric::RangeReplacement),
                ],
            );
        }
        true
    }

    /// The group whose row is at a position on the screen.
    pub fn compact_tool_group_header_at(&mut self, position: Position) -> (r: Option<
        CompactToolGroupId,
    >)
        requires
            old(self).wf(),
        ensures
            final(self).wf(),
            final(self)@ == old(self)@,
            r == old(self)@.header_at(position),
    {
        if !self.compact_tool_groups {
            return None;
        }
        proof {
            reveal(ViewportModel::hit);
        }
        match self.viewport.committed_cell_hit(self.last_conversation_area, position) {
            Some(hit) => match self.viewport.committed_cell(hit.index) {
                Some(cell) => compact_tool_groups::compact_tool_group_header_id(
                    cell,
                    hit.row_within_cell,
                ),
                None => None,
            },
            None => None,
        }
    }

    /// Moves the hover to a position and says whether another group is hovered.
    pub fn update_tool_group_hover(&mut self, position: Position) -> (r: bool)
        requires
            old(self).wf(),
        ensures
            final(self).wf(),
            final(self)@ == old(self)@.hovered_at(position),
            r == (old(self)@.hovered_at(position).hover != old(self)@.hover),
    {
        let same_region = match self.last_hover_position {
            Some(previous) => previous.y == position.y && self.last_conversation_area.contains(
                previous,
            ) == self.last_conversation_area.contains(position),
            None => false,
        };
        if same_region {
            return false;
        }
        let hovered = self.compact_tool_group_header_at(position);
        self.last_hover_position = Some(position);
        self.tool_group_hover.update(hovered)
    }

    pub fn begin_selection(
        &mut self,
        position: Position,
        restored: Option<RestoredSelection>,
    ) -> (r: bool)
        requires
            old(self).wf(),
        ensures
            final(self).wf(),
            final(self)@ == old(self)@.selection_begun(position, restored),
            r == (!old(self)@.conversation_area.empty_area() && old(
                self,
            )@.conversation_area.holds(old(self)@.press_position(position))),
    {
        let area = self.last_conversation_area;
        let place = if !area.is_empty() && self.last_pane_area.contains(position) && position.y
            >= area.y && position.y < area.bottom() && position.x >= area.right() {
            Position { x: area.right().saturating_sub(1), y: position.y }
        } else {
            position
        };
        let pressed_group = self.compact_tool_group_header_at(place);
        let _ = self.tool_group_hover.update(pressed_group);
        self.pending_tool_group_click = pressed_group;
        let started = self.viewport.begin_selection(area, place, restored);
        if !started {
            self.pending_tool_group_click = None;
        }
        started
    }

    pub fn update_selection(
        &mut self,
        position: Position,
        restored: Option<RestoredSelection>,
        scrolls: bool,
        now: u64,
    ) -> (r: bool)
        requires
            old(self).wf(),
        ensures
            final(self).wf(),
            final(self)@ == old(self)@.selection_dragged(position, restored, scrolls, now),
            r == old(self)@.view.drags(old(self)@.conversation_area, restored),
    {
        self.pending_tool_group_click = None;
        let _ = self.clear_tool_group_hover();
        self.viewport.update_selection(
            self.last_conversation_area,
            position,
            restored,
            scrolls,
            now,
        )
    }

    /// Folds or expands a group, and holds the view at an offset through the next frame.
    pub fn toggle_tool_group(
        &mut self,
        metrics: &mut QuietLedger,
        group: CompactToolGroupId,
        scroll_offset: usize,
    ) -> (r: bool)
        requires
            old(self).wf(),
        ensures
            final(self).wf(),
            ({
                let step = old(self)@.group_toggled(group, scroll_offset);
                &&& final(self)@ == step.screen
                &&& r == step.done
                &&& ledger::counted(*old(metrics), *final(metrics), step.bumps)
            }),
    {
        proof {
            reveal(ScreenModel::group_toggled);
            ledger::lemma_counted_nothing(*metrics);
        }
        if !self.compact_tool_groups {
            return false;
        }
        let expanding = !compact_tool_groups::holds_id(&self.expanded_tool_groups, group);
        if !self.apply_tool_group_projection(
            metrics,
            group,
            expanding,
            false,
            RangeReplacementReason::UserToggle,
        ) {
            return false;
        }
        proof {
            screen_model::lemma_without(self@.expanded, group);
        }
        if expanding {
            insert_id(&mut self.expanded_tool_groups, group);
        } else {
            remove_id(&mut self.expanded_tool_groups, group);
        }
        self.last_clicked_tool_group = Some(group);
        self.viewport.preserve_scroll_offset_through_next_render(scroll_offset);
        true
    }

    /// Ends a selection. A press and a release on the row of a group, with no text selected,
    /// toggle the group. The offset of the row is the one from before the changes that waited.
    pub fn finish_selection(
        &mut self,
        metrics: &mut QuietLedger,
        position: Position,
        restored: Option<RestoredSelection>,
        selected: Option<String>,
    ) -> (r: Option<String>)
        requires
            old(self).wf(),
        ensures
            final(self).wf(),
            ({
                let step = old(self)@.selection_finished(position, restored, selected is Some);
                &&& final(self)@ == step.screen
                &&& ledger::counted(*old(metrics), *final(metrics), step.bumps)
            }),
            r == selected,
    {
        proof {
            reveal(ScreenModel::selection_finished);
            ledger::lemma_counted_nothing(*metrics);
        }
        let released_group = self.compact_tool_group_header_at(position);
        let pressed_group = self.pending_tool_group_click;
        self.pending_tool_group_click = None;
        let scroll_offset = self.viewport.scroll_offset();
        let selected = self.viewport.finish_selection(
            self.last_conversation_area,
            position,
            restored,
            selected,
        );
        if selected.is_none() {
            if let Some(group) = pressed_group {
                if same_id(pressed_group, released_group) {
                    let _ = self.toggle_tool_group(metrics, group, scroll_offset);
                }
            }
        }
        selected
    }

    pub fn cancel_selection(&mut self)
        requires
            old(self).wf(),
        ensures
            final(self).wf(),
            final(self)@ == old(self)@.selection_cancelled(),
            !final(self)@.view.selecting(),
    {
        self.pending_tool_group_click = None;
        self.viewport.cancel_selection();
    }

    pub fn selection_is_active(&self) -> (r: bool)
        ensures
            r == self@.view.selecting(),
    {
        self.viewport.selection_is_active()
    }

    pub fn clear_last_render_areas(&mut self)
        requires
            old(self).wf(),
        ensures
            final(self).wf(),
            final(self)@ == old(self)@.areas_cleared(),
    {
        let nothing = Rect { x: 0, y: 0, width: 0, height: 0 };
        self.last_pane_area = nothing;
        self.last_conversation_area = nothing;
        self.last_bottom_area = nothing;
    }

    pub fn handle_mouse_scroll(
        &mut self,
        direction: MouseScrollDirection,
        rows: usize,
        position: Position,
        restored: Option<RestoredSelection>,
        scrolls: bool,
        now: u64,
    ) -> (r: bool)
        requires
            old(self).wf(),
        ensures
            final(self).wf(),
            final(self)@ == old(self)@.wheeled(direction, rows, position, restored, scrolls, now),
            r == old(self)@.takes_scroll(position),
    {
        if self.viewport.selection_is_active() {
            self.pending_tool_group_click = None;
            let _ = self.clear_tool_group_hover();
            self.viewport.handle_selection_mouse_scroll(
                self.last_conversation_area,
                direction,
                rows,
                position,
                restored,
                scrolls,
                now,
            );
            return true;
        }
        if !self.last_conversation_area.contains(position) {
            return false;
        }
        self.viewport.handle_mouse_scroll(direction, rows);
        self.last_hover_position = None;
        let _ = self.update_tool_group_hover(position);
        true
    }

    /// Handles a key that may move the view. Composer history and cursor movement own the
    /// arrows and Home, and plain text goes to the composer. `target` is the offset that the key
    /// stands for.
    pub fn handle_navigation_key(&mut self, key: NavigationKey, target: Option<usize>) -> (r: bool)
        requires
            old(self).wf(),
        ensures
            final(self).wf(),
            r == (key.may_navigate() && target is Some),
            final(self)@ == (if r {
                old(self)@.unhovered().viewing(old(self)@.view.at_offset(target->0))
            } else {
                old(self)@
            }),
    {
        let pressed = match key.kind {
            KeyEventKind::Press => true,
            KeyEventKind::Repeat => true,
            KeyEventKind::Release => false,
        };
        let composer_key = match key.code {
            KeyCode::Up => true,
            KeyCode::Down => true,
            KeyCode::Home => true,
            KeyCode::Other => false,
        };
        if !pressed || key.plain_text || composer_key {
            return false;
        }
        let handled = self.viewport.handle_navigation_key(target);
        if handled {
            let _ = self.clear_tool_group_hover();
        }
        handled
    }

    /// The group that a cell on the screen belongs to.
    fn group_of_shown(&self, metrics: &mut QuietLedger, index: usize) -> (r: Option<
        CompactToolGroupId,
    >)
        requires
            self.wf(),
            index < self@.view.cells.len(),
        ensures
            r == self@.group_of_shown(index as int),
            ledger::counted(
                *old(metrics),
                *final(metrics),
                self@.shown_scans(index as int),
            ),
    {
        proof {
            ledger::lemma_counted_nothing(*metrics);
        }
        match self.viewport.committed_cell(index) {
            Some(cell) => match cell {
                ViewCell::Source(source) => {
                    compact_tool_groups::compact_tool_group_id_containing_cell(
                        metrics,
                        &self.source_cells,
                        source.id,
                    )
                },
                ViewCell::Work(_) => compact_tool_groups::compact_tool_group_header_id(cell, 0),
            },
            None => None,
        }
    }

    fn visible_group(&self, metrics: &mut QuietLedger, first: usize, last: usize) -> (r: Option<
        CompactToolGroupId,
    >)
        requires
            self.wf(),
            last < self@.view.cells.len(),
        ensures
            r == self@.visible_group(first as int, last as int),
            ledger::counted(
                *old(metrics),
                *final(metrics),
                self@.visible_scans(first as int, last as int),
            ),
    {
        let ghost counters = *metrics;
        let ghost whole = self@.visible_scans(first as int, last as int);
        let ghost mut scans: Seq<Tally> = Seq::empty();
        let mut index: usize = last;
        proof {
            ledger::lemma_counted_nothing(counters);
            assert(scans + whole =~= whole);
        }
        loop
            invariant_except_break
                scans + self@.visible_scans(first as int, index as int) == whole,
            invariant
                self.wf(),
                index <= last,
                last < self@.view.cells.len(),
                self@.visible_group(first as int, last as int) == self@.visible_group(
                    first as int,
                    index as int,
                ),
                whole == self@.visible_scans(first as int, last as int),
                ledger::counted(counters, *metrics, scans),
                counters == *old(metrics),
            ensures
                self@.visible_group(first as int, last as int) is None,
                ledger::counted(counters, *metrics, whole),
            decreases index,
        {
            if index < first {
                proof {
                    assert(scans + Seq::<Tally>::empty() =~= scans);
                }
                break;
            }
            let ghost before = *metrics;
            let found = self.group_of_shown(metrics, index);
            proof {
                let here = self@.shown_scans(index as int);
                let behind = self@.visible_scans(first as int, index - 1);
                ledger::lemma_counted_concat(counters, before, *metrics, scans, here);
                assert(scans + (here + behind) =~= (scans + here) + behind);
                scans = scans + here;
            }
            if let Some(group) = found {
                return Some(group);
            }
            if index == 0 {
                proof {
                    assert(self@.visible_group(first as int, index - 1) is None);
                    assert(scans + Seq::<Tally>::empty() =~= scans);
                }
                break;
            }
            index -= 1;
        }
        None
    }

    fn present(&self, metrics: &mut QuietLedger, id: Option<CompactToolGroupId>) -> (r: Option<
        CompactToolGroupId,
    >)
        ensures
            r == self@.present(id),
            ledger::counted(*old(metrics), *final(metrics), self@.present_scans(id)),
    {
        proof {
            ledger::lemma_counted_nothing(*metrics);
        }
        match id {
            Some(group) => if compact_tool_groups::compact_tool_group_cells_by_id(
                metrics,
                &self.source_cells,
                group,
            ).is_some() {
                Some(group)
            } else {
                None
            },
            None => None,
        }
    }

    /// The group to look into.
    fn inspected_group(&mut self, metrics: &mut QuietLedger) -> (r: Option<CompactToolGroupId>)
        requires
            old(self).wf(),
        ensures
            final(self).wf(),
            final(self)@ == old(self)@,
            r == old(self)@.inspected_group(),
            ledger::counted(*old(metrics), *final(metrics), old(self)@.choice_scans()),
    {
        let ghost counters = *metrics;
        let ghost m = self@;
        let clicked = self.present(metrics, self.last_clicked_tool_group);
        let ghost one = *metrics;
        let target = self.tool_group_hover.hovered();
        let hovered = self.present(metrics, target);
        let ghost two = *metrics;
        proof {
            reveal(ViewportModel::visible_range);
            ledger::lemma_counted_nothing(two);
        }
        let visible = match self.viewport.visible_committed_cell_range(
            self.last_conversation_area,
        ) {
            Some((first, last)) => self.visible_group(metrics, first, last),
            None => None,
        };
        let ghost three = *metrics;
        let latest = compact_tool_groups::latest_compact_tool_group_id(metrics, &self.source_cells);
        proof {
            let a = m.present_scans(m.last_clicked);
            let b = m.present_scans(target);
            let c = match m.view.visible_range(m.conversation_area) {
                Some((first, last)) => m.visible_scans(first as int, last as int),
                None => Seq::empty(),
            };
            ledger::lemma_counted_concat(counters, one, two, a, b);
            ledger::lemma_counted_concat(counters, two, three, a + b, c);
            ledger::lemma_counted_concat(
                counters,
                three,
                *metrics,
                a + b + c,
                compact_tool_groups::all_scans(m.sources),
            );
        }
        if clicked.is_some() {
            clicked
        } else if hovered.is_some() {
            hovered
        } else if visible.is_some() {
            visible
        } else {
            latest
        }
    }

    /// The source cells of the group to look into.
    pub fn inspection_cells(&mut self, metrics: &mut QuietLedger) -> (r: Option<
        Vec<Arc<HistoryCell>>,
    >)
        requires
            old(self).wf(),
        ensures
            final(self).wf(),
            final(self)@ == old(self)@,
            match r {
                Some(cells) => old(self)@.inspected_group() matches Some(group)
                    && screen_model::found_group(old(self)@.sources, group) matches Some(g)
                    && cells@ == compact_tool_groups::sources_of(old(self)@.sources, g),
                None => match old(self)@.inspected_group() {
                    Some(group) => screen_model::found_group(old(self)@.sources, group) is None,
                    None => true,
                },
            },
            ledger::counted(*old(metrics), *final(metrics), old(self)@.inspection_scans()),
    {
        let ghost counters = *metrics;
        let ghost m = self@;
        let chosen = self.inspected_group(metrics);
        let ghost middle = *metrics;
        proof {
            ledger::lemma_counted_nothing(middle);
        }
        let cells = match chosen {
            Some(group) => compact_tool_groups::compact_tool_group_cells_by_id(
                metrics,
                &self.source_cells,
                group,
            ),
            None => None,
        };
        proof {
            ledger::lemma_counted_concat(
                counters,
                middle,
                *metrics,
                m.choice_scans(),
                m.present_scans(chosen),
            );
        }
        cells
    }

    fn lay_out(&mut self, frame: &Frame)
        requires
            old(self).wf(),
        ensures
            final(self).wf(),
            final(self)@ == old(self)@.laid_out(frame@),
    {
        if !frame.popup_free {
            let _ = self.clear_tool_group_hover();
        }
        let bottom_height: u16 = if frame.bottom_height <= frame.area.height {
            frame.bottom_height
        } else {
            frame.area.height
        };
        let conversation_height: u16 = frame.area.height - bottom_height;
        let conversation_area = Rect::new(
            frame.area.x,
            frame.area.y,
            frame.wrap_width,
            conversation_height,
        );
        self.last_bottom_area = Rect::new(
            frame.area.x,
            frame.area.y.saturating_add(conversation_height),
            frame.area.width,
            bottom_height,
        );
        if self.last_rendered_conversation_area != conversation_area {
            let _ = self.clear_tool_group_hover();
        }
        self.last_rendered_conversation_area = conversation_area;
        self.last_conversation_area = conversation_area;
    }

    fn show_live(&mut self, metrics: &mut QuietLedger, frame: Frame)
        requires
            old(self).wf(),
            old(self)@.conversation_area == frame@.conversation_area(),
        ensures
            final(self).wf(),
            final(self)@ == old(self)@.live_shown(frame@),
            ledger::drawn(
                *old(metrics),
                *final(metrics),
                old(self)@.view.with_mode(frame@.mode).live_bumps(
                    frame@.conversation_area().width,
                    frame@.active,
                ),
                conversation_viewport::live_peak(
                    old(self)@.view.with_mode(frame@.mode),
                    frame@.conversation_area().width,
                    frame@.active,
                    frame@.fresh,
                ),
            ),
    {
        proof {
            reveal(ScreenModel::live_shown);
        }
        let width = self.last_conversation_area.width;
        self.viewport.set_render_mode(frame.render_mode);
        let scroll_before = self.viewport.scroll_offset();
        let _ = self.viewport.sync_live_tail(metrics, width, frame.active_key, frame.fresh);
        if self.viewport.scroll_offset() != scroll_before {
            let _ = self.clear_tool_group_hover();
        }
    }

    fn settle(
        &mut self,
        metrics: &mut QuietLedger,
        scrolls: bool,
        now: u64,
        step: Option<AutoscrollStep>,
        restored: Option<RestoredSelection>,
        Ghost(frame): Ghost<FrameModel>,
    ) -> (r: bool)
        requires
            old(self).wf(),
            old(self)@.conversation_area == frame.conversation_area(),
            frame.scrolls == scrolls,
            frame.now == now,
            frame.step == step,
            frame.restored == restored,
        ensures
            final(self).wf(),
            final(self)@ == old(self)@.settled(frame),
            r == old(self)@.autoscrolls(frame),
            ledger::counted(*old(metrics), *final(metrics), old(self)@.settle_tallies(frame)),
    {
        proof {
            reveal(ScreenModel::settled);
            reveal(ScreenModel::settle_tallies);
            reveal(ScreenModel::autoscrolls);
        }
        let area = self.last_conversation_area;
        let same_area = match self.last_selection_viewport_area {
            Some(last) => last == area,
            None => false,
        };
        self.last_selection_viewport_area = Some(area);
        let selection_autoscroll_active = if same_area {
            self.viewport.advance_selection_autoscroll(area, scrolls, now, step, restored)
        } else {
            self.viewport.prepare_selection_autoscroll(scrolls, now)
        };
        self.viewport.render(metrics, area, restored);
        selection_autoscroll_active
    }

    /// Lays the screen out for a frame and settles what it shows.
    pub fn render(&mut self, metrics: &mut QuietLedger, frame: Frame) -> (r: RenderedOwnedScreen)
        requires
            old(self).wf(),
        ensures
            final(self).wf(),
            final(self)@ == old(self)@.framed(frame@).screen,
            r.selection_autoscroll_active == old(self)@.framed(frame@).done,
            ledger::drawn(
                *old(metrics),
                *final(metrics),
                old(self)@.framed(frame@).bumps,
                old(self)@.frame_rows(frame@),
            ),
            r.conversation_area == frame@.conversation_area(),
            r.bottom_area == frame@.bottom_area(),
            r.show_newer_hint == !final(self)@.view.following,
    {
        let ghost begin = self@;
        let ghost facts = frame@;
        let ghost counters = *metrics;
        proof {
            reveal(ScreenModel::framed);
            reveal(ScreenModel::frame_rows);
        }
        self.lay_out(&frame);
        let ghost laid_out = self@;
        proof {
            assert(laid_out.pending_seals == begin.pending_seals);
            screen_model::lemma_resolved_keeps_areas(laid_out, begin.pending_seals);
        }
        self.resolve_pending_tool_group_seals(metrics);
        let ghost folded = laid_out.seals_resolved(begin.pending_seals);
        let ghost middle = *metrics;
        let scrolls = frame.scrolls;
        let now = frame.now;
        let step = frame.step;
        let restored = frame.restored;
        self.show_live(metrics, frame);
        proof {
            let view = folded.screen.view.with_mode(facts.mode);
            ledger::lemma_drawn_after(
                counters,
                middle,
                *metrics,
                folded.bumps,
                view.live_bumps(facts.conversation_area().width, facts.active),
                begin.frame_rows(facts),
            );
            reveal(ScreenModel::live_shown);
        }
        let ghost live = self@;
        let ghost shown = *metrics;
        let selection_autoscroll_active = self.settle(
            metrics,
            scrolls,
            now,
            step,
            restored,
            Ghost(facts),
        );
        proof {
            reveal(ScreenModel::settled);
            screen_model::lemma_settle_tallies(live, facts);
            ledger::lemma_counted_after_drawn(
                counters,
                shown,
                *metrics,
                folded.bumps + folded.screen.view.with_mode(facts.mode).live_bumps(
                    facts.conversation_area().width,
                    facts.active,
                ),
                live.settle_tallies(facts),
                begin.frame_rows(facts),
            );
        }
        RenderedOwnedScreen {
            conversation_area: self.last_conversation_area,
            bottom_area: self.last_bottom_area,
            show_newer_hint: !self.viewport.is_following_bottom(),
            selection_autoscroll_active,
        }
    }
}

/// A frame that the screen is drawn in, with what only the host knows of it.
pub struct Frame {
    pub area: Rect,
    /// Whether no modal and no popup covers the screen.
    pub popup_free: bool,
    /// The rows that the composer asks for.
    pub bottom_height: u16,
    /// The width that history is wrapped at.
    pub wrap_width: u16,
    pub render_mode: HistoryRenderMode,
    pub active_key: Option<ActiveCellRenderKey>,
    /// The snapshots of the lanes that are to be shown anew.
    pub fresh: LaneSnapshots,
    /// Whether the pointer that drags a selection asks for scrolling.
    pub scrolls: bool,
    pub now: u64,
    pub step: Option<AutoscrollStep>,
    pub restored: Option<RestoredSelection>,
}

impl View for Frame {
    type V = FrameModel;

    open spec fn view(&self) -> FrameModel {
        FrameModel {
            area: self.area,
            popup_free: self.popup_free,
            bottom_height: self.bottom_height,
            wrap_width: self.wrap_width,
            mode: self.render_mode,
            active: self.active_key,
            fresh: self.fresh@,
            scrolls: self.scrolls,
            now: self.now,
            step: self.step,
            restored: self.restored,
        }
    }
}

/// What a frame of the screen came to.
#[derive(Clone, Copy, Debug, PartialEq, Eq, Structural)]
pub struct RenderedOwnedScreen {
    pub conversation_area: Rect,
    pub bottom_area: Rect,
    /// Whether the composer hints at newer history below the view.
    pub show_newer_hint: bool,
    pub selection_autoscroll_active: bool,
}

#[derive(Clone, Copy, Debug, PartialEq, Eq, Structural)]
pub enum KeyEventKind {
    Press,
    Repeat,
    Release,
}

#[derive(Clone, Copy, Debug, PartialEq, Eq, Structural)]
pub enum KeyCode {
    Up,
    Down,
    Home,
    Other,
}

/// A key, as far as navigation depends on it.
#[derive(Clone, Copy, Debug, PartialEq, Eq, Structural)]
pub struct NavigationKey {
    pub kind: KeyEventKind,
    pub code: KeyCode,
    pub plain_text: bool,
}

impl NavigationKey {
    /// Whether the key may move the view.
    pub open spec fn may_navigate(self) -> bool {
        self.kind != KeyEventKind::Release && !self.plain_text && self.code == KeyCode::Other
    }
}

/// The part of a pane below its header.
pub open spec fn body_area(area: Rect, show_header: bool) -> Rect {
    if !show_header {
        area
    } else {
        let header: u16 = if area.height >= PANE_HEADER_HEIGHT {
            PANE_HEADER_HEIGHT
        } else {
            area.height
        };
        geometry::rect_at(
            area.x,
            geometry::edge(area.y, header),
            area.width,
            (area.height - header) as u16,
        )
    }
}

pub fn pane_body_area(area: Rect, show_header: bool) -> (r: Rect)
    ensures
        r == body_area(area, show_header),
{
    if !show_header {
        return area;
    }
    let header_height: u16 = if area.height >= PANE_HEADER_HEIGHT {
        PANE_HEADER_HEIGHT
    } else {
        area.height
    };
    Rect::new(
        area.x,
        area.y.saturating_add(header_height),
        area.width,
        area.height - header_height,
    )
}

} // verus!
