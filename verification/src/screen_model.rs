//! What an owned screen is, as a mathematical value, and how each operation changes it.

use std::sync::Arc;

use vstd::prelude::*;

use crate::compact_tool_groups;
use crate::compact_tool_groups::CompactToolGroupId;
use crate::compact_tool_groups::GroupModel;
use crate::compact_tool_groups::GroupSearch;
use crate::compact_tool_groups::ShownCell;
use crate::conversation_viewport;
use crate::geometry;
use crate::geometry::Position;
use crate::geometry::Rect;
use crate::history_cell::HistoryCell;
use crate::history_cell::HistoryRenderMode;
use crate::ledger;
use crate::ledger::Tally;
use crate::pager_content::MouseScrollDirection;
use crate::pager_layout;
use crate::quiet_metrics;
use crate::quiet_metrics::QuietMetric;
use crate::quiet_metrics::RangeReplacementReason;
use crate::tool_run_projection;
use crate::viewport_model;
use crate::viewport_model::ActiveCellRenderKey;
use crate::viewport_model::AutoscrollStep;
use crate::viewport_model::LiveModel;
use crate::viewport_model::RestoredSelection;
use crate::viewport_model::ViewportModel;

verus! {

/// The identifiers without one of them.
pub open spec fn without(ids: Seq<CompactToolGroupId>, id: CompactToolGroupId) -> Seq<
    CompactToolGroupId,
>
    decreases ids.len(),
{
    if ids.len() == 0 {
        Seq::empty()
    } else if ids.last() == id {
        without(ids.drop_last(), id)
    } else {
        without(ids.drop_last(), id).push(ids.last())
    }
}

/// The identifiers with one more, unless it is among them.
pub open spec fn including(ids: Seq<CompactToolGroupId>, id: CompactToolGroupId) -> Seq<
    CompactToolGroupId,
> {
    if ids.contains(id) {
        ids
    } else {
        ids.push(id)
    }
}

/// The identifiers that are among others.
pub open spec fn only(ids: Seq<CompactToolGroupId>, valid: Seq<CompactToolGroupId>) -> Seq<
    CompactToolGroupId,
>
    decreases ids.len(),
{
    if ids.len() == 0 {
        Seq::empty()
    } else if valid.contains(ids.last()) {
        only(ids.drop_last(), valid).push(ids.last())
    } else {
        only(ids.drop_last(), valid)
    }
}

pub open spec fn only_if(id: Option<CompactToolGroupId>, valid: Seq<CompactToolGroupId>) -> Option<
    CompactToolGroupId,
> {
    match id {
        Some(group) if valid.contains(group) => Some(group),
        _ => None,
    }
}

/// The number under which a group is hovered. Nothing hovered is zero.
pub open spec fn hover_number(id: Option<CompactToolGroupId>) -> u64 {
    match id {
        Some(group) => group.0,
        None => 0,
    }
}

/// The position of a group's row among the cells that are shown.
pub open spec fn group_position(cells: Seq<ShownCell>, id: CompactToolGroupId) -> Option<int>
    decreases cells.len(),
{
    if cells.len() == 0 {
        None
    } else {
        match group_position(cells.drop_last(), id) {
            Some(i) => Some(i),
            None => if compact_tool_groups::header_hit(cells.last(), 0) == Some(id) {
                Some(cells.len() - 1)
            } else {
                None
            },
        }
    }
}

pub open spec fn valid_groups(sources: Seq<Arc<HistoryCell>>) -> Seq<CompactToolGroupId> {
    compact_tool_groups::group_ids(compact_tool_groups::groups_of(sources))
}

pub open spec fn found_group(sources: Seq<Arc<HistoryCell>>, id: CompactToolGroupId) -> Option<
    GroupModel,
> {
    compact_tool_groups::group_with_id(compact_tool_groups::groups_of(sources), id)
}

/// An owned screen as a mathematical value.
#[verifier::ext_equal]
pub struct ScreenModel {
    pub view: ViewportModel,
    pub sources: Seq<Arc<HistoryCell>>,
    pub compact: bool,
    pub expanded: Seq<CompactToolGroupId>,
    pub hover: u64,
    pub pending_click: Option<CompactToolGroupId>,
    pub pending_seals: Seq<CompactToolGroupId>,
    pub last_clicked: Option<CompactToolGroupId>,
    pub replaying: bool,
    pub pane_area: Rect,
    pub conversation_area: Rect,
    pub bottom_area: Rect,
    pub rendered_area: Rect,
    pub selection_area: Option<Rect>,
    pub hover_position: Option<Position>,
}

/// A change of the screen, whether it did what it was asked for, and what it counts.
#[verifier::ext_equal]
pub struct Step {
    pub screen: ScreenModel,
    pub done: bool,
    pub bumps: Seq<Tally>,
}

impl Step {
    /// The step with the classifications that came before it.
    pub open spec fn scanned(self, scans: Seq<Tally>) -> Step {
        Step { bumps: scans + self.bumps, ..self }
    }
}

/// What the search for a group by its identifier counts.
pub open spec fn id_scans(sources: Seq<Arc<HistoryCell>>, id: CompactToolGroupId) -> Seq<
    Tally,
> {
    compact_tool_groups::search_scans(sources, 0, GroupSearch::Id(id))
}

/// What a projection of other sources from the start counts.
pub open spec fn sources_bumps(
    sources: Seq<Arc<HistoryCell>>,
    compact: bool,
    reason: QuietMetric,
) -> Seq<Tally> {
    seq![Tally::Metric(QuietMetric::FullProjection), Tally::Metric(reason)]
        + compact_tool_groups::all_scans(sources) + compact_tool_groups::projection_scans(
        sources,
        compact,
    )
}

/// Where a group is to be shown: in place of a range of cells, later, or not at all.
pub enum GroupPlace {
    At { start: int, count: int },
    Waiting,
    Nowhere,
}

/// The facts of a frame that the screen is drawn in.
#[verifier::ext_equal]
pub struct FrameModel {
    pub area: Rect,
    pub popup_free: bool,
    pub bottom_height: u16,
    pub wrap_width: u16,
    pub mode: HistoryRenderMode,
    pub active: Option<ActiveCellRenderKey>,
    pub fresh: LiveModel,
    pub scrolls: bool,
    pub now: u64,
    pub step: Option<AutoscrollStep>,
    pub restored: Option<RestoredSelection>,
}

impl FrameModel {
    pub open spec fn bottom_rows(self) -> u16 {
        if self.bottom_height <= self.area.height {
            self.bottom_height
        } else {
            self.area.height
        }
    }

    pub open spec fn conversation_area(self) -> Rect {
        geometry::rect_at(
            self.area.x,
            self.area.y,
            self.wrap_width,
            (self.area.height - self.bottom_rows()) as u16,
        )
    }

    pub open spec fn bottom_area(self) -> Rect {
        geometry::rect_at(
            self.area.x,
            geometry::edge(self.area.y, (self.area.height - self.bottom_rows()) as u16),
            self.area.width,
            self.bottom_rows(),
        )
    }
}

impl ScreenModel {
    pub open spec fn wf(self) -> bool {
        &&& self.view.wf()
        &&& self.expanded.no_duplicates()
        &&& self.pending_seals.no_duplicates()
    }

    pub open spec fn viewing(self, view: ViewportModel) -> ScreenModel {
        ScreenModel { view, ..self }
    }

    pub open spec fn unhovered(self) -> ScreenModel {
        ScreenModel { hover: 0, hover_position: None, ..self }
    }

    pub open spec fn clicking(self, pending_click: Option<CompactToolGroupId>) -> ScreenModel {
        ScreenModel { pending_click, ..self }
    }

    /// The width that rows are measured at.
    pub open spec fn width(self) -> u16 {
        if self.conversation_area.width >= 1 {
            self.conversation_area.width
        } else {
            1
        }
    }

    pub open spec fn nothing_done(self) -> Step {
        Step { screen: self, done: false, bumps: Seq::empty() }
    }

    /// Other source cells, projected from the start.
    #[verifier::opaque]
    pub open spec fn with_sources(
        self,
        sources: Seq<Arc<HistoryCell>>,
        compact: bool,
    ) -> ScreenModel {
        let valid = valid_groups(sources);
        let expanded = only(self.expanded, valid);
        ScreenModel {
            view: self.view.with_cells(
                compact_tool_groups::projection(sources, compact, expanded),
            ),
            sources,
            compact,
            expanded,
            pending_click: if compact {
                self.pending_click
            } else {
                None
            },
            pending_seals: Seq::empty(),
            last_clicked: only_if(self.last_clicked, valid),
            ..self.unhovered()
        }
    }

    /// Whether the source cells are handles to the given records.
    pub open spec fn sources_match(self, cells: Seq<Arc<HistoryCell>>) -> bool {
        &&& self.sources.len() == cells.len()
        &&& forall|i: int| 0 <= i < cells.len() ==> (#[trigger] self.sources[i]).id == cells[i].id
    }

    /// The number of cells that a group's row and what is shown below it take.
    pub open spec fn group_extent(self, g: GroupModel, id: CompactToolGroupId) -> int {
        pager_layout::row_sum(
            1,
            if self.expanded.contains(id) {
                g.sources
            } else {
                0
            },
        )
    }

    /// The position of the first source of a group among the cells that are shown.
    pub open spec fn source_position(self, g: GroupModel) -> Option<int> {
        viewport_model::record_position(self.view.cells, self.sources[g.start].id)
    }

    /// Whether a group must not be folded now: its cells are being selected, or are on the
    /// screen of a view that was scrolled away from the end.
    pub open spec fn guarded(self, position: int, g: GroupModel) -> bool {
        self.view.selecting() || (!self.view.following && self.view.range_shows(
            self.width(),
            position,
            g.sources,
            self.conversation_area,
        ))
    }

    pub open spec fn awaiting(self, id: CompactToolGroupId) -> ScreenModel {
        ScreenModel { pending_seals: including(self.pending_seals, id), ..self }
    }

    pub open spec fn not_awaiting(self, id: CompactToolGroupId) -> ScreenModel {
        ScreenModel { pending_seals: without(self.pending_seals, id), ..self }
    }

    /// The cells of a group shown as a row, in place of the given range.
    pub open spec fn group_shown(
        self,
        g: GroupModel,
        id: CompactToolGroupId,
        start: int,
        count: int,
        expanded: bool,
        reason: RangeReplacementReason,
    ) -> Step {
        Step {
            screen: self.viewing(
                self.view.with_range(
                    self.width(),
                    start,
                    count,
                    compact_tool_groups::group_rows(self.sources, g, expanded),
                ),
            ).not_awaiting(id),
            done: true,
            bumps: seq![
                Tally::Metric(quiet_metrics::replacement_metric(reason)),
                Tally::Metric(QuietMetric::RangeReplacement),
            ],
        }
    }

    /// Where a group is to be shown.
    pub open spec fn group_place(
        self,
        g: GroupModel,
        id: CompactToolGroupId,
        respect_guard: bool,
    ) -> GroupPlace {
        match group_position(self.view.cells, id) {
            Some(row) => GroupPlace::At { start: row, count: self.group_extent(g, id) },
            None => match self.source_position(g) {
                Some(position) => if respect_guard && self.guarded(position, g) {
                    GroupPlace::Waiting
                } else {
                    GroupPlace::At { start: position, count: g.sources }
                },
                None => if respect_guard && self.view.selecting() {
                    GroupPlace::Waiting
                } else {
                    GroupPlace::Nowhere
                },
            },
        }
    }

    /// A group folded or expanded where it stands. A guarded group waits.
    #[verifier::opaque]
    pub open spec fn group_projected(
        self,
        id: CompactToolGroupId,
        expanded: bool,
        respect_guard: bool,
        reason: RangeReplacementReason,
    ) -> Step {
        let step = match found_group(self.sources, id) {
            None => self.not_awaiting(id).nothing_done(),
            Some(g) => match self.group_place(g, id, respect_guard) {
                GroupPlace::At { start, count } => self.group_shown(
                    g,
                    id,
                    start,
                    count,
                    expanded,
                    reason,
                ),
                GroupPlace::Waiting => self.awaiting(id).nothing_done(),
                GroupPlace::Nowhere => self.nothing_done(),
            },
        };
        step.scanned(id_scans(self.sources, id))
    }

    /// The groups that waited, folded in order where nothing guards them any more.
    pub open spec fn seals_resolved(self, pending: Seq<CompactToolGroupId>) -> Step
        decreases pending.len(),
    {
        if pending.len() == 0 {
            self.nothing_done()
        } else {
            let before = self.seals_resolved(pending.drop_last());
            let step = before.screen.group_projected(
                pending.last(),
                false,
                true,
                RangeReplacementReason::Seal,
            );
            Step { screen: step.screen, done: false, bumps: before.bumps + step.bumps }
        }
    }

    /// The given groups folded, except those that are expanded.
    pub open spec fn groups_folded(self, ids: Seq<CompactToolGroupId>) -> Step
        decreases ids.len(),
    {
        if ids.len() == 0 {
            self.nothing_done()
        } else {
            let before = self.groups_folded(ids.drop_last());
            let step = before.screen.group_projected(
                ids.last(),
                before.screen.expanded.contains(ids.last()),
                false,
                RangeReplacementReason::UserToggle,
            );
            Step { screen: step.screen, done: false, bumps: before.bumps + step.bumps }
        }
    }

    /// One group's row replaced by the cells that it stands for.
    #[verifier::opaque]
    pub open spec fn group_unfolded(self, id: CompactToolGroupId) -> Step {
        match (group_position(self.view.cells, id), found_group(self.sources, id)) {
            (Some(row), Some(g)) => Step {
                screen: self.viewing(
                    self.view.with_range(
                        self.width(),
                        row,
                        self.group_extent(g, id),
                        compact_tool_groups::as_sources(
                            compact_tool_groups::sources_of(self.sources, g),
                        ),
                    ),
                ),
                done: false,
                bumps: seq![
                    Tally::Metric(QuietMetric::RangeReplacementUserToggle),
                    Tally::Metric(QuietMetric::RangeReplacement),
                ],
            }.scanned(id_scans(self.sources, id)),
            (Some(_), None) => self.nothing_done().scanned(id_scans(self.sources, id)),
            (None, _) => self.nothing_done(),
        }
    }

    /// The given groups unfolded, the last one first.
    pub open spec fn groups_unfolded(self, ids: Seq<CompactToolGroupId>) -> Step
        decreases ids.len(),
    {
        if ids.len() == 0 {
            self.nothing_done()
        } else {
            let last = self.group_unfolded(ids.last());
            let rest = last.screen.groups_unfolded(ids.drop_last());
            Step { screen: rest.screen, done: false, bumps: last.bumps + rest.bumps }
        }
    }

    /// Folding switched on or off.
    #[verifier::opaque]
    pub open spec fn with_compact(self, compact: bool) -> Step {
        if self.compact == compact {
            self.nothing_done()
        } else if compact {
            ScreenModel { compact: true, ..self }.groups_folded(
                valid_groups(self.sources),
            ).scanned(compact_tool_groups::all_scans(self.sources))
        } else {
            let step = self.groups_unfolded(valid_groups(self.sources));
            Step {
                screen: ScreenModel {
                    compact: false,
                    pending_seals: Seq::empty(),
                    pending_click: None,
                    ..step.screen
                }.unhovered(),
                ..step
            }.scanned(compact_tool_groups::all_scans(self.sources))
        }
    }

    /// One more source cell. A seal folds the run before it.
    #[verifier::opaque]
    pub open spec fn source_pushed(self, cell: Arc<HistoryCell>, compact: bool) -> Step {
        let ready = self.unhovered().with_compact(compact);
        let m = ScreenModel { sources: ready.screen.sources.push(cell), ..ready.screen };
        if tool_run_projection::seal_of(*cell) is None {
            Step { screen: m.viewing(m.view.pushed(ShownCell::Source(cell))), ..ready }
        } else if !compact {
            Step { screen: m, ..ready }
        } else {
            let scans = compact_tool_groups::seal_scans(m.sources, m.sources.len() - 1);
            match compact_tool_groups::group_before_seal(m.sources, m.sources.len() - 1) {
                None => Step { screen: m, done: ready.done, bumps: ready.bumps + scans },
                Some(g) => {
                    let step = m.group_projected(g.id, false, true, RangeReplacementReason::Seal);
                    Step {
                        screen: ScreenModel {
                            expanded: without(step.screen.expanded, g.id),
                            ..step.screen
                        },
                        done: false,
                        bumps: ready.bumps + scans + step.bumps,
                    }
                },
            }
        }
    }

    /// The cells on the screen that show a source cell, or the group that it is in.
    pub open spec fn shown_range(self, index: int) -> Option<(int, int)> {
        match compact_tool_groups::group_of_source(
            compact_tool_groups::groups_of(self.sources),
            index,
        ) {
            Some(g) => match group_position(self.view.cells, g.id) {
                Some(row) => Some((row, self.group_extent(g, g.id))),
                None => match self.source_position(g) {
                    Some(position) => Some((position, g.sources)),
                    None => None,
                },
            },
            None => match viewport_model::record_position(
                self.view.cells,
                self.sources[index].id,
            ) {
                Some(position) => Some((position, 1)),
                None => None,
            },
        }
    }

    /// Nothing on the screen refers to a group any more.
    pub open spec fn group_forgotten(self, id: CompactToolGroupId) -> ScreenModel {
        let hovered = self.hover != 0 && self.hover == id.0;
        ScreenModel {
            expanded: without(self.expanded, id),
            pending_seals: without(self.pending_seals, id),
            pending_click: if self.pending_click == Some(id) {
                None
            } else {
                self.pending_click
            },
            last_clicked: if self.last_clicked == Some(id) {
                None
            } else {
                self.last_clicked
            },
            hover: if hovered {
                0
            } else {
                self.hover
            },
            hover_position: if hovered {
                None
            } else {
                self.hover_position
            },
            ..self
        }
    }

    /// The source cells of a group and its seal.
    pub open spec fn group_stretch(self, g: GroupModel) -> Seq<Arc<HistoryCell>> {
        self.sources.subrange(g.start, g.start + g.sources + 1)
    }

    /// Whether a group one of whose source cells was replaced is shown folded. One that waits
    /// to be folded goes on waiting.
    pub open spec fn folds_again(self, group: GroupModel) -> bool {
        self.compact && !(valid_groups(self.group_stretch(group)).contains(group.id)
            && self.pending_seals.contains(group.id) && group_position(
            self.view.cells,
            group.id,
        ) is None)
    }

    /// What the projection of a group one of whose source cells was replaced counts.
    pub open spec fn reprojection_scans(self, g: Option<GroupModel>) -> Seq<Tally> {
        match g {
            Some(group) => compact_tool_groups::all_scans(self.group_stretch(group))
                + compact_tool_groups::projection_scans(
                self.group_stretch(group),
                self.folds_again(group),
            ),
            None => Seq::empty(),
        }
    }

    /// What the screen shows for a source cell that took the place of another one.
    pub open spec fn reprojected(self, g: Option<GroupModel>, replacement: Arc<HistoryCell>) -> Seq<
        ShownCell,
    > {
        match g {
            Some(group) => compact_tool_groups::projection(
                self.group_stretch(group),
                self.folds_again(group),
                self.expanded,
            ),
            None => if tool_run_projection::seal_of(*replacement) is Some {
                Seq::empty()
            } else {
                seq![ShownCell::Source(replacement)]
            },
        }
    }

    /// The screen that knows of the replaced source, before it shows it.
    pub open spec fn source_updated(self, index: int, replacement: Arc<HistoryCell>) -> ScreenModel {
        let m = ScreenModel { sources: self.sources.update(index, replacement), ..self };
        match compact_tool_groups::group_of_source(
            compact_tool_groups::groups_of(self.sources),
            index,
        ) {
            Some(g) => if valid_groups(m.group_stretch(g)).contains(g.id) {
                m
            } else {
                m.group_forgotten(g.id)
            },
            None => m,
        }
    }

    /// A source cell in the place of another one.
    #[verifier::opaque]
    pub open spec fn source_replaced(
        self,
        index: int,
        replacement: Arc<HistoryCell>,
        compact: bool,
    ) -> Step {
        if self.compact != compact || index >= self.sources.len() {
            self.nothing_done()
        } else {
            let scans = compact_tool_groups::source_scans(self.sources, index as usize);
            match self.shown_range(index) {
                None => self.nothing_done().scanned(scans),
                Some((start, count)) => {
                    let m = self.source_updated(index, replacement);
                    let g = compact_tool_groups::group_of_source(
                        compact_tool_groups::groups_of(self.sources),
                        index,
                    );
                    Step {
                        screen: m.viewing(
                            m.view.with_range(
                                m.width(),
                                start,
                                count,
                                m.reprojected(g, replacement),
                            ),
                        ),
                        done: true,
                        bumps: scans + m.reprojection_scans(g) + seq![
                            Tally::Metric(QuietMetric::RangeReplacementLifecycle),
                            Tally::Metric(QuietMetric::RangeReplacement),
                        ],
                    }
                },
            }
        }
    }

    /// Where a boundary between source cells lies among the cells that are shown. A boundary
    /// inside a group, or before a seal, lies nowhere.
    pub open spec fn boundary(self, index: int) -> Option<int> {
        if index > self.sources.len() {
            None
        } else if index == self.sources.len() {
            Some(self.view.cells.len() as int)
        } else if tool_run_projection::seal_of(*self.sources[index]) is Some {
            None
        } else {
            match compact_tool_groups::group_of_source(
                compact_tool_groups::groups_of(self.sources),
                index,
            ) {
                Some(g) => if g.start != index {
                    None
                } else {
                    match group_position(self.view.cells, g.id) {
                        Some(row) => Some(row),
                        None => self.source_position(g),
                    }
                },
                None => viewport_model::record_position(
                    self.view.cells,
                    self.sources[index].id,
                ),
            }
        }
    }

    /// What the search for a boundary counts.
    pub open spec fn boundary_scans(self, index: int) -> Seq<Tally> {
        if index >= self.sources.len() || tool_run_projection::seal_of(
            *self.sources[index],
        ) is Some {
            Seq::empty()
        } else {
            compact_tool_groups::source_scans(self.sources, index as usize)
        }
    }

    /// Nothing on the screen refers to groups other than the given ones.
    pub open spec fn groups_kept(self, valid: Seq<CompactToolGroupId>) -> ScreenModel {
        let gone = self.hover != 0 && !valid.contains(CompactToolGroupId(self.hover));
        ScreenModel {
            expanded: only(self.expanded, valid),
            pending_seals: only(self.pending_seals, valid),
            pending_click: only_if(self.pending_click, valid),
            last_clicked: only_if(self.last_clicked, valid),
            hover: if gone {
                0
            } else {
                self.hover
            },
            hover_position: if gone {
                None
            } else {
                self.hover_position
            },
            ..self
        }
    }

    /// Some source cells in the place of others.
    #[verifier::opaque]
    pub open spec fn sources_spliced(
        self,
        index: int,
        count: int,
        replacements: Seq<Arc<HistoryCell>>,
        compact: bool,
    ) -> Step {
        if self.compact != compact || index + count > usize::MAX || index + count
            > self.sources.len() {
            self.nothing_done()
        } else {
            let first = self.boundary_scans(index);
            let both = first + self.boundary_scans(index + count);
            match (self.boundary(index), self.boundary(index + count)) {
                (Some(start), Some(end)) => if end < start {
                    self.nothing_done().scanned(both)
                } else {
                    let projected = compact_tool_groups::projection(
                        replacements,
                        compact,
                        self.expanded,
                    );
                    let sources = self.sources.take(index) + replacements + self.sources.skip(
                        index + count,
                    );
                    let m = ScreenModel { sources, ..self }.groups_kept(valid_groups(sources));
                    Step {
                        screen: m.viewing(
                            m.view.with_range(m.width(), start, end - start, projected),
                        ),
                        done: true,
                        bumps: both + compact_tool_groups::projection_scans(replacements, compact)
                            + compact_tool_groups::all_scans(sources) + seq![
                            Tally::Metric(QuietMetric::RangeReplacementStructural),
                            Tally::Metric(QuietMetric::RangeReplacement),
                        ],
                    }
                },
                (Some(_), None) => self.nothing_done().scanned(both),
                (None, _) => self.nothing_done().scanned(first),
            }
        }
    }

    /// The group whose row is at a position on the screen.
    pub open spec fn header_at(self, position: Position) -> Option<CompactToolGroupId> {
        if !self.compact {
            None
        } else {
            match self.view.hit(self.conversation_area, position) {
                Some(hit) => compact_tool_groups::header_hit(
                    self.view.cells[hit.index as int],
                    hit.row_within_cell as int,
                ),
                None => None,
            }
        }
    }

    /// Whether the pointer stayed on the row that it was last seen on.
    pub open spec fn same_region(self, position: Position) -> bool {
        self.hover_position matches Some(previous) && previous.y == position.y
            && self.conversation_area.holds(previous) == self.conversation_area.holds(position)
    }

    pub open spec fn hovered_at(self, position: Position) -> ScreenModel {
        if self.same_region(position) {
            self
        } else {
            ScreenModel {
                hover: hover_number(self.header_at(position)),
                hover_position: Some(position),
                ..self
            }
        }
    }

    /// A press beside the wrapped text, in the same rows, counts as one at its end.
    pub open spec fn press_position(self, position: Position) -> Position {
        let area = self.conversation_area;
        if !area.empty_area() && self.pane_area.holds(position) && area.y <= position.y
            < area.bottom_edge() && position.x >= area.right_edge() {
            Position { x: viewport_model::below(area.right_edge(), 1), y: position.y }
        } else {
            position
        }
    }

    pub open spec fn selection_begun(
        self,
        position: Position,
        restored: Option<RestoredSelection>,
    ) -> ScreenModel {
        let place = self.press_position(position);
        let pressed = self.header_at(place);
        let started = !self.conversation_area.empty_area() && self.conversation_area.holds(place);
        ScreenModel {
            hover: hover_number(pressed),
            pending_click: if started {
                pressed
            } else {
                None
            },
            view: self.view.begun(self.conversation_area, place, restored),
            ..self
        }
    }

    pub open spec fn selection_dragged(
        self,
        position: Position,
        restored: Option<RestoredSelection>,
        scrolls: bool,
        now: u64,
    ) -> ScreenModel {
        self.clicking(None).unhovered().viewing(
            self.view.dragged(self.conversation_area, position, restored, scrolls, now),
        )
    }

    /// A group folded or expanded by a click, with the view held where it is.
    #[verifier::opaque]
    pub open spec fn group_toggled(self, id: CompactToolGroupId, scroll: usize) -> Step {
        let expanding = !self.expanded.contains(id);
        let step = self.group_projected(
            id,
            expanding,
            false,
            RangeReplacementReason::UserToggle,
        );
        if !self.compact {
            self.nothing_done()
        } else if !step.done {
            step
        } else {
            Step {
                screen: ScreenModel {
                    expanded: if expanding {
                        including(step.screen.expanded, id)
                    } else {
                        without(step.screen.expanded, id)
                    },
                    last_clicked: Some(id),
                    view: ViewportModel { frozen: true, ..step.screen.view.at_offset(scroll) },
                    ..step.screen
                },
                ..step
            }
        }
    }

    /// The group that a press and a release on its row toggle.
    pub open spec fn clicked_group(self, position: Position, selected: bool) -> Option<
        CompactToolGroupId,
    > {
        if !selected && self.pending_click is Some && self.pending_click == self.header_at(
            position,
        ) {
            self.pending_click
        } else {
            None
        }
    }

    #[verifier::opaque]
    pub open spec fn selection_finished(
        self,
        position: Position,
        restored: Option<RestoredSelection>,
        selected: bool,
    ) -> Step {
        let m = self.clicking(None).viewing(
            self.view.finished(self.conversation_area, position, restored),
        );
        match self.clicked_group(position, selected) {
            Some(group) => m.group_toggled(group, self.view.scroll),
            None => m.nothing_done(),
        }
    }

    pub open spec fn selection_cancelled(self) -> ScreenModel {
        self.clicking(None).viewing(self.view.cancelled())
    }

    /// Whether a turn of the wheel at a position is for this screen.
    pub open spec fn takes_scroll(self, position: Position) -> bool {
        self.view.selecting() || self.conversation_area.holds(position)
    }

    pub open spec fn wheeled(
        self,
        direction: MouseScrollDirection,
        rows: usize,
        position: Position,
        restored: Option<RestoredSelection>,
        scrolls: bool,
        now: u64,
    ) -> ScreenModel {
        if self.view.selecting() {
            self.clicking(None).unhovered().viewing(
                self.view.scrolled(direction, rows).dragged(
                    self.conversation_area,
                    position,
                    restored,
                    scrolls,
                    now,
                ),
            )
        } else if !self.conversation_area.holds(position) {
            self
        } else {
            ScreenModel {
                hover_position: None,
                view: self.view.scrolled(direction, rows),
                ..self
            }.hovered_at(position)
        }
    }

    pub open spec fn areas_cleared(self) -> ScreenModel {
        ScreenModel {
            pane_area: Rect::nothing(),
            conversation_area: Rect::nothing(),
            bottom_area: Rect::nothing(),
            ..self
        }
    }

    /// The group that a visible cell belongs to, searched from the bottom up.
    pub open spec fn visible_group(self, first: int, last: int) -> Option<CompactToolGroupId>
        decreases last - first + 1,
    {
        if last < first {
            None
        } else {
            match self.group_of_shown(last) {
                Some(group) => Some(group),
                None => self.visible_group(first, last - 1),
            }
        }
    }

    pub open spec fn group_of_shown(self, index: int) -> Option<CompactToolGroupId> {
        match self.view.cells[index] {
            ShownCell::Source(cell) => match compact_tool_groups::group_of_record(
                self.sources,
                compact_tool_groups::groups_of(self.sources),
                cell.id,
            ) {
                Some(g) => Some(g.id),
                None => None,
            },
            _ => compact_tool_groups::header_hit(self.view.cells[index], 0),
        }
    }

    pub open spec fn present(self, id: Option<CompactToolGroupId>) -> Option<CompactToolGroupId> {
        match id {
            Some(group) if found_group(self.sources, group) is Some => Some(group),
            _ => None,
        }
    }

    /// The group to look into: the one that was clicked, else the one under the pointer, else
    /// the lowest on the screen, else the last one.
    pub open spec fn inspected_group(self) -> Option<CompactToolGroupId> {
        let hovered = if self.hover == 0 {
            None
        } else {
            Some(CompactToolGroupId(self.hover))
        };
        let visible = match self.view.visible_range(self.conversation_area) {
            Some((first, last)) => self.visible_group(first as int, last as int),
            None => None,
        };
        let groups = compact_tool_groups::groups_of(self.sources);
        if self.present(self.last_clicked) is Some {
            self.last_clicked
        } else if self.present(hovered) is Some {
            hovered
        } else if visible is Some {
            visible
        } else if groups.len() > 0 {
            Some(groups.last().id)
        } else {
            None
        }
    }

    /// What it counts to find out whether there is a group with an identifier.
    pub open spec fn present_scans(self, id: Option<CompactToolGroupId>) -> Seq<Tally> {
        match id {
            Some(group) => id_scans(self.sources, group),
            None => Seq::empty(),
        }
    }

    pub open spec fn shown_scans(self, index: int) -> Seq<Tally> {
        match self.view.cells[index] {
            ShownCell::Source(cell) => compact_tool_groups::search_scans(
                self.sources,
                0,
                GroupSearch::Record(cell.id),
            ),
            _ => Seq::empty(),
        }
    }

    /// What the search for the group of a visible cell counts.
    pub open spec fn visible_scans(self, first: int, last: int) -> Seq<Tally>
        decreases last - first + 1,
    {
        if last < first {
            Seq::empty()
        } else if self.group_of_shown(last) is Some {
            self.shown_scans(last)
        } else {
            self.shown_scans(last) + self.visible_scans(first, last - 1)
        }
    }

    /// What the choice of the group to look into counts.
    pub open spec fn choice_scans(self) -> Seq<Tally> {
        let hovered = if self.hover == 0 {
            None
        } else {
            Some(CompactToolGroupId(self.hover))
        };
        let seen = match self.view.visible_range(self.conversation_area) {
            Some((first, last)) => self.visible_scans(first as int, last as int),
            None => Seq::empty(),
        };
        self.present_scans(self.last_clicked) + self.present_scans(hovered) + seen
            + compact_tool_groups::all_scans(self.sources)
    }

    /// What a look into a group counts.
    pub open spec fn inspection_scans(self) -> Seq<Tally> {
        self.choice_scans() + self.present_scans(self.inspected_group())
    }

    /// The screen as it is laid out for a frame, before anything is shown.
    pub open spec fn laid_out(self, frame: FrameModel) -> ScreenModel {
        let calm = if !frame.popup_free || self.rendered_area != frame.conversation_area() {
            self.unhovered()
        } else {
            self
        };
        ScreenModel {
            bottom_area: frame.bottom_area(),
            rendered_area: frame.conversation_area(),
            conversation_area: frame.conversation_area(),
            ..calm
        }
    }

    /// The screen with the live tail of a frame.
    #[verifier::opaque]
    pub open spec fn live_shown(self, frame: FrameModel) -> ScreenModel {
        let view = self.view.with_mode(frame.mode);
        let live = view.with_live(frame.conversation_area().width, frame.active, frame.fresh);
        let calm = if live.scroll != view.scroll {
            self.unhovered()
        } else {
            self
        };
        calm.viewing(live)
    }

    /// The view that a frame draws, moved where a selection is dragged past its edge.
    pub open spec fn view_to_draw(self, frame: FrameModel) -> ViewportModel {
        let area = frame.conversation_area();
        if self.selection_area == Some(area) {
            self.view.autoscrolled(area, frame.scrolls, frame.now, frame.step, frame.restored)
        } else {
            self.view.autoscroll_prepared(frame.scrolls, frame.now)
        }
    }

    /// The screen with the view of a frame settled.
    #[verifier::opaque]
    pub open spec fn settled(self, frame: FrameModel) -> ScreenModel {
        let area = frame.conversation_area();
        ScreenModel {
            selection_area: Some(area),
            view: self.view_to_draw(frame).rendered(area, frame.restored),
            ..self
        }
    }

    /// What the layouts and the draws of a frame count.
    #[verifier::opaque]
    pub open spec fn settle_tallies(self, frame: FrameModel) -> Seq<Tally> {
        self.view_to_draw(frame).frame_tallies(frame.conversation_area(), frame.restored)
    }

    #[verifier::opaque]
    pub open spec fn autoscrolls(self, frame: FrameModel) -> bool {
        self.view.select.autoscroll.pointer is Some && frame.scrolls && (self.selection_area
            == Some(frame.conversation_area()) ==> self.view.with_autoscroll(
            true,
            Some(frame.now),
        ).autoscroll_goes_on(frame.step))
    }

    /// A frame of the screen: it is laid out, the groups that waited are folded, the live tail is
    /// shown, and the view settles. The step is done where autoscrolling goes on.
    #[verifier::opaque]
    pub open spec fn framed(self, frame: FrameModel) -> Step {
        let folded = self.laid_out(frame).seals_resolved(self.pending_seals);
        let live = folded.screen.live_shown(frame);
        Step {
            screen: live.settled(frame),
            done: live.autoscrolls(frame),
            bumps: folded.bumps + folded.screen.view.with_mode(frame.mode).live_bumps(
                frame.conversation_area().width,
                frame.active,
            ) + live.settle_tallies(frame),
        }
    }
}

impl ScreenModel {
    /// The rows that the live tail of a frame records.
    #[verifier::opaque]
    pub open spec fn frame_rows(self, frame: FrameModel) -> Option<u64> {
        let folded = self.laid_out(frame).seals_resolved(self.pending_seals);
        conversation_viewport::live_peak(
            folded.screen.view.with_mode(frame.mode),
            frame.conversation_area().width,
            frame.active,
            frame.fresh,
        )
    }
}

/// No frame counts live rows among its layouts and draws.
pub proof fn lemma_settle_tallies(m: ScreenModel, frame: FrameModel)
    ensures
        ledger::occurrences(m.settle_tallies(frame), QuietMetric::LiveTailMaxRows) == 0,
{
    reveal(ScreenModel::settle_tallies);
    viewport_model::lemma_frame_tallies(
        m.view_to_draw(frame),
        frame.conversation_area(),
        frame.restored,
    );
}

/// Folding groups does not move the areas of a frame.
pub proof fn lemma_resolved_keeps_areas(m: ScreenModel, pending: Seq<CompactToolGroupId>)
    ensures
        m.seals_resolved(pending).screen.conversation_area == m.conversation_area,
        m.seals_resolved(pending).screen.bottom_area == m.bottom_area,
        m.seals_resolved(pending).screen.pane_area == m.pane_area,
    decreases pending.len(),
{
    reveal(ScreenModel::group_projected);
    if pending.len() > 0 {
        lemma_resolved_keeps_areas(m, pending.drop_last());
    }
}

proof fn lemma_no_duplicates_push(ids: Seq<CompactToolGroupId>, id: CompactToolGroupId)
    requires
        ids.no_duplicates(),
        !ids.contains(id),
    ensures
        ids.push(id).no_duplicates(),
{
}

pub proof fn lemma_without(ids: Seq<CompactToolGroupId>, id: CompactToolGroupId)
    ensures
        forall|x: CompactToolGroupId|
            without(ids, id).contains(x) <==> ids.contains(x) && x != id,
        ids.no_duplicates() ==> without(ids, id).no_duplicates(),
    decreases ids.len(),
{
    if ids.len() > 0 {
        let front = ids.drop_last();
        lemma_without(front, id);
        let kept = without(front, id);
        assert forall|x: CompactToolGroupId| #[trigger] without(ids, id).contains(x) <==> (
        ids.contains(x) && x != id) by {
            if ids.contains(x) {
                let k = choose|k: int| 0 <= k < ids.len() && ids[k] == x;
                if k < ids.len() - 1 {
                    assert(front[k] == x);
                    assert(front.contains(x));
                }
            }
            if front.contains(x) {
                let k = choose|k: int| 0 <= k < front.len() && front[k] == x;
                assert(ids[k] == x);
            }
            if ids.last() != id {
                let out = kept.push(ids.last());
                if x == ids.last() {
                    assert(out[kept.len() as int] == x);
                }
                if kept.contains(x) {
                    let k = choose|k: int| 0 <= k < kept.len() && kept[k] == x;
                    assert(out[k] == x);
                }
                if out.contains(x) && x != ids.last() {
                    let k = choose|k: int| 0 <= k < out.len() && out[k] == x;
                    assert(kept[k] == x);
                }
            }
        }
        if ids.no_duplicates() && ids.last() != id {
            assert(!front.contains(ids.last()));
            lemma_no_duplicates_push(kept, ids.last());
        }
    }
}

pub proof fn lemma_only(ids: Seq<CompactToolGroupId>, valid: Seq<CompactToolGroupId>)
    ensures
        forall|x: CompactToolGroupId|
            only(ids, valid).contains(x) <==> ids.contains(x) && valid.contains(x),
        ids.no_duplicates() ==> only(ids, valid).no_duplicates(),
    decreases ids.len(),
{
    if ids.len() > 0 {
        let front = ids.drop_last();
        lemma_only(front, valid);
        let kept = only(front, valid);
        assert forall|x: CompactToolGroupId| #[trigger] only(ids, valid).contains(x) <==> (
        ids.contains(x) && valid.contains(x)) by {
            if ids.contains(x) {
                let k = choose|k: int| 0 <= k < ids.len() && ids[k] == x;
                if k < ids.len() - 1 {
                    assert(front[k] == x);
                    assert(front.contains(x));
                }
            }
            if front.contains(x) {
                let k = choose|k: int| 0 <= k < front.len() && front[k] == x;
                assert(ids[k] == x);
            }
            if valid.contains(ids.last()) {
                let out = kept.push(ids.last());
                if x == ids.last() {
                    assert(out[kept.len() as int] == x);
                }
                if kept.contains(x) {
                    let k = choose|k: int| 0 <= k < kept.len() && kept[k] == x;
                    assert(out[k] == x);
                }
                if out.contains(x) && x != ids.last() {
                    let k = choose|k: int| 0 <= k < out.len() && out[k] == x;
                    assert(kept[k] == x);
                }
            }
        }
        if ids.no_duplicates() && valid.contains(ids.last()) {
            assert(!front.contains(ids.last()));
            lemma_no_duplicates_push(kept, ids.last());
        }
    }
}

/// A group that is found lies within the source cells.
pub proof fn lemma_found_group(sources: Seq<Arc<HistoryCell>>, id: CompactToolGroupId)
    ensures
        match found_group(sources, id) {
            Some(g) => {
                &&& g.id == id
                &&& 0 <= g.start
                &&& 1 <= g.sources
                &&& g.start + g.sources < sources.len()
            },
            None => true,
        },
{
    compact_tool_groups::lemma_groups_in_bounds(sources, 0);
    lemma_group_with_id(compact_tool_groups::groups_of(sources), id);
}

proof fn lemma_group_with_id(groups: Seq<GroupModel>, id: CompactToolGroupId)
    ensures
        match compact_tool_groups::group_with_id(groups, id) {
            Some(g) => g.id == id && groups.contains(g),
            None => true,
        },
    decreases groups.len(),
{
    if groups.len() > 0 && groups[0].id != id {
        let rest = groups.skip(1);
        lemma_group_with_id(rest, id);
        if let Some(g) = compact_tool_groups::group_with_id(rest, id) {
            let k = choose|k: int| 0 <= k < rest.len() && rest[k] == g;
            assert(groups[k + 1] == g);
        }
    } else if groups.len() > 0 {
        assert(groups[0].id == id);
    }
}

/// A group that holds a source cell lies within the source cells.
pub proof fn lemma_group_of_source(sources: Seq<Arc<HistoryCell>>, index: int)
    ensures
        match compact_tool_groups::group_of_source(
            compact_tool_groups::groups_of(sources),
            index,
        ) {
            Some(g) => {
                &&& 0 <= g.start <= index < g.start + g.sources
                &&& g.start + g.sources < sources.len()
            },
            None => true,
        },
{
    compact_tool_groups::lemma_groups_in_bounds(sources, 0);
    lemma_group_at_source(compact_tool_groups::groups_of(sources), index);
}

pub proof fn lemma_group_at_source(groups: Seq<GroupModel>, index: int)
    ensures
        match compact_tool_groups::group_of_source(groups, index) {
            Some(g) => g.start <= index < g.start + g.sources && groups.contains(g),
            None => true,
        },
    decreases groups.len(),
{
    if groups.len() > 0 && !(groups[0].start <= index < groups[0].start + groups[0].sources) {
        let rest = groups.skip(1);
        lemma_group_at_source(rest, index);
        if let Some(g) = compact_tool_groups::group_of_source(rest, index) {
            let k = choose|k: int| 0 <= k < rest.len() && rest[k] == g;
            assert(groups[k + 1] == g);
        }
    } else if groups.len() > 0 {
        assert(groups[0].start <= index);
    }
}

} // verus!
