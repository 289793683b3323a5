//! One conversation pane: its transcript, its tool runs, and its screen where it owns one.

use std::sync::Arc;

use vstd::prelude::*;

use crate::app;
use crate::app_model;
use crate::compact_tool_groups;
use crate::geometry::Position;
use crate::geometry::Rect;
use crate::history_cell;
use crate::history_cell::CellKind;
use crate::history_cell::HistoryCell;
use crate::history_cell::HistoryRenderMode;
use crate::ledger;
use crate::ledger::QuietLedger;
use crate::ledger::Tally;
use crate::owned_screen::NavigationKey;
use crate::owned_screen::OwnedScreen;
use crate::pager_content::MouseScrollDirection;
use crate::quiet_metrics::QuietMetric;
use crate::screen_model;
use crate::screen_model::ScreenModel;
use crate::text;
use crate::tool_classification;
use crate::tool_run_projection;
use crate::tool_run_projection::ToolRunLifecycle;
use crate::tool_run_projection::ToolRunSealCell;
use crate::viewport_model::RestoredSelection;

verus! {

/// What the pane's chat reports of itself.
#[derive(Clone, Copy, Debug, PartialEq, Eq, Structural)]
pub struct PaneFacts {
    pub render_mode: HistoryRenderMode,
    /// Whether all tool groups are shown in full.
    pub compact_tool_groups_expanded: bool,
    pub composer_is_empty: bool,
    pub no_modal_or_popup_active: bool,
    pub activity_animation_active: bool,
    pub usage_history_insertion_blocked: bool,
    /// The width that history is wrapped at on the terminal.
    pub history_wrap_width: u16,
    /// Whether the first replay of history is still being buffered.
    pub initial_history_replay_buffer: bool,
}

pub struct Pane {
    pub owned_screen: Option<OwnedScreen>,
    pub transcript_cells: Vec<Arc<HistoryCell>>,
    pub tool_run_lifecycle: ToolRunLifecycle,
    pub facts: PaneFacts,
    /// When a transcript reflow that waits is due.
    pub reflow_pending_until: Option<u64>,
    pub completed_token_activity: Option<Arc<HistoryCell>>,
    pub rate_limit_reset_hint: Option<Arc<HistoryCell>>,
}

/// What only the host knows of a drag: where a selection on other rows is found again, whether
/// the pointer asks for scrolling, and the time.
#[derive(Clone, Copy, Debug, PartialEq, Eq, Structural)]
pub struct DragFacts {
    pub restored: Option<RestoredSelection>,
    pub scrolls: bool,
    pub now: u64,
}

/// A pane as a mathematical value.
pub struct PaneModel {
    pub screen: Option<ScreenModel>,
    pub cells: Seq<Arc<HistoryCell>>,
    pub runs: ToolRunLifecycle,
    pub facts: PaneFacts,
    pub reflow: Option<u64>,
    pub token_activity: Option<Arc<HistoryCell>>,
    pub rate_limit_hint: Option<Arc<HistoryCell>>,
}

#[verifier::opaque]
pub open spec fn screen_option(screen: Option<OwnedScreen>) -> Option<ScreenModel> {
    match screen {
        Some(s) => Some(s@),
        None => None,
    }
}

impl View for Pane {
    type V = PaneModel;

    open spec fn view(&self) -> PaneModel {
        PaneModel {
            screen: screen_option(self.owned_screen),
            cells: self.transcript_cells@,
            runs: self.tool_run_lifecycle,
            facts: self.facts,
            reflow: self.reflow_pending_until,
            token_activity: self.completed_token_activity,
            rate_limit_hint: self.rate_limit_reset_hint,
        }
    }
}

/// A change of a pane, and what it counts.
pub struct PaneStep {
    pub pane: PaneModel,
    pub bumps: Seq<Tally>,
}

impl PaneModel {
    pub open spec fn showing(self, screen: ScreenModel) -> PaneModel {
        PaneModel { screen: Some(screen), ..self }
    }

    /// Whether tool groups are folded.
    pub open spec fn compact(self) -> bool {
        self.facts.render_mode == HistoryRenderMode::Rich
            && !self.facts.compact_tool_groups_expanded
    }

    pub open spec fn replaying(self) -> bool {
        self.screen matches Some(screen) && screen.replaying
    }

    pub open spec fn selecting(self) -> bool {
        self.screen matches Some(screen) && screen.view.selecting()
    }

    /// Whether a position is on the pane.
    pub open spec fn covers(self, position: Position) -> bool {
        self.screen matches Some(screen) && screen.pane_area.holds(position)
    }

    /// The screen with one more source cell.
    #[verifier::opaque]
    pub open spec fn screen_pushed(self, cell: Arc<HistoryCell>) -> PaneStep {
        match self.screen {
            Some(screen) => {
                let step = screen.source_pushed(cell, self.compact());
                PaneStep { pane: self.showing(step.screen), bumps: step.bumps }
            },
            None => PaneStep { pane: self, bumps: Seq::empty() },
        }
    }

    /// The screen brought in line with the transcript.
    #[verifier::opaque]
    pub open spec fn screen_synced(self, reason: QuietMetric) -> PaneStep {
        match self.screen {
            Some(screen) => if screen.sources_match(self.cells) {
                let step = screen.with_compact(self.compact());
                PaneStep { pane: self.showing(step.screen), bumps: step.bumps }
            } else {
                PaneStep {
                    pane: self.showing(screen.with_sources(self.cells, self.compact())),
                    bumps: screen_model::sources_bumps(self.cells, self.compact(), reason),
                }
            },
            None => PaneStep { pane: self, bumps: Seq::empty() },
        }
    }

    /// The screen with another cell in the place of a source.
    #[verifier::opaque]
    pub open spec fn source_replaced(self, index: int, replacement: Arc<HistoryCell>) -> PaneStep {
        match self.screen {
            Some(screen) => {
                let step = screen.source_replaced(index, replacement, self.compact());
                PaneStep { pane: self.showing(step.screen), bumps: step.bumps }
            },
            None => PaneStep { pane: self, bumps: Seq::empty() },
        }
    }

    #[verifier::opaque]
    pub open spec fn replaces_source(self, index: int, replacement: Arc<HistoryCell>) -> bool {
        self.screen matches Some(screen) && screen.source_replaced(
            index,
            replacement,
            self.compact(),
        ).done
    }

    /// The screen with other cells in the place of some sources.
    #[verifier::opaque]
    pub open spec fn sources_spliced(
        self,
        index: int,
        count: int,
        replacements: Seq<Arc<HistoryCell>>,
    ) -> PaneStep {
        match self.screen {
            Some(screen) => {
                let step = screen.sources_spliced(index, count, replacements, self.compact());
                PaneStep { pane: self.showing(step.screen), bumps: step.bumps }
            },
            None => PaneStep { pane: self, bumps: Seq::empty() },
        }
    }

    #[verifier::opaque]
    pub open spec fn splices_sources(
        self,
        index: int,
        count: int,
        replacements: Seq<Arc<HistoryCell>>,
    ) -> bool {
        self.screen matches Some(screen) && screen.sources_spliced(
            index,
            count,
            replacements,
            self.compact(),
        ).done
    }

    /// The cells of the group to look into.
    #[verifier::opaque]
    pub open spec fn inspected_cells(self) -> Option<Seq<Arc<HistoryCell>>> {
        match self.screen {
            Some(screen) => match screen.inspected_group() {
                Some(group) => match screen_model::found_group(screen.sources, group) {
                    Some(g) => Some(compact_tool_groups::sources_of(screen.sources, g)),
                    None => None,
                },
                None => None,
            },
            None => None,
        }
    }

    /// What a look into a group counts.
    #[verifier::opaque]
    pub open spec fn inspection_scans(self) -> Seq<Tally> {
        match self.screen {
            Some(screen) => screen.inspection_scans(),
            None => Seq::empty(),
        }
    }

    /// Whether a turn of the wheel at a position is for the screen of the pane.
    pub open spec fn takes_scroll(self, position: Position) -> bool {
        self.screen matches Some(screen) && screen.takes_scroll(position)
    }

    #[verifier::opaque]
    pub open spec fn wheeled(
        self,
        direction: MouseScrollDirection,
        rows: usize,
        position: Position,
        drag: DragFacts,
    ) -> PaneModel {
        match self.screen {
            Some(screen) => self.showing(
                screen.wheeled(
                    direction,
                    rows,
                    position,
                    drag.restored,
                    drag.scrolls,
                    drag.now,
                ),
            ),
            None => self,
        }
    }

    pub open spec fn hovered_at(self, position: Position) -> PaneModel {
        match self.screen {
            Some(screen) => self.showing(screen.hovered_at(position)),
            None => self,
        }
    }

    /// Whether another group is hovered once the pointer is at a position.
    pub open spec fn hover_changes_at(self, position: Position) -> bool {
        self.screen matches Some(screen) && screen.hovered_at(position).hover != screen.hover
    }

    #[verifier::opaque]
    pub open spec fn selection_begun(
        self,
        position: Position,
        restored: Option<RestoredSelection>,
    ) -> PaneModel {
        match self.screen {
            Some(screen) => self.showing(screen.selection_begun(position, restored)),
            None => self,
        }
    }

    /// Whether a press at a position begins a selection.
    #[verifier::opaque]
    pub open spec fn selection_begins(self, position: Position) -> bool {
        self.screen matches Some(screen) && !screen.conversation_area.empty_area()
            && screen.conversation_area.holds(screen.press_position(position))
    }

    #[verifier::opaque]
    pub open spec fn selection_dragged(self, position: Position, drag: DragFacts) -> PaneModel {
        match self.screen {
            Some(screen) => self.showing(
                screen.selection_dragged(position, drag.restored, drag.scrolls, drag.now),
            ),
            None => self,
        }
    }

    /// Whether a drag moves a selection.
    #[verifier::opaque]
    pub open spec fn selection_drags(self, restored: Option<RestoredSelection>) -> bool {
        self.screen matches Some(screen) && screen.view.drags(screen.conversation_area, restored)
    }

    #[verifier::opaque]
    pub open spec fn selection_finished(
        self,
        position: Position,
        restored: Option<RestoredSelection>,
        selected: bool,
    ) -> PaneStep {
        match self.screen {
            Some(screen) => {
                let step = screen.selection_finished(position, restored, selected);
                PaneStep { pane: self.showing(step.screen), bumps: step.bumps }
            },
            None => PaneStep { pane: self, bumps: Seq::empty() },
        }
    }

    /// The pane with an empty conversation.
    #[verifier::opaque]
    pub open spec fn reset(self) -> PaneStep {
        let emptied = PaneModel {
            cells: Seq::empty(),
            runs: ToolRunLifecycle { open: None, current_turn_id: None, ..self.runs },
            ..self
        };
        let synced = emptied.screen_synced(QuietMetric::FullProjectionReset);
        let replayed = synced.pane.with_replaying(false);
        PaneStep {
            pane: PaneModel {
                reflow: None,
                token_activity: None,
                rate_limit_hint: None,
                facts: PaneFacts { initial_history_replay_buffer: false, ..replayed.facts },
                ..replayed
            },
            bumps: synced.bumps,
        }
    }

    /// Whether a key moves the view. Keys go to the composer where it holds text or is covered.
    #[verifier::opaque]
    pub open spec fn navigates(self, key: NavigationKey, target: Option<usize>) -> bool {
        self.facts.composer_is_empty && self.facts.no_modal_or_popup_active && self.screen is Some
            && key.may_navigate() && target is Some
    }

    #[verifier::opaque]
    pub open spec fn navigated(self, offset: usize) -> PaneModel {
        match self.screen {
            Some(screen) => self.showing(
                screen.unhovered().viewing(screen.view.at_offset(offset)),
            ),
            None => self,
        }
    }

    #[verifier::opaque]
    pub open spec fn with_replaying(self, replaying: bool) -> PaneModel {
        match self.screen {
            Some(screen) => self.showing(ScreenModel { replaying, ..screen }),
            None => self,
        }
    }

    pub open spec fn selection_cancelled(self) -> PaneModel {
        match self.screen {
            Some(screen) => if screen.view.selecting() {
                self.showing(screen.selection_cancelled())
            } else {
                self
            },
            None => self,
        }
    }

    pub open spec fn hovers(self) -> bool {
        self.screen matches Some(screen) && screen.hover != 0
    }

    pub open spec fn unhovered(self) -> PaneModel {
        match self.screen {
            Some(screen) => self.showing(screen.unhovered()),
            None => self,
        }
    }

    pub open spec fn with_render_mode(self) -> PaneModel {
        match self.screen {
            Some(screen) => self.showing(
                screen.viewing(screen.view.with_mode(self.facts.render_mode)),
            ),
            None => self,
        }
    }

    pub open spec fn areas_cleared(self) -> PaneModel {
        match self.screen {
            Some(screen) => self.showing(screen.areas_cleared()),
            None => self,
        }
    }

    /// The rows that the composer was last drawn in.
    pub open spec fn bottom_area(self) -> Rect {
        match self.screen {
            Some(screen) => screen.bottom_area,
            None => Rect::nothing(),
        }
    }

    /// Whether something moves in the rows of the composer.
    pub open spec fn animates(self) -> bool {
        !self.bottom_area().empty_area() && self.facts.activity_animation_active
    }

    pub open spec fn with_reflow(self, reflow: Option<u64>) -> PaneModel {
        PaneModel { reflow, ..self }
    }
}

impl Pane {
    #[verifier::opaque]
    pub open spec fn wf(&self) -> bool {
        &&& self.tool_run_lifecycle.wf()
        &&& self.owned_screen matches Some(screen) ==> screen.wf()
    }

    pub fn new(facts: PaneFacts) -> (r: Self)
        ensures
            r.wf(),
            r@.screen is None,
            r@.cells == Seq::<Arc<HistoryCell>>::empty(),
            r@.facts == facts,
            r@.runs.open is None && r@.runs.current_turn_id is None,
            r@.reflow is None && r@.token_activity is None && r@.rate_limit_hint is None,
    {
        proof {
            reveal(Pane::wf);
            reveal(screen_option);
        }
        Pane {
            owned_screen: None,
            transcript_cells: Vec::new(),
            tool_run_lifecycle: ToolRunLifecycle::default(),
            facts,
            reflow_pending_until: None,
            completed_token_activity: None,
            rate_limit_reset_hint: None,
        }
    }

    pub fn has_owned_screen(&self) -> (r: bool)
        ensures
            r == (self@.screen is Some),
    {
        proof {
            reveal(screen_option);
        }
        self.owned_screen.is_some()
    }

    pub fn replay_in_progress(&self) -> (r: bool)
        ensures
            r == self@.replaying(),
    {
        proof {
            reveal(screen_option);
        }
        match &self.owned_screen {
            Some(screen) => screen.replay_in_progress,
            None => false,
        }
    }

    pub fn compact_tool_groups_enabled(&self) -> (r: bool)
        ensures
            r == self@.compact(),
    {
        self.facts.render_mode == HistoryRenderMode::Rich
            && !self.facts.compact_tool_groups_expanded
    }

    pub fn owned_screen_push_cell(&mut self, metrics: &mut QuietLedger, cell: Arc<HistoryCell>)
        requires
            old(self).wf(),
        ensures
            final(self).wf(),
            final(self)@ == old(self)@.screen_pushed(cell).pane,
            ledger::counted(
                *old(metrics),
                *final(metrics),
                old(self)@.screen_pushed(cell).bumps,
            ),
    {
        proof {
            reveal(Pane::wf);
            reveal(screen_option);
            reveal(PaneModel::screen_pushed);
        }
        proof {
            ledger::lemma_counted_nothing(*metrics);
        }
        let compact = self.compact_tool_groups_enabled();
        match &mut self.owned_screen {
            Some(screen) => {
                screen.push_source_cell(metrics, cell, compact);
            },
            None => {},
        }
    }

    /// Further handles to the cells of the transcript.
    pub fn shared_transcript(&self) -> (r: Vec<Arc<HistoryCell>>)
        ensures
            r@ == self@.cells,
    {
        let len: usize = self.transcript_cells.len();
        let r = compact_tool_groups::cells_between(&self.transcript_cells, 0, len);
        proof {
            assert(self.transcript_cells@.subrange(0, len as int) =~= self.transcript_cells@);
        }
        r
    }

    pub fn sync_owned_screen(&mut self, metrics: &mut QuietLedger, reason: QuietMetric)
        requires
            old(self).wf(),
        ensures
            final(self).wf(),
            final(self)@ == old(self)@.screen_synced(reason).pane,
            ledger::counted(
                *old(metrics),
                *final(metrics),
                old(self)@.screen_synced(reason).bumps,
            ),
    {
        proof {
            reveal(Pane::wf);
            reveal(screen_option);
            reveal(PaneModel::screen_synced);
        }
        proof {
            ledger::lemma_counted_nothing(*metrics);
        }
        let cells = self.shared_transcript();
        let compact = self.compact_tool_groups_enabled();
        match &mut self.owned_screen {
            Some(screen) => {
                if screen.source_cells_match(&cells) {
                    screen.set_compact_tool_groups(metrics, compact);
                } else {
                    let _ = screen.replace_source_cells(metrics, cells, compact, reason);
                }
            },
            None => {},
        }
    }

    pub fn set_replaying(&mut self, replaying: bool)
        requires
            old(self).wf(),
        ensures
            final(self).wf(),
            final(self)@ == old(self)@.with_replaying(replaying),
    {
        proof {
            reveal(Pane::wf);
            reveal(screen_option);
            reveal(PaneModel::with_replaying);
        }
        match &mut self.owned_screen {
            Some(screen) => {
                screen.replay_in_progress = replaying;
            },
            None => {},
        }
    }

    pub fn selection_is_active(&self) -> (r: bool)
        ensures
            r == self@.selecting(),
    {
        proof {
            reveal(screen_option);
        }
        match &self.owned_screen {
            Some(screen) => screen.selection_is_active(),
            None => false,
        }
    }

    /// Cancels a selection that is being made, and says whether there was one.
    pub fn cancel_selection(&mut self) -> (r: bool)
        requires
            old(self).wf(),
        ensures
            final(self).wf(),
            final(self)@ == old(self)@.selection_cancelled(),
            r == old(self)@.selecting(),
    {
        proof {
            reveal(Pane::wf);
            reveal(screen_option);
        }
        match &mut self.owned_screen {
            Some(screen) => {
                if screen.selection_is_active() {
                    screen.cancel_selection();
                    true
                } else {
                    false
                }
            },
            None => false,
        }
    }

    /// Clears the hover, and says whether anything was hovered.
    pub fn clear_hover(&mut self) -> (r: bool)
        requires
            old(self).wf(),
        ensures
            final(self).wf(),
            final(self)@ == old(self)@.unhovered(),
            r == old(self)@.hovers(),
    {
        proof {
            reveal(Pane::wf);
            reveal(screen_option);
        }
        match &mut self.owned_screen {
            Some(screen) => screen.clear_tool_group_hover(),
            None => false,
        }
    }

    pub fn covers(&self, position: Position) -> (r: bool)
        ensures
            r == self@.covers(position),
    {
        proof {
            reveal(screen_option);
        }
        match &self.owned_screen {
            Some(screen) => screen.last_pane_area.contains(position),
            None => false,
        }
    }

    pub fn sync_render_mode(&mut self)
        requires
            old(self).wf(),
        ensures
            final(self).wf(),
            final(self)@ == old(self)@.with_render_mode(),
    {
        proof {
            reveal(Pane::wf);
            reveal(screen_option);
        }
        let mode = self.facts.render_mode;
        match &mut self.owned_screen {
            Some(screen) => {
                screen.viewport.set_render_mode(mode);
            },
            None => {},
        }
    }

    pub fn bottom_area(&self) -> (r: Rect)
        ensures
            r == self@.bottom_area(),
    {
        proof {
            reveal(screen_option);
        }
        match &self.owned_screen {
            Some(screen) => screen.last_bottom_area,
            None => Rect { x: 0, y: 0, width: 0, height: 0 },
        }
    }

    /// Another handle to a cell at the end of the transcript.
    pub fn push_cell(&mut self, cell: &Arc<HistoryCell>)
        requires
            old(self).wf(),
        ensures
            final(self).wf(),
            final(self)@ == (PaneModel { cells: old(self)@.cells.push(*cell), ..old(self)@ }),
    {
        proof {
            reveal(Pane::wf);
            reveal(screen_option);
        }
        self.transcript_cells.push(history_cell::share(cell));
    }

    /// Counts a cell as the next source, and returns the seal that stands before it.
    pub fn count_source(&mut self, metrics: &mut QuietLedger, cell: &HistoryCell) -> (r: Option<
        ToolRunSealCell,
    >)
        requires
            old(self).wf(),
            old(self)@.runs.can_append(tool_run_projection::class_of(*cell)),
        ensures
            final(self).wf(),
            final(self)@ == (PaneModel {
                runs: old(self)@.runs.appended(tool_run_projection::class_of(*cell)),
                ..old(self)@
            }),
            r == old(self)@.runs.seal_before(tool_run_projection::class_of(*cell)),
            ledger::counted(
                *old(metrics),
                *final(metrics),
                tool_classification::item_scans(*cell),
            ),
    {
        proof {
            reveal(Pane::wf);
            tool_run_projection::law_append_keeps_ids_ordered(
                self.tool_run_lifecycle,
                tool_run_projection::class_of(*cell),
            );
        }
        self.tool_run_lifecycle.before_source_append(metrics, cell)
    }

    pub fn begin_turn(&mut self, turn_id: String) -> (r: Option<ToolRunSealCell>)
        requires
            old(self).wf(),
        ensures
            final(self).wf(),
            final(self)@ == (PaneModel {
                runs: turn_begun(old(self)@.runs, turn_id),
                ..old(self)@
            }),
            r == (if old(self)@.runs.in_turn(turn_id@) {
                None
            } else {
                old(self)@.runs.pending_seal()
            }),
    {
        proof {
            reveal(Pane::wf);
        }
        self.tool_run_lifecycle.begin_turn(turn_id)
    }

    pub fn seal_turn(&mut self, turn_id: &str) -> (r: Option<ToolRunSealCell>)
        requires
            old(self).wf(),
        ensures
            final(self).wf(),
            final(self)@ == (PaneModel {
                runs: turn_sealed(old(self)@.runs, turn_id@),
                ..old(self)@
            }),
            r == (if old(self)@.runs.run_belongs_to(turn_id@) {
                old(self)@.runs.pending_seal()
            } else {
                None
            }),
    {
        proof {
            reveal(Pane::wf);
        }
        self.tool_run_lifecycle.seal_turn(turn_id)
    }

    pub fn seal_open_run(&mut self) -> (r: Option<ToolRunSealCell>)
        requires
            old(self).wf(),
        ensures
            final(self).wf(),
            final(self)@ == (PaneModel { runs: old(self)@.runs.closed_run(), ..old(self)@ }),
            r == old(self)@.runs.pending_seal(),
    {
        proof {
            reveal(Pane::wf);
        }
        self.tool_run_lifecycle.seal_open_run()
    }

    /// Forgets the conversation.
    pub fn forget(&mut self)
        requires
            old(self).wf(),
        ensures
            final(self).wf(),
            final(self)@ == (PaneModel {
                cells: Seq::empty(),
                runs: ToolRunLifecycle {
                    open: None,
                    current_turn_id: None,
                    ..old(self)@.runs
                },
                ..old(self)@
            }),
    {
        proof {
            reveal(Pane::wf);
        }
        self.transcript_cells.clear();
        self.tool_run_lifecycle.reset_open_run();
    }

    /// Takes another screen, or none.
    pub fn install_screen(&mut self, screen: Option<OwnedScreen>)
        requires
            old(self).wf(),
            screen matches Some(s) ==> s.wf(),
        ensures
            final(self).wf(),
            final(self)@ == (PaneModel { screen: screen_option(screen), ..old(self)@ }),
    {
        proof {
            reveal(Pane::wf);
        }
        self.owned_screen = screen;
    }

    pub fn take_token_activity(&mut self) -> (r: Option<Arc<HistoryCell>>)
        requires
            old(self).wf(),
        ensures
            final(self).wf(),
            final(self)@ == (PaneModel { token_activity: None, ..old(self)@ }),
            r == old(self)@.token_activity,
    {
        proof {
            reveal(Pane::wf);
        }
        self.completed_token_activity.take()
    }

    pub fn take_rate_limit_hint(&mut self) -> (r: Option<Arc<HistoryCell>>)
        requires
            old(self).wf(),
        ensures
            final(self).wf(),
            final(self)@ == (PaneModel { rate_limit_hint: None, ..old(self)@ }),
            r == old(self)@.rate_limit_hint,
    {
        proof {
            reveal(Pane::wf);
        }
        self.rate_limit_reset_hint.take()
    }

    pub fn replace_source_cell(
        &mut self,
        metrics: &mut QuietLedger,
        source_index: usize,
        replacement: Arc<HistoryCell>,
    ) -> (r: bool)
        requires
            old(self).wf(),
        ensures
            final(self).wf(),
            ({
                let step = old(self)@.source_replaced(source_index as int, replacement);
                &&& final(self)@ == step.pane
                &&& ledger::counted(*old(metrics), *final(metrics), step.bumps)
            }),
            r == old(self)@.replaces_source(source_index as int, replacement),
    {
        proof {
            reveal(Pane::wf);
            reveal(screen_option);
            reveal(PaneModel::source_replaced);
            reveal(PaneModel::replaces_source);
            ledger::lemma_counted_nothing(*metrics);
        }
        let compact = self.compact_tool_groups_enabled();
        match &mut self.owned_screen {
            Some(screen) => screen.replace_source_cell(
                metrics,
                source_index,
                replacement,
                compact,
            ),
            None => false,
        }
    }

    pub fn splice_source_cells(
        &mut self,
        metrics: &mut QuietLedger,
        source_index: usize,
        remove_count: usize,
        replacements: Vec<Arc<HistoryCell>>,
    ) -> (r: bool)
        requires
            old(self).wf(),
        ensures
            final(self).wf(),
            ({
                let step = old(self)@.sources_spliced(
                    source_index as int,
                    remove_count as int,
                    replacements@,
                );
                &&& final(self)@ == step.pane
                &&& ledger::counted(*old(metrics), *final(metrics), step.bumps)
            }),
            r == old(self)@.splices_sources(
                source_index as int,
                remove_count as int,
                replacements@,
            ),
    {
        proof {
            reveal(Pane::wf);
            reveal(screen_option);
            reveal(PaneModel::sources_spliced);
            reveal(PaneModel::splices_sources);
            ledger::lemma_counted_nothing(*metrics);
        }
        let compact = self.compact_tool_groups_enabled();
        match &mut self.owned_screen {
            Some(screen) => screen.splice_source_cells(
                metrics,
                source_index,
                remove_count,
                replacements,
                compact,
            ),
            None => false,
        }
    }

    /// Puts a background terminal in the place of the command that started it.
    pub fn promote(&mut self, call_id: &str, cell: &Arc<HistoryCell>) -> (r: Option<usize>)
        requires
            old(self).wf(),
        ensures
            final(self).wf(),
            final(self)@ == (PaneModel {
                cells: app_model::promoted_cells(old(self)@.cells, call_id@, *cell),
                ..old(self)@
            }),
            match r {
                Some(i) => app_model::promoted_position(old(self)@.cells, call_id@) == Some(
                    i as int,
                ),
                None => app_model::promoted_position(old(self)@.cells, call_id@) is None,
            },
    {
        proof {
            reveal(Pane::wf);
        }
        app::promote_background_terminal_cell(
            &mut self.transcript_cells,
            call_id,
            history_cell::share(cell),
        )
    }

    /// Where the card of a background terminal stands in the transcript.
    pub fn terminal_position(&self, call_id: &str) -> (r: Option<usize>)
        ensures
            match r {
                Some(i) => app_model::terminal_position(self@.cells, call_id@) == Some(i as int)
                    && i < self@.cells.len(),
                None => app_model::terminal_position(self@.cells, call_id@) is None,
            },
    {
        let ghost cells = self.transcript_cells@;
        let mut found: Option<usize> = None;
        let mut i: usize = 0;
        while i < self.transcript_cells.len()
            invariant
                i <= cells.len(),
                self.transcript_cells@ == cells,
                match found {
                    Some(k) => k < i && app_model::terminal_position(
                        cells.take(i as int),
                        call_id@,
                    ) == Some(k as int),
                    None => app_model::terminal_position(cells.take(i as int), call_id@) is None,
                },
            decreases cells.len() - i,
        {
            proof {
                assert(cells.take(i + 1).drop_last() =~= cells.take(i as int));
            }
            if found.is_none() {
                if let CellKind::BackgroundTerminal(card) = &self.transcript_cells[i].kind {
                    if text::text_is(card.call_id.as_str(), call_id) {
                        found = Some(i);
                    }
                }
            }
            i += 1;
        }
        proof {
            assert(cells.take(cells.len() as int) =~= cells);
        }
        found
    }

    /// A record of the transcript.
    pub fn record_at(&self, index: usize) -> (r: Arc<HistoryCell>)
        requires
            index < self@.cells.len(),
        ensures
            r == self@.cells[index as int],
    {
        history_cell::share(&self.transcript_cells[index])
    }

    /// Puts a record in the place of another one in the transcript.
    pub fn replace_record(&mut self, index: usize, cell: &Arc<HistoryCell>)
        requires
            old(self).wf(),
            index < old(self)@.cells.len(),
        ensures
            final(self).wf(),
            final(self)@ == (PaneModel {
                cells: old(self)@.cells.update(index as int, *cell),
                ..old(self)@
            }),
    {
        proof {
            reveal(Pane::wf);
        }
        self.transcript_cells.set(index, history_cell::share(cell));
    }

    /// The cells of the group to look into.
    pub fn inspection_cells(&mut self, metrics: &mut QuietLedger) -> (r: Option<
        Vec<Arc<HistoryCell>>,
    >)
        requires
            old(self).wf(),
        ensures
            final(self).wf(),
            final(self)@ == old(self)@,
            match r {
                Some(cells) => old(self)@.inspected_cells() == Some(cells@),
                None => old(self)@.inspected_cells() is None,
            },
            ledger::counted(*old(metrics), *final(metrics), old(self)@.inspection_scans()),
    {
        proof {
            ledger::lemma_counted_nothing(*metrics);
            reveal(PaneModel::inspection_scans);
            reveal(Pane::wf);
            reveal(screen_option);
            reveal(PaneModel::inspected_cells);
        }
        match &mut self.owned_screen {
            Some(screen) => screen.inspection_cells(metrics),
            None => None,
        }
    }

    pub fn takes_scroll(&self, position: Position) -> (r: bool)
        ensures
            r == self@.takes_scroll(position),
    {
        proof {
            reveal(screen_option);
        }
        match &self.owned_screen {
            Some(screen) => screen.selection_is_active() || screen.last_conversation_area.contains(
                position,
            ),
            None => false,
        }
    }

    pub fn handle_mouse_scroll(
        &mut self,
        direction: MouseScrollDirection,
        rows: usize,
        position: Position,
        drag: DragFacts,
    ) -> (r: bool)
        requires
            old(self).wf(),
        ensures
            final(self).wf(),
            final(self)@ == old(self)@.wheeled(direction, rows, position, drag),
            r == old(self)@.takes_scroll(position),
    {
        proof {
            reveal(Pane::wf);
            reveal(screen_option);
            reveal(PaneModel::wheeled);
        }
        match &mut self.owned_screen {
            Some(screen) => screen.handle_mouse_scroll(
                direction,
                rows,
                position,
                drag.restored,
                drag.scrolls,
                drag.now,
            ),
            None => false,
        }
    }

    pub fn update_hover(&mut self, position: Position) -> (r: bool)
        requires
            old(self).wf(),
        ensures
            final(self).wf(),
            final(self)@ == old(self)@.hovered_at(position),
            r == old(self)@.hover_changes_at(position),
    {
        proof {
            reveal(Pane::wf);
            reveal(screen_option);
        }
        match &mut self.owned_screen {
            Some(screen) => screen.update_tool_group_hover(position),
            None => false,
        }
    }

    pub fn begin_selection(
        &mut self,
        position: Position,
        restored: Option<RestoredSelection>,
    ) -> (r: bool)
        requires
            old(self).wf(),
        ensures
            final(self).wf(),
            final(self)@ == old(self)@.selection_begun(position, restored),
            r == old(self)@.selection_begins(position),
    {
        proof {
            reveal(Pane::wf);
            reveal(screen_option);
            reveal(PaneModel::selection_begun);
            reveal(PaneModel::selection_begins);
        }
        match &mut self.owned_screen {
            Some(screen) => screen.begin_selection(position, restored),
            None => false,
        }
    }

    pub fn update_selection(&mut self, position: Position, drag: DragFacts) -> (r: bool)
        requires
            old(self).wf(),
        ensures
            final(self).wf(),
            final(self)@ == old(self)@.selection_dragged(position, drag),
            r == old(self)@.selection_drags(drag.restored),
    {
        proof {
            reveal(Pane::wf);
            reveal(screen_option);
            reveal(PaneModel::selection_dragged);
            reveal(PaneModel::selection_drags);
        }
        match &mut self.owned_screen {
            Some(screen) => screen.update_selection(
                position,
                drag.restored,
                drag.scrolls,
                drag.now,
            ),
            None => false,
        }
    }

    pub fn finish_selection(
        &mut self,
        metrics: &mut QuietLedger,
        position: Position,
        restored: Option<RestoredSelection>,
        selected: Option<String>,
    ) -> (r: Option<String>)
        requires
            old(self).wf(),
        ensures
            final(self).wf(),
            ({
                let step = old(self)@.selection_finished(position, restored, selected is Some);
                &&& final(self)@ == step.pane
                &&& ledger::counted(*old(metrics), *final(metrics), step.bumps)
            }),
            r == (if old(self)@.screen is Some {
                selected
            } else {
                None
            }),
    {
        proof {
            reveal(Pane::wf);
            reveal(screen_option);
            reveal(PaneModel::selection_finished);
            ledger::lemma_counted_nothing(*metrics);
        }
        match &mut self.owned_screen {
            Some(screen) => screen.finish_selection(metrics, position, restored, selected),
            None => None,
        }
    }

    pub fn set_reflow(&mut self, reflow_pending_until: Option<u64>)
        requires
            old(self).wf(),
        ensures
            final(self).wf(),
            final(self)@ == old(self)@.with_reflow(reflow_pending_until),
    {
        proof {
            reveal(Pane::wf);
        }
        self.reflow_pending_until = reflow_pending_until;
    }

    /// Handles a key that may move the view.
    pub fn handle_navigation_key(&mut self, key: NavigationKey, target: Option<usize>) -> (r: bool)
        requires
            old(self).wf(),
        ensures
            final(self).wf(),
            r == old(self)@.navigates(key, target),
            final(self)@ == (if r {
                old(self)@.navigated(target->0)
            } else {
                old(self)@
            }),
    {
        proof {
            reveal(Pane::wf);
            reveal(screen_option);
            reveal(PaneModel::navigates);
            reveal(PaneModel::navigated);
        }
        if !self.facts.composer_is_empty || !self.facts.no_modal_or_popup_active {
            return false;
        }
        match &mut self.owned_screen {
            Some(screen) => screen.handle_navigation_key(key, target),
            None => false,
        }
    }

    /// Empties the conversation and the screen, and forgets what waits for them.
    pub fn reset(&mut self, metrics: &mut QuietLedger)
        requires
            old(self).wf(),
        ensures
            final(self).wf(),
            final(self)@ == old(self)@.reset().pane,
            ledger::counted(*old(metrics), *final(metrics), old(self)@.reset().bumps),
    {
        proof {
            reveal(PaneModel::reset);
        }
        self.forget();
        self.sync_owned_screen(metrics, QuietMetric::FullProjectionReset);
        self.set_replaying(false);
        proof {
            reveal(Pane::wf);
        }
        self.reflow_pending_until = None;
        self.completed_token_activity = None;
        self.rate_limit_reset_hint = None;
        self.facts.initial_history_replay_buffer = false;
    }
}

/// The tool runs once a turn began.
pub open spec fn turn_begun(runs: ToolRunLifecycle, turn_id: String) -> ToolRunLifecycle {
    if runs.in_turn(turn_id@) {
        runs
    } else {
        ToolRunLifecycle { open: None, current_turn_id: Some(turn_id), ..runs }
    }
}

/// The tool runs once a turn is over.
pub open spec fn turn_sealed(runs: ToolRunLifecycle, turn_id: Seq<char>) -> ToolRunLifecycle {
    if runs.run_belongs_to(turn_id) {
        runs.closed_run()
    } else {
        runs
    }
}

} // verus!
