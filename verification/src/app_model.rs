//! What the application is, as a mathematical value, and how each operation changes it.

use std::sync::Arc;

use vstd::prelude::*;

use crate::compact_tool_groups;
use crate::geometry;
use crate::geometry::Position;
use crate::geometry::Rect;
use crate::history_cell::CellKind;
use crate::history_cell::HistoryCell;
use crate::ledger::Tally;
use crate::pager_content::MouseScrollDirection;
use crate::pane::DragFacts;
use crate::pane::PaneModel;
use crate::pane::PaneStep;
use crate::quiet_metrics;
use crate::quiet_metrics::QuietMetric;
use crate::quiet_metrics::ToolRunSealReason;
use crate::screen_model::FrameModel;
use crate::screen_model::ScreenModel;
use crate::tool_classification;
use crate::tool_run_projection;
use crate::tool_run_projection::ToolRunLifecycle;
use crate::tool_run_projection::ToolRunSealCell;
use crate::viewport_model::RestoredSelection;

verus! {

#[derive(Clone, Copy, Debug, PartialEq, Eq, Structural)]
pub enum PaneSlot {
    Parent,
    Side,
}

#[derive(Clone, Copy, Debug, PartialEq, Eq, Structural)]
pub enum InlineReflowReason {
    Seal,
    StructuralChange,
}

/// What the terminal and the chat are asked to do, in order.
#[derive(Clone, Copy, Debug, PartialEq, Eq, Structural)]
pub enum Effect {
    ScheduleFrame,
    /// A frame within the target frame interval.
    ScheduleFrameSoon,
    ScheduleFrameIn(u64),
    SyncActiveAgentLabel,
    RequestUsageInsertion,
    /// The lines of a record go to the scrollback.
    InsertCellLines { record: u64, width: u16 },
    /// The lines of a record go to the buffer of the first replay.
    BufferCellLines { record: u64, width: u16 },
    ReflowTranscript(InlineReflowReason),
    ScheduleLifecycleReflow,
    ClearPendingHistoryLines,
    ClearVisibleScreen,
    ClearScrollbackAndVisibleScreen,
    AnchorViewportAtTop,
    LeaveAltScreen,
    ClearPendingHistoryCommits,
    ClearPendingUsageRefreshes,
    RefreshStatusLine(PaneSlot),
    RefreshTerminalTitle(PaneSlot),
    CopySelectedText(PaneSlot),
    DrawPartial(Rect),
}

pub enum OverlayModel {
    Closed,
    Transcript(Seq<Arc<HistoryCell>>),
    Other,
}

/// The application as a mathematical value.
pub struct AppModel {
    pub parent: PaneModel,
    pub side: Option<PaneModel>,
    pub focused: PaneSlot,
    pub dragging_split: bool,
    pub overlay: OverlayModel,
    pub backtrack_primed: bool,
    pub backtrack_render_pending: bool,
    pub emitted: bool,
    pub older_history: bool,
    pub deferred_lines: Seq<Seq<char>>,
    pub warnings: Seq<Seq<char>>,
    pub effects: Seq<Effect>,
}

/// A change of the application, and what it counts.
pub struct AppStep {
    pub app: AppModel,
    pub bumps: Seq<Tally>,
}

/// The record of a seal: it shows nothing.
pub open spec fn is_seal_record(record: HistoryCell, seal: ToolRunSealCell, id: u64) -> bool {
    &&& record.id == id
    &&& record.kind == CellKind::Seal(seal)
    &&& !record.stream_continuation
}

/// Whether there is a record just where there is a seal, and it is that of the seal.
pub open spec fn records_seal(
    record: Option<Arc<HistoryCell>>,
    seal: Option<ToolRunSealCell>,
    id: u64,
) -> bool {
    match (record, seal) {
        (Some(r), Some(s)) => is_seal_record(*r, s, id),
        (None, None) => true,
        _ => false,
    }
}

/// Whether a cell is the command with one call of the given name.
pub open spec fn is_single_exec(cell: Arc<HistoryCell>, call_id: Seq<char>) -> bool {
    cell.kind matches CellKind::Exec(exec) && exec.single_call(call_id)
}

/// The first command with one call of the given name.
pub open spec fn promoted_position(cells: Seq<Arc<HistoryCell>>, call_id: Seq<char>) -> Option<int>
    decreases cells.len(),
{
    if cells.len() == 0 {
        None
    } else {
        match promoted_position(cells.drop_last(), call_id) {
            Some(i) => Some(i),
            None => if is_single_exec(cells.last(), call_id) {
                Some(cells.len() - 1)
            } else {
                None
            },
        }
    }
}

/// Whether a record is the card of a background terminal.
pub open spec fn is_terminal(cell: Arc<HistoryCell>, call_id: Seq<char>) -> bool {
    cell.kind matches CellKind::BackgroundTerminal(card) && card.call_id@ == call_id
}

/// The first card of a background terminal.
pub open spec fn terminal_position(cells: Seq<Arc<HistoryCell>>, call_id: Seq<char>) -> Option<int>
    decreases cells.len(),
{
    if cells.len() == 0 {
        None
    } else {
        match terminal_position(cells.drop_last(), call_id) {
            Some(i) => Some(i),
            None => if is_terminal(cells.last(), call_id) {
                Some(cells.len() - 1)
            } else {
                None
            },
        }
    }
}

pub proof fn lemma_terminal_position(cells: Seq<Arc<HistoryCell>>, call_id: Seq<char>)
    ensures
        terminal_position(cells, call_id) matches Some(i) ==> 0 <= i < cells.len() && is_terminal(
            cells[i],
            call_id,
        ),
    decreases cells.len(),
{
    if cells.len() > 0 {
        lemma_terminal_position(cells.drop_last(), call_id);
    }
}

/// The transcript with a background terminal in the place of the command that started it.
pub open spec fn promoted_cells(
    cells: Seq<Arc<HistoryCell>>,
    call_id: Seq<char>,
    cell: Arc<HistoryCell>,
) -> Seq<Arc<HistoryCell>> {
    match promoted_position(cells, call_id) {
        Some(i) => cells.update(i, cell),
        None => cells.push(cell),
    }
}

/// The smallest rectangle that covers two.
pub open spec fn covering(a: Rect, b: Rect) -> Rect {
    let x = if a.x <= b.x {
        a.x
    } else {
        b.x
    };
    let y = if a.y <= b.y {
        a.y
    } else {
        b.y
    };
    let right = if a.right_edge() >= b.right_edge() {
        a.right_edge()
    } else {
        b.right_edge()
    };
    let bottom = if a.bottom_edge() >= b.bottom_edge() {
        a.bottom_edge()
    } else {
        b.bottom_edge()
    };
    geometry::rect_at(
        x,
        y,
        crate::viewport_model::below(right, x),
        crate::viewport_model::below(bottom, y),
    )
}

/// How the panes are laid out on the screen.
#[derive(Clone, Copy, Debug, PartialEq, Eq, Structural)]
pub enum OwnedScreenLayout {
    Single { slot: PaneSlot, area: Rect, show_header: bool },
    Split { area: Rect, parent: Rect, divider: Rect, side: Rect },
}

impl OwnedScreenLayout {
    pub open spec fn whole_area(self) -> Rect {
        match self {
            OwnedScreenLayout::Single { slot, area, show_header } => area,
            OwnedScreenLayout::Split { area, parent, divider, side } => area,
        }
    }

    pub open spec fn shows(self, slot: PaneSlot) -> bool {
        match self {
            OwnedScreenLayout::Single { slot: visible, area, show_header } => slot == visible,
            OwnedScreenLayout::Split { area, parent, divider, side } => true,
        }
    }
}

#[derive(Clone, Copy, Debug, PartialEq, Eq, Structural)]
pub enum MousePrimaryEventKind {
    Press,
    Drag,
    Release,
}

impl PaneModel {
    /// The pane ready for a layout. A hidden pane loses its selection and its hover.
    pub open spec fn cleared_for(self, visible: bool) -> PaneModel {
        match self.screen {
            Some(screen) => if visible {
                self.areas_cleared()
            } else {
                self.showing(screen.selection_cancelled().unhovered().areas_cleared())
            },
            None => self,
        }
    }

    /// The pane drawn in an area.
    #[verifier::opaque]
    pub open spec fn framed(self, area: Rect, frame: FrameModel) -> PaneStep {
        match self.screen {
            Some(screen) => {
                let step = ScreenModel { pane_area: area, ..screen }.framed(frame);
                PaneStep { pane: self.showing(step.screen), bumps: step.bumps }
            },
            None => PaneStep { pane: self, bumps: Seq::empty() },
        }
    }

    /// The rows that the live tail of a frame records.
    #[verifier::opaque]
    pub open spec fn frame_rows(self, area: Rect, frame: FrameModel) -> Option<u64> {
        match self.screen {
            Some(screen) => ScreenModel { pane_area: area, ..screen }.frame_rows(frame),
            None => None,
        }
    }
}

impl AppModel {
    pub open spec fn pane(self, slot: PaneSlot) -> Option<PaneModel> {
        match slot {
            PaneSlot::Parent => Some(self.parent),
            PaneSlot::Side => self.side,
        }
    }

    pub open spec fn with_pane(self, slot: PaneSlot, pane: PaneModel) -> AppModel {
        match slot {
            PaneSlot::Parent => AppModel { parent: pane, ..self },
            PaneSlot::Side => AppModel { side: Some(pane), ..self },
        }
    }

    /// The pane that has the focus.
    pub open spec fn focus(self) -> PaneModel {
        match self.pane(self.focused) {
            Some(pane) => pane,
            None => self.parent,
        }
    }

    pub open spec fn with_focus(self, pane: PaneModel) -> AppModel {
        self.with_pane(self.focused, pane)
    }

    pub open spec fn asking(self, effect: Effect) -> AppModel {
        AppModel { effects: self.effects.push(effect), ..self }
    }

    pub open spec fn asking_if(self, wanted: bool, effect: Effect) -> AppModel {
        if wanted {
            self.asking(effect)
        } else {
            self
        }
    }

    pub open spec fn has_owned_screen(self) -> bool {
        self.parent.screen is Some
    }

    pub open spec fn counting(self, bumps: Seq<Tally>) -> AppStep {
        AppStep { app: self, bumps }
    }

    /// One more cell on the screen of the focused pane.
    #[verifier::opaque]
    pub open spec fn screen_pushed(self, cell: Arc<HistoryCell>) -> AppStep {
        let step = self.focus().screen_pushed(cell);
        self.with_focus(step.pane).counting(step.bumps)
    }

    /// The transcript overlay with one more cell.
    #[verifier::opaque]
    pub open spec fn overlay_pushed(self, cell: Arc<HistoryCell>) -> AppModel {
        match self.overlay {
            OverlayModel::Transcript(cells) => AppModel {
                overlay: OverlayModel::Transcript(cells.push(cell)),
                ..self
            }.asking(Effect::ScheduleFrame),
            _ => self,
        }
    }

    #[verifier::opaque]
    pub open spec fn transcript_pushed(self, cell: Arc<HistoryCell>) -> AppModel {
        self.with_focus(PaneModel { cells: self.focus().cells.push(cell), ..self.focus() })
    }

    /// A committed cell is shown: on the owned screen, or in the scrollback of the terminal,
    /// where a seal that folds a run lays the transcript out anew.
    #[verifier::opaque]
    pub open spec fn commit_shown(self, cell: Arc<HistoryCell>, is_seal: bool) -> AppModel {
        let pane = self.focus();
        let width = pane.facts.history_wrap_width;
        if self.has_owned_screen() {
            self.asking(Effect::RequestUsageInsertion).asking_if(
                !pane.replaying(),
                Effect::ScheduleFrame,
            )
        } else {
            let folds = is_seal && pane.compact() && compact_tool_groups::group_before_seal(
                pane.cells,
                pane.cells.len() - 1,
            ) is Some;
            let shown = if pane.facts.initial_history_replay_buffer {
                Effect::BufferCellLines { record: cell.id, width }
            } else if folds && self.overlay is Closed {
                Effect::ReflowTranscript(InlineReflowReason::Seal)
            } else {
                Effect::InsertCellLines { record: cell.id, width }
            };
            self.asking(shown).asking_if(!is_seal, Effect::RequestUsageInsertion)
        }
    }

    pub open spec fn seal_bumps(reason: Option<ToolRunSealReason>) -> Seq<Tally> {
        match reason {
            Some(r) => seq![
                Tally::Metric(QuietMetric::ToolRunSeal),
                Tally::Metric(quiet_metrics::seal_metric(r)),
            ],
            None => Seq::empty(),
        }
    }

    /// A cell at the end of the conversation.
    #[verifier::opaque]
    pub open spec fn committed(
        self,
        cell: Arc<HistoryCell>,
        reason: Option<ToolRunSealReason>,
    ) -> AppStep {
        let step = self.overlay_pushed(cell).transcript_pushed(cell).screen_pushed(cell);
        step.app.asking_if(reason is Some, Effect::SyncActiveAgentLabel).commit_shown(
            cell,
            reason is Some,
        ).counting(Self::seal_bumps(reason) + step.bumps + step.app.commit_scans(reason is Some))
    }

    /// What showing a committed cell counts: without an owned screen, the search for the group
    /// that a seal completes.
    pub open spec fn commit_scans(self, is_seal: bool) -> Seq<Tally> {
        let pane = self.focus();
        if !self.has_owned_screen() && is_seal && pane.compact() {
            compact_tool_groups::seal_scans(pane.cells, pane.cells.len() - 1)
        } else {
            Seq::empty()
        }
    }

    pub open spec fn with_runs(self, runs: ToolRunLifecycle) -> AppModel {
        self.with_focus(PaneModel { runs, ..self.focus() })
    }

    /// The seal that a cell puts before itself.
    pub open spec fn seal_before(self, cell: Arc<HistoryCell>) -> Option<ToolRunSealCell> {
        self.focus().runs.seal_before(tool_run_projection::class_of(*cell))
    }

    /// The application that counted a cell as the next source.
    pub open spec fn source_counted(self, cell: Arc<HistoryCell>) -> AppModel {
        self.with_runs(self.focus().runs.appended(tool_run_projection::class_of(*cell)))
    }

    /// The record of a seal committed, if there is one.
    pub open spec fn seal_committed(
        self,
        record: Option<Arc<HistoryCell>>,
        reason: ToolRunSealReason,
    ) -> AppStep {
        match record {
            Some(cell) => self.committed(cell, Some(reason)),
            None => self.counting(Seq::empty()),
        }
    }

    /// A cell inserted, with the record of the seal that stands before it, if there is one.
    #[verifier::opaque]
    pub open spec fn inserted(
        self,
        cell: Arc<HistoryCell>,
        seal: Option<Arc<HistoryCell>>,
    ) -> AppStep {
        let counted = self.source_counted(cell);
        let sealed = counted.seal_committed(seal, ToolRunSealReason::Barrier);
        let last = sealed.app.committed(cell, None);
        last.app.counting(
            seq![Tally::Metric(QuietMetric::SourceAppend)] + tool_classification::item_scans(*cell)
                + crate::viewport_model::bump_if(
                counted.focus().runs.open is Some,
                QuietMetric::SourceAppendOpen,
            ) + sealed.bumps + last.bumps,
        )
    }

    /// The number of usage cards that are ready.
    pub open spec fn usage_cards(self) -> int {
        (if self.focus().token_activity is Some {
            1int
        } else {
            0int
        }) + (if self.focus().rate_limit_hint is Some {
            1int
        } else {
            0int
        })
    }

    /// Whether the usage cards that are ready fit in the numbering of the sources.
    pub open spec fn usage_fits(self) -> bool {
        &&& self.focus().runs.next_source_id + self.usage_cards() <= u64::MAX
        &&& self.focus().runs.next_run_id + self.usage_cards() <= u64::MAX
    }

    /// The usage cards that are ready, inserted one after the other.
    pub open spec fn usage_inserted(
        self,
        first: Option<Arc<HistoryCell>>,
        second: Option<Arc<HistoryCell>>,
    ) -> AppStep {
        let pane = self.focus();
        let taken = self.with_focus(PaneModel { token_activity: None, ..pane });
        let one = match pane.token_activity {
            Some(cell) => taken.inserted(cell, first),
            None => taken.counting(Seq::empty()),
        };
        let middle = one.app.focus();
        let hinted = one.app.with_focus(PaneModel { rate_limit_hint: None, ..middle });
        let two = match middle.rate_limit_hint {
            Some(cell) => hinted.inserted(cell, second),
            None => hinted.counting(Seq::empty()),
        };
        two.app.counting(one.bumps + two.bumps)
    }

    /// Whether a settled usage card has to wait.
    pub open spec fn usage_blocked(self) -> bool {
        let pane = self.focus();
        pane.facts.usage_history_insertion_blocked || (pane.cells.len() > 0
            && pane.cells.last().kind is AgentMessage)
    }

    /// All panes that are there.
    pub open spec fn each(self, parent: PaneModel, side: Option<PaneModel>) -> AppModel {
        AppModel { parent, side, ..self }
    }

    pub open spec fn selections_cancelled(self) -> AppModel {
        self.each(
            self.parent.selection_cancelled(),
            match self.side {
                Some(side) => Some(side.selection_cancelled()),
                None => None,
            },
        )
    }

    pub open spec fn selects(self) -> bool {
        self.parent.selecting() || (self.side matches Some(side) && side.selecting())
    }

    pub open spec fn unhovered(self) -> AppModel {
        self.each(
            self.parent.unhovered(),
            match self.side {
                Some(side) => Some(side.unhovered()),
                None => None,
            },
        )
    }

    pub open spec fn hovers(self) -> bool {
        self.parent.hovers() || (self.side matches Some(side) && side.hovers())
    }

    /// The pane in which text is being selected.
    pub open spec fn selecting_slot(self) -> Option<PaneSlot> {
        if self.parent.selecting() {
            Some(PaneSlot::Parent)
        } else if self.side matches Some(side) && side.selecting() {
            Some(PaneSlot::Side)
        } else {
            None
        }
    }

    /// The pane under a position.
    pub open spec fn slot_at(self, position: Position) -> Option<PaneSlot> {
        if self.parent.covers(position) {
            Some(PaneSlot::Parent)
        } else if self.side matches Some(side) && side.covers(position) {
            Some(PaneSlot::Side)
        } else {
            None
        }
    }

    /// The pane under a position that the pointer can hover in.
    pub open spec fn hover_slot(self, position: Position) -> Option<PaneSlot> {
        if self.parent.facts.no_modal_or_popup_active && self.parent.covers(position) {
            Some(PaneSlot::Parent)
        } else if self.side matches Some(side) && side.facts.no_modal_or_popup_active
            && side.covers(position) {
            Some(PaneSlot::Side)
        } else {
            None
        }
    }

    /// The rows of all composers on the screen.
    pub open spec fn activity_band(self) -> Option<Rect> {
        let parent = self.parent.bottom_area();
        let side = match self.side {
            Some(pane) => pane.bottom_area(),
            None => Rect::nothing(),
        };
        if parent.empty_area() && side.empty_area() {
            None
        } else if parent.empty_area() {
            Some(side)
        } else if side.empty_area() {
            Some(parent)
        } else {
            Some(covering(parent, side))
        }
    }

    /// The latest time that a screen waits for.
    pub open spec fn quiet_deadline(self) -> Option<u64> {
        let parent = if self.parent.screen is Some {
            self.parent.reflow
        } else {
            None
        };
        let side = match self.side {
            Some(pane) => if pane.screen is Some {
                pane.reflow
            } else {
                None
            },
            None => None,
        };
        match (parent, side) {
            (Some(a), Some(b)) => if a >= b {
                Some(a)
            } else {
                Some(b)
            },
            (Some(a), None) => Some(a),
            (None, b) => b,
        }
    }

    pub open spec fn reflow_of(pane: PaneModel, reflow: Option<u64>) -> PaneModel {
        if pane.screen is Some {
            pane.with_reflow(reflow)
        } else {
            pane
        }
    }

    /// The reflow of every pane with a screen set.
    pub open spec fn with_screen_reflow(self, reflow: Option<u64>) -> AppModel {
        self.each(
            Self::reflow_of(self.parent, reflow),
            match self.side {
                Some(side) => Some(Self::reflow_of(side, reflow)),
                None => None,
            },
        )
    }

    /// A background terminal in the place of the command that started it, in the transcript and
    /// in the transcript overlay.
    pub open spec fn promotion_placed(self, call_id: Seq<char>, cell: Arc<HistoryCell>) -> AppModel {
        let pane = self.focus();
        let cells = promoted_cells(pane.cells, call_id, cell);
        AppModel {
            overlay: match self.overlay {
                OverlayModel::Transcript(_) => OverlayModel::Transcript(cells),
                _ => self.overlay,
            },
            ..self.with_focus(PaneModel { cells, ..pane })
        }
    }

    /// A record that was put into the transcript, on the screen too. A screen that cannot take it
    /// alone is brought in line as a whole.
    #[verifier::opaque]
    pub open spec fn record_shown(self, at: Option<int>, cell: Arc<HistoryCell>) -> AppStep {
        let pane = self.focus();
        let reason = QuietMetric::FullProjectionUnexpected;
        if !self.has_owned_screen() {
            self.counting(Seq::empty())
        } else {
            match at {
                Some(i) => {
                    let step = pane.source_replaced(i, cell);
                    if pane.replaces_source(i, cell) {
                        self.with_focus(step.pane).counting(step.bumps)
                    } else {
                        let synced = step.pane.screen_synced(reason);
                        self.with_focus(synced.pane).counting(step.bumps + synced.bumps)
                    }
                },
                None => {
                    let synced = pane.screen_synced(reason);
                    self.with_focus(synced.pane).counting(Seq::empty() + synced.bumps)
                },
            }
        }
    }

    /// A background terminal in the place of the command that started it, on the screen too.
    pub open spec fn promoted(self, call_id: Seq<char>, cell: Arc<HistoryCell>) -> AppStep {
        self.promotion_placed(call_id, cell).record_shown(
            promoted_position(self.focus().cells, call_id),
            cell,
        )
    }

    /// Where the card of a background terminal stands in the transcript.
    pub open spec fn committed_terminal(self, call_id: Seq<char>) -> Option<int> {
        terminal_position(self.focus().cells, call_id)
    }

    /// The record of the card of a background terminal that stands in the transcript.
    pub open spec fn terminal_record(self, call_id: Seq<char>) -> Arc<HistoryCell> {
        self.focus().cells[self.committed_terminal(call_id)->0]
    }

    /// One record of the transcript replaced, in the transcript overlay too.
    pub open spec fn record_replaced(self, index: int, cell: Arc<HistoryCell>) -> AppModel {
        let pane = self.focus();
        let cells = pane.cells.update(index, cell);
        AppModel {
            overlay: match self.overlay {
                OverlayModel::Transcript(_) => OverlayModel::Transcript(cells),
                _ => self.overlay,
            },
            ..self.with_focus(PaneModel { cells, ..pane })
        }
    }

    /// One record of the transcript replaced, on the screen too.
    pub open spec fn record_updated(self, index: int, cell: Arc<HistoryCell>) -> AppStep {
        self.record_replaced(index, cell).record_shown(Some(index), cell)
    }

    /// A change of a record shown.
    pub open spec fn lifecycle_refreshed(self, defer: bool, reflowed: bool) -> AppModel {
        let m = self.asking(Effect::SyncActiveAgentLabel);
        if self.has_owned_screen() {
            m.asking(Effect::ScheduleFrame)
        } else if defer {
            m
        } else if !(self.overlay is Closed) {
            m.asking(Effect::ScheduleLifecycleReflow)
        } else {
            m.asking(Effect::ReflowTranscript(InlineReflowReason::StructuralChange)).asking_if(
                reflowed,
                Effect::ScheduleFrame,
            )
        }
    }

    pub open spec fn refresh_fails(self, defer: bool, reflowed: bool) -> bool {
        !self.has_owned_screen() && !defer && self.overlay is Closed && !reflowed
    }

    /// The pane that a turn of the wheel at a position is for: the one in which text is being
    /// selected, else the one under the pointer that nothing covers.
    pub open spec fn scroll_slot(self, position: Position) -> Option<PaneSlot> {
        if self.selecting_slot() is Some {
            self.selecting_slot()
        } else if self.parent.facts.no_modal_or_popup_active && self.parent.takes_scroll(position) {
            Some(PaneSlot::Parent)
        } else if self.side matches Some(side) && side.facts.no_modal_or_popup_active
            && side.takes_scroll(position) {
            Some(PaneSlot::Side)
        } else {
            None
        }
    }

    pub open spec fn wheeled(
        self,
        direction: MouseScrollDirection,
        rows: usize,
        position: Position,
        drag: DragFacts,
    ) -> AppModel {
        if self.dragging_split {
            self
        } else {
            match self.scroll_slot(position) {
                Some(slot) => self.with_pane(
                    slot,
                    self.pane(slot)->0.wheeled(direction, rows, position, drag),
                ).asking(Effect::ScheduleFrameSoon),
                None => self,
            }
        }
    }

    /// A pane once the pointer moved: only the one under the pointer is hovered in.
    pub open spec fn pane_hovered(
        pane: PaneModel,
        slot: PaneSlot,
        target: Option<PaneSlot>,
        position: Position,
    ) -> PaneModel {
        if target == Some(slot) {
            pane.hovered_at(position)
        } else {
            pane.unhovered()
        }
    }

    pub open spec fn pane_hover_changes(
        pane: PaneModel,
        slot: PaneSlot,
        target: Option<PaneSlot>,
        position: Position,
    ) -> bool {
        if target == Some(slot) {
            pane.hover_changes_at(position)
        } else {
            pane.hovers()
        }
    }

    /// Whether a move of the pointer changes what is hovered.
    pub open spec fn move_changes(self, position: Position) -> bool {
        let target = self.hover_slot(position);
        if !(self.overlay is Closed) {
            self.hovers()
        } else {
            Self::pane_hover_changes(self.parent, PaneSlot::Parent, target, position) || (
            self.side matches Some(side) && Self::pane_hover_changes(
                side,
                PaneSlot::Side,
                target,
                position,
            ))
        }
    }

    pub open spec fn pointer_moved(self, position: Position) -> AppModel {
        let target = self.hover_slot(position);
        if !(self.overlay is Closed) {
            self.unhovered().asking_if(self.hovers(), Effect::ScheduleFrame)
        } else {
            self.each(
                Self::pane_hovered(self.parent, PaneSlot::Parent, target, position),
                match self.side {
                    Some(side) => Some(
                        Self::pane_hovered(side, PaneSlot::Side, target, position),
                    ),
                    None => None,
                },
            ).asking_if(self.move_changes(position), Effect::ScheduleFrameSoon)
        }
    }

    /// Whether something covers the panes, so that the primary button is not for them.
    pub open spec fn pointer_blocked(self) -> bool {
        !(self.overlay is Closed) || !self.focus().facts.no_modal_or_popup_active
    }

    /// Everything that the pointer does is given up.
    pub open spec fn pointer_dropped(self) -> AppModel {
        AppModel {
            dragging_split: false,
            ..self.selections_cancelled().unhovered()
        }.asking_if(
            self.dragging_split || self.selects() || self.hovers(),
            Effect::ScheduleFrame,
        )
    }

    /// The divider took the event.
    pub open spec fn divider_took(self, kind: MousePrimaryEventKind, dragging: bool) -> AppModel {
        AppModel {
            dragging_split: dragging,
            ..self.selections_cancelled().unhovered()
        }.asking(
            if kind == MousePrimaryEventKind::Drag {
                Effect::ScheduleFrameSoon
            } else {
                Effect::ScheduleFrame
            },
        )
    }

    /// A drag, for the pane in which text is being selected.
    pub open spec fn dragged(self, position: Position, drag: DragFacts) -> AppModel {
        match self.selecting_slot() {
            Some(slot) => {
                let pane = self.pane(slot)->0;
                self.with_pane(slot, pane.selection_dragged(position, drag)).asking_if(
                    pane.selection_drags(drag.restored),
                    Effect::ScheduleFrameSoon,
                )
            },
            None => self,
        }
    }

    /// A release, for the pane in which text is being selected.
    pub open spec fn released(
        self,
        position: Position,
        restored: Option<RestoredSelection>,
        selected: bool,
    ) -> AppStep {
        match self.selecting_slot() {
            Some(slot) => {
                let step = self.pane(slot)->0.selection_finished(position, restored, selected);
                self.with_pane(slot, step.pane).asking_if(
                    selected,
                    Effect::CopySelectedText(slot),
                ).asking(Effect::ScheduleFrame).counting(step.bumps)
            },
            None => self.counting(Seq::empty()),
        }
    }

    /// The hover of the panes other than the given one cleared.
    pub open spec fn unhovered_but(self, slot: PaneSlot) -> AppModel {
        match slot {
            PaneSlot::Parent => match self.side {
                Some(side) => AppModel { side: Some(side.unhovered()), ..self },
                None => self,
            },
            PaneSlot::Side => AppModel { parent: self.parent.unhovered(), ..self },
        }
    }

    pub open spec fn hovers_but(self, slot: PaneSlot) -> bool {
        match slot {
            PaneSlot::Parent => self.side matches Some(side) && side.hovers(),
            PaneSlot::Side => self.parent.hovers(),
        }
    }

    /// A selection begun in a pane that nothing covers.
    pub open spec fn press_begun(
        self,
        slot: PaneSlot,
        position: Position,
        restored: Option<RestoredSelection>,
    ) -> AppModel {
        let pane = self.pane(slot)->0;
        if pane.facts.no_modal_or_popup_active {
            self.with_pane(slot, pane.selection_begun(position, restored))
        } else {
            self
        }
    }

    pub open spec fn press_begins(self, slot: PaneSlot, position: Position) -> bool {
        let pane = self.pane(slot)->0;
        pane.facts.no_modal_or_popup_active && pane.selection_begins(position)
    }

    /// A press: it gives up a selection elsewhere, begins one, and moves the focus to the pane
    /// under the pointer where the pane takes it.
    #[verifier::opaque]
    pub open spec fn pressed(
        self,
        position: Position,
        restored: Option<RestoredSelection>,
        takes_focus: bool,
    ) -> AppModel {
        let m = self.selections_cancelled();
        match m.slot_at(position) {
            None => m.unhovered().asking_if(
                self.selects() || m.hovers(),
                Effect::ScheduleFrame,
            ),
            Some(slot) => {
                let calm = m.unhovered_but(slot);
                let begun = calm.press_begun(slot, position, restored);
                if !takes_focus {
                    begun.asking_if(
                        self.selects() || m.hovers_but(slot),
                        Effect::ScheduleFrame,
                    )
                } else {
                    AppModel { focused: slot, backtrack_primed: false, ..begun }.asking_if(
                        calm.press_begins(slot, position) || self.selects() || m.hovers_but(slot)
                            || self.focused != slot || self.backtrack_primed,
                        Effect::ScheduleFrame,
                    )
                }
            },
        }
    }

    /// A primary button pressed, dragged or released.
    pub open spec fn primary(
        self,
        kind: MousePrimaryEventKind,
        position: Position,
        split: Option<bool>,
        drag: DragFacts,
        selected: bool,
        takes_focus: bool,
    ) -> AppStep {
        if self.pointer_blocked() {
            self.pointer_dropped().counting(Seq::empty())
        } else {
            match split {
                Some(dragging) => self.divider_took(kind, dragging).counting(Seq::empty()),
                None => match kind {
                    MousePrimaryEventKind::Drag => self.dragged(position, drag).counting(
                        Seq::empty(),
                    ),
                    MousePrimaryEventKind::Release => self.released(
                        position,
                        drag.restored,
                        selected,
                    ),
                    MousePrimaryEventKind::Press => self.pressed(
                        position,
                        drag.restored,
                        takes_focus,
                    ).counting(Seq::empty()),
                },
            }
        }
    }

    /// Whether the button was for something here.
    pub open spec fn primary_taken(
        self,
        kind: MousePrimaryEventKind,
        position: Position,
        split: Option<bool>,
        drag: DragFacts,
        takes_focus: bool,
    ) -> bool {
        !self.pointer_blocked() && (split is Some || match kind {
            MousePrimaryEventKind::Drag => self.selecting_slot() matches Some(slot) && self.pane(
                slot,
            )->0.selection_drags(drag.restored),
            MousePrimaryEventKind::Release => self.selecting_slot() is Some,
            MousePrimaryEventKind::Press => takes_focus && self.selections_cancelled().slot_at(
                position,
            ) is Some,
        })
    }

    /// Whether a release hands the selected text out.
    pub open spec fn primary_copies(
        self,
        kind: MousePrimaryEventKind,
        split: Option<bool>,
    ) -> bool {
        &&& !self.pointer_blocked()
        &&& split is None
        &&& kind == MousePrimaryEventKind::Release
        &&& self.selecting_slot() is Some
    }

    /// The conversation and everything about it forgotten.
    #[verifier::opaque]
    pub open spec fn reset(self) -> AppStep {
        let step = self.focus().reset();
        AppModel {
            overlay: OverlayModel::Closed,
            deferred_lines: Seq::empty(),
            emitted: false,
            older_history: false,
            backtrack_primed: false,
            backtrack_render_pending: false,
            warnings: Seq::empty(),
            ..self.with_focus(step.pane)
        }.asking(Effect::ClearPendingHistoryCommits).asking(
            Effect::ClearPendingUsageRefreshes,
        ).asking(Effect::SyncActiveAgentLabel).counting(step.bumps)
    }
}

/// Committing a cell leaves the tool runs and what waits for insertion alone.
pub proof fn lemma_committed_keeps(
    m: AppModel,
    cell: Arc<HistoryCell>,
    reason: Option<ToolRunSealReason>,
)
    requires
        m.focused == PaneSlot::Side ==> m.side is Some,
    ensures
        m.committed(cell, reason).app.focused == m.focused,
        m.committed(cell, reason).app.side is Some == m.side is Some,
        m.committed(cell, reason).app.focus().runs == m.focus().runs,
        m.committed(cell, reason).app.focus().token_activity == m.focus().token_activity,
        m.committed(cell, reason).app.focus().rate_limit_hint == m.focus().rate_limit_hint,
        m.committed(cell, reason).app.focus().facts == m.focus().facts,
        m.committed(cell, reason).app.focus().cells == m.focus().cells.push(cell),
{
    reveal(AppModel::committed);
    reveal(AppModel::overlay_pushed);
    reveal(AppModel::transcript_pushed);
    let a = m.overlay_pushed(cell);
    let b = a.transcript_pushed(cell);
    lemma_screen_pushed_keeps(b, cell);
    let c = b.screen_pushed(cell).app;
    let d = c.asking_if(reason is Some, Effect::SyncActiveAgentLabel);
    assert(d.focus() == c.focus());
    assert(d.commit_shown(cell, reason is Some).focus() == d.focus()) by {
        reveal(AppModel::commit_shown);
    }
    assert(d.commit_shown(cell, reason is Some).focused == d.focused) by {
        reveal(AppModel::commit_shown);
    }
    assert(d.commit_shown(cell, reason is Some).side == d.side) by {
        reveal(AppModel::commit_shown);
    }
}

pub proof fn lemma_screen_pushed_keeps(m: AppModel, cell: Arc<HistoryCell>)
    requires
        m.focused == PaneSlot::Side ==> m.side is Some,
    ensures
        m.screen_pushed(cell).app.focused == m.focused,
        m.screen_pushed(cell).app.side is Some == m.side is Some,
        ({
            let after = m.screen_pushed(cell).app.focus();
            &&& after.runs == m.focus().runs
            &&& after.cells == m.focus().cells
            &&& after.facts == m.focus().facts
            &&& after.token_activity == m.focus().token_activity
            &&& after.rate_limit_hint == m.focus().rate_limit_hint
        }),
{
    reveal(AppModel::screen_pushed);
    reveal(PaneModel::screen_pushed);
}

/// Inserting a cell counts it as one source and leaves what waits for insertion alone.
pub proof fn lemma_inserted_keeps(
    m: AppModel,
    cell: Arc<HistoryCell>,
    seal: Option<Arc<HistoryCell>>,
)
    requires
        m.focused == PaneSlot::Side ==> m.side is Some,
    ensures
        m.inserted(cell, seal).app.focused == m.focused,
        m.inserted(cell, seal).app.side is Some == m.side is Some,
        m.inserted(cell, seal).app.focus().runs == m.focus().runs.appended(
            tool_run_projection::class_of(*cell),
        ),
        m.inserted(cell, seal).app.focus().token_activity == m.focus().token_activity,
        m.inserted(cell, seal).app.focus().rate_limit_hint == m.focus().rate_limit_hint,
        m.inserted(cell, seal).app.focus().cells == (match seal {
            Some(record) => m.focus().cells.push(record).push(cell),
            None => m.focus().cells.push(cell),
        }),
{
    reveal(AppModel::inserted);
    let counted = m.source_counted(cell);
    let sealed = counted.seal_committed(seal, ToolRunSealReason::Barrier);
    if let Some(record) = seal {
        lemma_committed_keeps(counted, record, Some(ToolRunSealReason::Barrier));
    }
    lemma_committed_keeps(sealed.app, cell, None);
}

/// A cell that ends a run stands behind the seal of the run, and every inserted cell is the last
/// of the transcript.
pub proof fn law_seal_stands_before_the_cell_that_ends_the_run(
    m: AppModel,
    cell: Arc<HistoryCell>,
    seal: Option<Arc<HistoryCell>>,
    id: u64,
)
    requires
        m.focused == PaneSlot::Side ==> m.side is Some,
        records_seal(seal, m.seal_before(cell), id),
    ensures
        ({
            let cells = m.inserted(cell, seal).app.focus().cells;
            &&& cells.last() == cell
            &&& m.seal_before(cell) matches Some(s) ==> {
                &&& cells.len() == m.focus().cells.len() + 2
                &&& cells[cells.len() - 2].kind == CellKind::Seal(s)
            }
            &&& m.seal_before(cell) is None ==> cells == m.focus().cells.push(cell)
        }),
{
    lemma_inserted_keeps(m, cell, seal);
}

/// How often the transcript is laid out anew for a seal.
pub open spec fn seal_reflows(effects: Seq<Effect>) -> nat
    decreases effects.len(),
{
    if effects.len() == 0 {
        0
    } else {
        seal_reflows(effects.drop_last()) + (if effects.last() == Effect::ReflowTranscript(
            InlineReflowReason::Seal,
        ) {
            1nat
        } else {
            0nat
        })
    }
}

proof fn lemma_reflows_push(effects: Seq<Effect>, effect: Effect)
    ensures
        seal_reflows(effects.push(effect)) == seal_reflows(effects) + (if effect
            == Effect::ReflowTranscript(InlineReflowReason::Seal) {
            1nat
        } else {
            0nat
        }),
{
    assert(effects.push(effect).drop_last() =~= effects);
}

/// A terminal without an owned screen is laid out anew at most once for a cell, and only for a
/// seal that folds a run: while a run is open, its cells are appended.
pub proof fn law_only_a_settled_run_reflows(
    m: AppModel,
    cell: Arc<HistoryCell>,
    reason: Option<ToolRunSealReason>,
)
    ensures
        ({
            let before = seal_reflows(m.effects);
            let after = seal_reflows(m.committed(cell, reason).app.effects);
            &&& before <= after <= before + 1
            &&& reason is None ==> after == before
            &&& m.has_owned_screen() ==> after == before
        }),
{
    reveal(AppModel::committed);
    reveal(AppModel::overlay_pushed);
    reveal(AppModel::transcript_pushed);
    reveal(AppModel::screen_pushed);
    reveal(PaneModel::screen_pushed);
    reveal(AppModel::commit_shown);
    let effects = m.effects;
    let a = m.overlay_pushed(cell);
    lemma_reflows_push(effects, Effect::ScheduleFrame);
    let b = a.transcript_pushed(cell).screen_pushed(cell).app;
    assert(b.effects == a.effects);
    assert(b.has_owned_screen() == m.has_owned_screen());
    lemma_reflows_push(b.effects, Effect::SyncActiveAgentLabel);
    let c = b.asking_if(reason is Some, Effect::SyncActiveAgentLabel);
    let width = c.focus().facts.history_wrap_width;
    let shown = [
        Effect::RequestUsageInsertion,
        Effect::BufferCellLines { record: cell.id, width },
        Effect::ReflowTranscript(InlineReflowReason::Seal),
        Effect::InsertCellLines { record: cell.id, width },
    ];
    assert forall|i: int| 0 <= i < 4 implies seal_reflows(c.effects.push(#[trigger] shown[i]))
        == seal_reflows(c.effects) + (if i == 2 {
        1nat
    } else {
        0nat
    }) by {
        lemma_reflows_push(c.effects, shown[i]);
    }
    assert forall|i: int| 0 <= i < 4 implies seal_reflows(
        c.effects.push(#[trigger] shown[i]).push(Effect::RequestUsageInsertion),
    ) == seal_reflows(c.effects.push(shown[i])) && seal_reflows(
        c.effects.push(shown[i]).push(Effect::ScheduleFrame),
    ) == seal_reflows(c.effects.push(shown[i])) by {
        lemma_reflows_push(c.effects.push(shown[i]), Effect::RequestUsageInsertion);
        lemma_reflows_push(c.effects.push(shown[i]), Effect::ScheduleFrame);
    }
    assert(shown[0] == Effect::RequestUsageInsertion);
    assert(shown[1] == (Effect::BufferCellLines { record: cell.id, width }));
    assert(shown[2] == Effect::ReflowTranscript(InlineReflowReason::Seal));
    assert(shown[3] == (Effect::InsertCellLines { record: cell.id, width }));
}

proof fn lemma_terminal_stays(cells: Seq<Arc<HistoryCell>>, call_id: Seq<char>, record: Arc<HistoryCell>)
    requires
        terminal_position(cells, call_id) is Some,
        is_terminal(record, call_id),
    ensures
        ({
            let i = terminal_position(cells, call_id)->0;
            terminal_position(cells.update(i, record), call_id) == Some(i)
        }),
    decreases cells.len(),
{
    let i = terminal_position(cells, call_id)->0;
    let changed = cells.update(i, record);
    let shorter = cells.drop_last();
    lemma_terminal_position(cells, call_id);
    if terminal_position(shorter, call_id) is Some {
        lemma_terminal_position(shorter, call_id);
        lemma_terminal_stays(shorter, call_id, record);
        assert(changed.drop_last() =~= shorter.update(i, record));
    } else {
        assert(changed.drop_last() =~= shorter);
        assert(changed.last() == record);
    }
}

/// A later event of a background terminal changes its one committed card and no other record: the
/// transcript keeps its length and its other records, and the card stays where the next event
/// finds it.
pub proof fn law_an_event_changes_one_committed_card(
    m: AppModel,
    call_id: Seq<char>,
    record: Arc<HistoryCell>,
)
    requires
        m.focused == PaneSlot::Side ==> m.side is Some,
        m.committed_terminal(call_id) is Some,
        is_terminal(record, call_id),
    ensures
        ({
            let index = m.committed_terminal(call_id)->0;
            let after = m.record_updated(index, record).app;
            &&& 0 <= index < m.focus().cells.len()
            &&& after.focus().cells == m.focus().cells.update(index, record)
            &&& after.committed_terminal(call_id) == Some(index)
            &&& after.pane(match m.focused {
                PaneSlot::Parent => PaneSlot::Side,
                PaneSlot::Side => PaneSlot::Parent,
            }) == m.pane(match m.focused {
                PaneSlot::Parent => PaneSlot::Side,
                PaneSlot::Side => PaneSlot::Parent,
            })
        }),
{
    let index = m.committed_terminal(call_id)->0;
    lemma_terminal_position(m.focus().cells, call_id);
    lemma_terminal_stays(m.focus().cells, call_id, record);
    reveal(AppModel::record_shown);
    reveal(PaneModel::source_replaced);
    reveal(PaneModel::screen_synced);
}

} // verus!
