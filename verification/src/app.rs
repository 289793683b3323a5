//! The application around the conversation panes: it commits history, routes the pointer, and
//! decides when the terminal is drawn.
//!
//! What the terminal and the chat are asked to do is written down as effects, in order.

use std::sync::Arc;

use vstd::prelude::*;

use crate::app_frame::SessionFacts;
use crate::app_model;
use crate::app_model::AppModel;
use crate::app_model::Effect;
use crate::app_model::InlineReflowReason;
use crate::app_model::OverlayModel;
use crate::app_model::PaneSlot;
use crate::compact_tool_groups;
use crate::history_cell;
use crate::history_cell::CellKind;
use crate::history_cell::HistoryCell;
use crate::ledger;
use crate::ledger::QuietLedger;
use crate::ledger::Tally;
use crate::lifecycle;
use crate::lifecycle::BackgroundTerminalLifecycleCell;
use crate::lifecycle::TerminalEvent;
use crate::pane;
use crate::pane::Pane;
use crate::pane::PaneModel;
use crate::quiet_metrics::QuietMetric;
use crate::quiet_metrics::ToolRunSealReason;
use crate::text;
use crate::tool_classification;
use crate::tool_run_projection;
use crate::tool_run_projection::ToolRunSealCell;
use crate::viewport_model;

verus! {

pub enum Overlay {
    Closed,
    Transcript(Vec<Arc<HistoryCell>>),
    Other,
}

impl View for Overlay {
    type V = OverlayModel;

    open spec fn view(&self) -> OverlayModel {
        match *self {
            Overlay::Closed => OverlayModel::Closed,
            Overlay::Transcript(cells) => OverlayModel::Transcript(cells@),
            Overlay::Other => OverlayModel::Other,
        }
    }
}

pub struct App {
    pub parent: Pane,
    pub side: Option<Pane>,
    pub focused: PaneSlot,
    pub split_is_dragging: bool,
    pub overlay: Overlay,
    pub backtrack_primed: bool,
    pub backtrack_render_pending: bool,
    pub has_emitted_history_lines: bool,
    pub scrollback_has_older_history: bool,
    pub deferred_history_lines: Vec<String>,
    pub skill_load_warnings: Vec<String>,
    pub session: SessionFacts,
    pub effects: Vec<Effect>,
    pub metrics: QuietLedger,
}

impl View for App {
    type V = AppModel;

    open spec fn view(&self) -> AppModel {
        AppModel {
            parent: self.parent@,
            side: match self.side {
                Some(side) => Some(side@),
                None => None,
            },
            focused: self.focused,
            dragging_split: self.split_is_dragging,
            overlay: self.overlay@,
            backtrack_primed: self.backtrack_primed,
            backtrack_render_pending: self.backtrack_render_pending,
            emitted: self.has_emitted_history_lines,
            older_history: self.scrollback_has_older_history,
            deferred_lines: text::views(self.deferred_history_lines@),
            warnings: text::views(self.skill_load_warnings@),
            effects: self.effects@,
        }
    }
}

/// The record of a seal.
fn seal_record(seal: ToolRunSealCell, id: u64) -> (r: Arc<HistoryCell>)
    ensures
        app_model::is_seal_record(*r, seal, id),
{
    Arc::new(
        HistoryCell {
            id,
            kind: CellKind::Seal(seal),
            stream_continuation: false,
            rich_lines: Vec::new(),
            layouts: Vec::new(),
            raw_lines: Vec::new(),
        },
    )
}

/// The lines that a host shows of a record.
pub struct RecordLines {
    pub rich: Vec<String>,
    pub raw: Vec<String>,
}

/// The record of a background terminal after an event: the same record with the changed card and
/// the lines that `lay_out` gives for it.
pub open spec fn is_updated_record<F: Fn(&BackgroundTerminalLifecycleCell) -> RecordLines>(
    lay_out: F,
    before: Arc<HistoryCell>,
    event: TerminalEvent,
    record: Arc<HistoryCell>,
) -> bool {
    before.kind matches CellKind::BackgroundTerminal(old_card) && record.kind
        matches CellKind::BackgroundTerminal(card) && {
        &&& card@ == lifecycle::after_event(old_card@, event)
        &&& record.id == before.id
        &&& record.stream_continuation == before.stream_continuation
        &&& record.layouts@.len() == 0
        &&& exists|lines: RecordLines| #[trigger]
            call_ensures(lay_out, (&card,), lines) && record.rich_lines == lines.rich
                && record.raw_lines == lines.raw
    }
}

fn updated_record<F: Fn(&BackgroundTerminalLifecycleCell) -> RecordLines>(
    before: &Arc<HistoryCell>,
    event: TerminalEvent,
    lay_out: F,
) -> (r: Arc<HistoryCell>)
    requires
        before.kind is BackgroundTerminal,
        forall|card: &BackgroundTerminalLifecycleCell| call_requires(lay_out, (card,)),
    ensures
        is_updated_record(lay_out, *before, event, r),
{
    match &before.kind {
        CellKind::BackgroundTerminal(old_card) => {
            let card = old_card.with_event(event);
            let lines = lay_out(&card);
            let ghost shown = lines;
            Arc::new(
                HistoryCell {
                    id: before.id,
                    kind: CellKind::BackgroundTerminal(card),
                    stream_continuation: before.stream_continuation,
                    rich_lines: lines.rich,
                    layouts: Vec::new(),
                    raw_lines: lines.raw,
                },
            )
        },
        _ => history_cell::share(before),
    }
}

/// Puts a background terminal in the place of the command that started it, or at the end where
/// the command is not there by itself. Returns the place that it took.
pub fn promote_background_terminal_cell(
    transcript_cells: &mut Vec<Arc<HistoryCell>>,
    call_id: &str,
    cell: Arc<HistoryCell>,
) -> (r: Option<usize>)
    ensures
        final(transcript_cells)@ == app_model::promoted_cells(
            old(transcript_cells)@,
            call_id@,
            cell,
        ),
        match r {
            Some(i) => i < old(transcript_cells)@.len() && app_model::promoted_position(
                old(transcript_cells)@,
                call_id@,
            ) == Some(i as int),
            None => app_model::promoted_position(old(transcript_cells)@, call_id@) is None,
        },
{
    let ghost cells = transcript_cells@;
    let mut found: Option<usize> = None;
    let mut i: usize = 0;
    while i < transcript_cells.len()
        invariant
            i <= cells.len(),
            transcript_cells@ == cells,
            match found {
                Some(k) => k < i && app_model::promoted_position(cells.take(i as int), call_id@) == Some(
                    k as int,
                ),
                None => app_model::promoted_position(cells.take(i as int), call_id@) is None,
            },
        decreases cells.len() - i,
    {
        proof {
            assert(cells.take(i + 1).drop_last() =~= cells.take(i as int));
        }
        if found.is_none() {
            if let CellKind::Exec(exec) = &transcript_cells[i].kind {
                if exec.is_single_call(call_id) {
                    found = Some(i);
                }
            }
        }
        i += 1;
    }
    proof {
        assert(cells.take(cells.len() as int) =~= cells);
    }
    match found {
        Some(index) => {
            transcript_cells.set(index, cell);
            Some(index)
        },
        None => {
            transcript_cells.push(cell);
            None
        },
    }
}

impl App {
    pub open spec fn wf(&self) -> bool {
        &&& self.parent.wf()
        &&& self.side matches Some(side) ==> side.wf()
        &&& self.focused == PaneSlot::Side ==> self.side is Some
    }

    /// Whether the counters went from those of another application by the given events.
    pub open spec fn counted_from(&self, before: &App, bumps: Seq<Tally>) -> bool {
        self.session == before.session && ledger::counted(
            before.metrics,
            self.metrics,
            bumps,
        )
    }

    /// Whether the session and the counters are as they were.
    pub open spec fn kept_books(&self, before: &App) -> bool {
        self.session == before.session && self.metrics == before.metrics
    }

    pub fn new(parent: Pane, session: SessionFacts) -> (r: Self)
        requires
            parent.wf(),
        ensures
            r.wf(),
            r@.parent == parent@,
            r@.side is None,
            r@.focused == PaneSlot::Parent,
            !r@.dragging_split && !r@.backtrack_primed && !r@.backtrack_render_pending,
            !r@.emitted && !r@.older_history,
            r@.overlay == OverlayModel::Closed,
            r@.effects == Seq::<Effect>::empty(),
            r@.deferred_lines == Seq::<Seq<char>>::empty(),
            r@.warnings == Seq::<Seq<char>>::empty(),
            r.metrics.is_new(),
            r.session == session,
    {
        App {
            parent,
            side: None,
            focused: PaneSlot::Parent,
            split_is_dragging: false,
            overlay: Overlay::Closed,
            backtrack_primed: false,
            backtrack_render_pending: false,
            has_emitted_history_lines: false,
            scrollback_has_older_history: false,
            deferred_history_lines: Vec::new(),
            skill_load_warnings: Vec::new(),
            session,
            effects: Vec::new(),
            metrics: QuietLedger::new(),
        }
    }

    pub(crate) fn ask(&mut self, effect: Effect)
        requires
            old(self).wf(),
        ensures
            final(self).wf(),
            final(self)@ == old(self)@.asking(effect),
            final(self).kept_books(old(self)),
    {
        self.effects.push(effect);
    }

    pub(crate) fn ask_if(&mut self, wanted: bool, effect: Effect)
        requires
            old(self).wf(),
        ensures
            final(self).wf(),
            final(self)@ == old(self)@.asking_if(wanted, effect),
            final(self).kept_books(old(self)),
    {
        if wanted {
            self.effects.push(effect);
        }
    }

    /// The pane that has the focus.
    pub fn focus(&self) -> (r: &Pane)
        requires
            self.wf(),
        ensures
            r.wf(),
            r@ == self@.focus(),
    {
        match self.focused {
            PaneSlot::Parent => &self.parent,
            PaneSlot::Side => match &self.side {
                Some(side) => side,
                None => &self.parent,
            },
        }
    }

    pub fn has_owned_screen(&self) -> (r: bool)
        ensures
            r == self@.has_owned_screen(),
    {
        self.parent.has_owned_screen()
    }

    pub fn owned_activity_animation_active(&self) -> (r: bool)
        ensures
            r == (self@.parent.animates() || (self@.side matches Some(side) && side.animates())),
    {
        if !self.parent.bottom_area().is_empty() && self.parent.facts.activity_animation_active {
            return true;
        }
        match &self.side {
            Some(side) => !side.bottom_area().is_empty() && side.facts.activity_animation_active,
            None => false,
        }
    }

    pub fn owned_screen_push_cell(&mut self, cell: Arc<HistoryCell>)
        requires
            old(self).wf(),
        ensures
            final(self).wf(),
            final(self)@ == old(self)@.screen_pushed(cell).app,
            final(self).counted_from(old(self), old(self)@.screen_pushed(cell).bumps),
    {
        proof {
            reveal(AppModel::screen_pushed);
        }
        match self.focused {
            PaneSlot::Parent => {
                self.parent.owned_screen_push_cell(&mut self.metrics, cell);
            },
            PaneSlot::Side => match &mut self.side {
                Some(side) => {
                    side.owned_screen_push_cell(&mut self.metrics, cell);
                },
                None => {},
            },
        }
    }

    fn set_replaying(&mut self, replaying: bool)
        requires
            old(self).wf(),
        ensures
            final(self).wf(),
            final(self)@ == old(self)@.with_focus(old(self)@.focus().with_replaying(replaying)),
            final(self).kept_books(old(self)),
    {
        match self.focused {
            PaneSlot::Parent => {
                self.parent.set_replaying(replaying);
            },
            PaneSlot::Side => match &mut self.side {
                Some(side) => {
                    side.set_replaying(replaying);
                },
                None => {},
            },
        }
    }

    pub fn begin_owned_screen_replay(&mut self)
        requires
            old(self).wf(),
        ensures
            final(self).wf(),
            final(self)@ == old(self)@.with_focus(old(self)@.focus().with_replaying(true)),
            final(self).kept_books(old(self)),
    {
        self.set_replaying(true);
    }

    pub fn finish_owned_screen_replay(&mut self)
        requires
            old(self).wf(),
        ensures
            final(self).wf(),
            final(self)@ == old(self)@.with_focus(old(self)@.focus().with_replaying(false)),
            final(self).kept_books(old(self)),
    {
        self.set_replaying(false);
    }

    pub fn owned_screen_replay_in_progress(&self) -> (r: bool)
        requires
            self.wf(),
        ensures
            r == self@.focus().replaying(),
    {
        self.focus().replay_in_progress()
    }

    pub(crate) fn push_transcript(&mut self, cell: &Arc<HistoryCell>)
        requires
            old(self).wf(),
        ensures
            final(self).wf(),
            final(self)@ == old(self)@.transcript_pushed(*cell),
            final(self).kept_books(old(self)),
    {
        proof {
            reveal(AppModel::transcript_pushed);
        }
        match self.focused {
            PaneSlot::Parent => {
                self.parent.push_cell(cell);
            },
            PaneSlot::Side => match &mut self.side {
                Some(side) => {
                    side.push_cell(cell);
                },
                None => {},
            },
        }
    }

    fn push_overlay(&mut self, cell: &Arc<HistoryCell>)
        requires
            old(self).wf(),
        ensures
            final(self).wf(),
            final(self)@ == old(self)@.overlay_pushed(*cell),
            final(self).kept_books(old(self)),
    {
        proof {
            reveal(AppModel::overlay_pushed);
        }
        let shown = match &mut self.overlay {
            Overlay::Transcript(cells) => {
                cells.push(history_cell::share(cell));
                true
            },
            Overlay::Closed => false,
            Overlay::Other => false,
        };
        if shown {
            self.ask(Effect::ScheduleFrame);
        }
    }

    pub(crate) fn overlay_is_closed(&self) -> (r: bool)
        ensures
            r == (self@.overlay is Closed),
    {
        match &self.overlay {
            Overlay::Closed => true,
            Overlay::Transcript(_) => false,
            Overlay::Other => false,
        }
    }

    /// Whether the seal at the end of the transcript completes a group.
    fn last_seal_folds(&mut self) -> (r: bool)
        requires
            old(self).wf(),
        ensures
            final(self).wf(),
            final(self)@ == old(self)@,
            final(self).session == old(self).session,
            ({
                let cells = old(self)@.focus().cells;
                &&& r == (compact_tool_groups::group_before_seal(cells, cells.len() - 1) is Some)
                &&& final(self).counted_from(
                    old(self),
                    compact_tool_groups::seal_scans(cells, cells.len() - 1),
                )
            }),
    {
        let cells = self.focus().shared_transcript();
        proof {
            ledger::lemma_counted_nothing(self.metrics);
        }
        let len: usize = cells.len();
        if len == 0 {
            return false;
        }
        compact_tool_groups::seal_completes_compact_tool_group(&mut self.metrics, &cells, len - 1)
    }

    /// Shows a cell that was committed.
    fn show_commit(&mut self, cell: &Arc<HistoryCell>, is_tool_run_seal: bool)
        requires
            old(self).wf(),
        ensures
            final(self).wf(),
            final(self)@ == old(self)@.commit_shown(*cell, is_tool_run_seal),
            final(self).counted_from(old(self), old(self)@.commit_scans(is_tool_run_seal)),
    {
        proof {
            reveal(AppModel::commit_shown);
            ledger::lemma_counted_nothing(self.metrics);
        }
        if self.has_owned_screen() {
            let draws = !self.owned_screen_replay_in_progress();
            self.ask(Effect::RequestUsageInsertion);
            self.ask_if(draws, Effect::ScheduleFrame);
            return;
        }
        let pane = self.focus();
        let record = cell.id;
        let width = pane.facts.history_wrap_width;
        let buffered = pane.facts.initial_history_replay_buffer;
        let folds = is_tool_run_seal && pane.compact_tool_groups_enabled()
            && self.last_seal_folds();
        let shown = if buffered {
            Effect::BufferCellLines { record, width }
        } else if folds && self.overlay_is_closed() {
            Effect::ReflowTranscript(InlineReflowReason::Seal)
        } else {
            Effect::InsertCellLines { record, width }
        };
        self.ask(shown);
        self.ask_if(!is_tool_run_seal, Effect::RequestUsageInsertion);
    }

    /// Puts a cell at the end of the conversation.
    pub fn commit_history_cell(
        &mut self,
        cell: Arc<HistoryCell>,
        seal_reason: Option<ToolRunSealReason>,
    )
        requires
            old(self).wf(),
        ensures
            final(self).wf(),
            final(self)@ == old(self)@.committed(cell, seal_reason).app,
            final(self).counted_from(old(self), old(self)@.committed(cell, seal_reason).bumps),
    {
        proof {
            reveal(AppModel::committed);
            ledger::lemma_counted_nothing(self.metrics);
        }
        let ghost counters = self.metrics;
        if let Some(reason) = seal_reason {
            ledger::bump_seal(&mut self.metrics, reason);
        }
        let ghost middle = self.metrics;
        let is_tool_run_seal = seal_reason.is_some();
        self.push_overlay(&cell);
        self.push_transcript(&cell);
        let ghost pushed = self@;
        self.owned_screen_push_cell(history_cell::share(&cell));
        proof {
            ledger::lemma_counted_concat(
                counters,
                middle,
                self.metrics,
                AppModel::seal_bumps(seal_reason),
                pushed.screen_pushed(cell).bumps,
            );
        }
        self.ask_if(is_tool_run_seal, Effect::SyncActiveAgentLabel);
        let ghost shown = self.metrics;
        let ghost last = self@;
        self.show_commit(&cell, is_tool_run_seal);
        proof {
            let bumps = AppModel::seal_bumps(seal_reason) + pushed.screen_pushed(cell).bumps;
            assert(last.commit_scans(is_tool_run_seal) == pushed.screen_pushed(
                cell,
            ).app.commit_scans(is_tool_run_seal));
            ledger::lemma_counted_concat(
                counters,
                shown,
                self.metrics,
                bumps,
                last.commit_scans(is_tool_run_seal),
            );
        }
    }

    fn count_source(&mut self, cell: &Arc<HistoryCell>) -> (r: Option<ToolRunSealCell>)
        requires
            old(self).wf(),
            old(self)@.focus().runs.can_append(tool_run_projection::class_of(**cell)),
        ensures
            final(self).wf(),
            final(self)@ == old(self)@.source_counted(*cell),
            final(self).counted_from(old(self), tool_classification::item_scans(**cell)),
            r == old(self)@.seal_before(*cell),
    {
        match self.focused {
            PaneSlot::Parent => self.parent.count_source(&mut self.metrics, cell),
            PaneSlot::Side => match &mut self.side {
                Some(side) => side.count_source(&mut self.metrics, cell),
                None => None,
            },
        }
    }

    /// Commits the record of a seal, if there is a seal, and returns the record.
    fn commit_seal(
        &mut self,
        seal: Option<ToolRunSealCell>,
        seal_id: u64,
        reason: ToolRunSealReason,
    ) -> (r: Option<Arc<HistoryCell>>)
        requires
            old(self).wf(),
        ensures
            final(self).wf(),
            app_model::records_seal(r, seal, seal_id),
            final(self)@ == old(self)@.seal_committed(r, reason).app,
            final(self).counted_from(old(self), old(self)@.seal_committed(r, reason).bumps),
    {
        proof {
            ledger::lemma_counted_nothing(self.metrics);
        }
        match seal {
            Some(seal) => {
                let record = seal_record(seal, seal_id);
                self.commit_history_cell(history_cell::share(&record), Some(reason));
                Some(record)
            },
            None => None,
        }
    }

    pub fn insert_history_cell(&mut self, cell: HistoryCell, seal_id: u64) -> (r: Option<
        Arc<HistoryCell>,
    >)
        requires
            old(self).wf(),
            old(self)@.focus().runs.can_append(tool_run_projection::class_of(cell)),
        ensures
            final(self).wf(),
            app_model::records_seal(r, old(self)@.seal_before(Arc::new(cell)), seal_id),
            final(self)@ == old(self)@.inserted(Arc::new(cell), r).app,
            final(self).counted_from(old(self), old(self)@.inserted(Arc::new(cell), r).bumps),
    {
        self.insert_history_cell_arc(Arc::new(cell), seal_id)
    }

    /// Inserts a cell, and before it the seal of the run that it ends. Returns the record of the
    /// seal, which gets the given number.
    pub fn insert_history_cell_arc(&mut self, cell: Arc<HistoryCell>, seal_id: u64) -> (r: Option<
        Arc<HistoryCell>,
    >)
        requires
            old(self).wf(),
            old(self)@.focus().runs.can_append(tool_run_projection::class_of(*cell)),
        ensures
            final(self).wf(),
            app_model::records_seal(r, old(self)@.seal_before(cell), seal_id),
            final(self)@ == old(self)@.inserted(cell, r).app,
            final(self).counted_from(old(self), old(self)@.inserted(cell, r).bumps),
    {
        let ghost begin = self@;
        let ghost counters = self.metrics;
        ledger::bump(&mut self.metrics, QuietMetric::SourceAppend);
        let ghost one = self.metrics;
        let seal = self.count_source(&cell);
        let ghost counted = self@;
        let ghost scanned = self.metrics;
        let open = self.focus().tool_run_lifecycle.is_active();
        proof {
            ledger::lemma_counted_nothing(self.metrics);
        }
        if open {
            ledger::bump(&mut self.metrics, QuietMetric::SourceAppendOpen);
        }
        let ghost two = self.metrics;
        let r = self.commit_seal(seal, seal_id, ToolRunSealReason::Barrier);
        let ghost sealed = counted.seal_committed(r, ToolRunSealReason::Barrier);
        let ghost three = self.metrics;
        self.commit_history_cell(history_cell::share(&cell), None);
        proof {
            reveal(AppModel::inserted);
            let a = seq![Tally::Metric(QuietMetric::SourceAppend)];
            let b = viewport_model::bump_if(open, QuietMetric::SourceAppendOpen);
            let d = sealed.app.committed(cell, None).bumps;
            let s = compact_tool_groups::cell_scans(cell);
            ledger::lemma_counted_concat(counters, one, scanned, a, s);
            ledger::lemma_counted_concat(counters, scanned, two, a + s, b);
            ledger::lemma_counted_concat(counters, two, three, a + s + b, sealed.bumps);
            ledger::lemma_counted_concat(
                counters,
                three,
                self.metrics,
                a + s + b + sealed.bumps,
                d,
            );
        }
        r
    }

    /// Starts a turn. A run that another turn left open is sealed first.
    pub fn begin_tool_run_turn(&mut self, turn_id: String, seal_id: u64) -> (r: Option<
        Arc<HistoryCell>,
    >)
        requires
            old(self).wf(),
        ensures
            final(self).wf(),
            ({
                let runs = old(self)@.focus().runs;
                let begun = old(self)@.with_runs(pane::turn_begun(runs, turn_id));
                let step = begun.seal_committed(r, ToolRunSealReason::TurnBoundary);
                &&& app_model::records_seal(
                    r,
                    if runs.in_turn(turn_id@) {
                        None
                    } else {
                        runs.pending_seal()
                    },
                    seal_id,
                )
                &&& final(self)@ == step.app
                &&& final(self).counted_from(old(self), step.bumps)
            }),
    {
        let seal = match self.focused {
            PaneSlot::Parent => self.parent.begin_turn(turn_id),
            PaneSlot::Side => match &mut self.side {
                Some(side) => side.begin_turn(turn_id),
                None => None,
            },
        };
        self.commit_seal(seal, seal_id, ToolRunSealReason::TurnBoundary)
    }

    /// Seals the open run if it belongs to the given turn.
    pub fn seal_tool_run(&mut self, turn_id: &str, reason: ToolRunSealReason, seal_id: u64) -> (r:
        Option<Arc<HistoryCell>>)
        requires
            old(self).wf(),
        ensures
            final(self).wf(),
            ({
                let runs = old(self)@.focus().runs;
                let over = old(self)@.with_runs(pane::turn_sealed(runs, turn_id@));
                let step = over.seal_committed(r, reason);
                &&& app_model::records_seal(
                    r,
                    if runs.run_belongs_to(turn_id@) {
                        runs.pending_seal()
                    } else {
                        None
                    },
                    seal_id,
                )
                &&& final(self)@ == step.app
                &&& final(self).counted_from(old(self), step.bumps)
            }),
    {
        let seal = match self.focused {
            PaneSlot::Parent => self.parent.seal_turn(turn_id),
            PaneSlot::Side => match &mut self.side {
                Some(side) => side.seal_turn(turn_id),
                None => None,
            },
        };
        self.commit_seal(seal, seal_id, reason)
    }

    /// Seals the run that a replay left open.
    pub fn seal_trailing_tool_run(&mut self, seal_id: u64) -> (r: Option<Arc<HistoryCell>>)
        requires
            old(self).wf(),
        ensures
            final(self).wf(),
            ({
                let runs = old(self)@.focus().runs;
                let step = old(self)@.with_runs(runs.closed_run()).seal_committed(
                    r,
                    ToolRunSealReason::ReplayEnd,
                );
                &&& app_model::records_seal(r, runs.pending_seal(), seal_id)
                &&& final(self)@ == step.app
                &&& final(self).counted_from(old(self), step.bumps)
            }),
    {
        let seal = match self.focused {
            PaneSlot::Parent => self.parent.seal_open_run(),
            PaneSlot::Side => match &mut self.side {
                Some(side) => side.seal_open_run(),
                None => None,
            },
        };
        self.commit_seal(seal, seal_id, ToolRunSealReason::ReplayEnd)
    }

    /// Whether a settled usage card has to wait.
    pub fn pending_usage_output_insertion_blocked(&self) -> (r: bool)
        requires
            self.wf(),
        ensures
            r == self@.usage_blocked(),
    {
        let pane = self.focus();
        if pane.facts.usage_history_insertion_blocked {
            return true;
        }
        let count: usize = pane.transcript_cells.len();
        if count == 0 {
            return false;
        }
        match &pane.transcript_cells[count - 1].kind {
            CellKind::AgentMessage => true,
            _ => false,
        }
    }

    fn take_token_activity(&mut self) -> (r: Option<Arc<HistoryCell>>)
        requires
            old(self).wf(),
        ensures
            final(self).wf(),
            final(self)@ == old(self)@.with_focus(
                PaneModel { token_activity: None, ..old(self)@.focus() },
            ),
            final(self).kept_books(old(self)),
            r == old(self)@.focus().token_activity,
    {
        match self.focused {
            PaneSlot::Parent => self.parent.take_token_activity(),
            PaneSlot::Side => match &mut self.side {
                Some(side) => side.take_token_activity(),
                None => None,
            },
        }
    }

    fn take_rate_limit_hint(&mut self) -> (r: Option<Arc<HistoryCell>>)
        requires
            old(self).wf(),
        ensures
            final(self).wf(),
            final(self)@ == old(self)@.with_focus(
                PaneModel { rate_limit_hint: None, ..old(self)@.focus() },
            ),
            final(self).kept_books(old(self)),
            r == old(self)@.focus().rate_limit_hint,
    {
        match self.focused {
            PaneSlot::Parent => self.parent.take_rate_limit_hint(),
            PaneSlot::Side => match &mut self.side {
                Some(side) => side.take_rate_limit_hint(),
                None => None,
            },
        }
    }

    /// Inserts the usage cards that are ready. Returns the records of the seals before them.
    pub fn insert_pending_usage_output(&mut self, first_seal_id: u64, second_seal_id: u64) -> (r: (
        Option<Arc<HistoryCell>>,
        Option<Arc<HistoryCell>>,
    ))
        requires
            old(self).wf(),
            old(self)@.usage_fits(),
        ensures
            final(self).wf(),
            final(self)@ == old(self)@.usage_inserted(r.0, r.1).app,
            final(self).counted_from(old(self), old(self)@.usage_inserted(r.0, r.1).bumps),
            usage_seals(old(self)@, r.0, r.1, first_seal_id, second_seal_id),
    {
        let ghost begin = self@;
        let ghost counters = self.metrics;
        proof {
            ledger::lemma_counted_nothing(self.metrics);
        }
        let output = self.take_token_activity();
        let ghost taken = self@;
        let mut first: Option<Arc<HistoryCell>> = None;
        if let Some(cell) = output {
            first = self.insert_history_cell_arc(cell, first_seal_id);
            proof {
                app_model::lemma_inserted_keeps(taken, cell, first);
            }
        }
        let ghost middle = self@;
        let ghost one = self.metrics;
        proof {
            ledger::lemma_counted_nothing(self.metrics);
        }
        let hint = self.take_rate_limit_hint();
        let mut second: Option<Arc<HistoryCell>> = None;
        if let Some(cell) = hint {
            second = self.insert_history_cell_arc(cell, second_seal_id);
        }
        proof {
            let a = match begin.focus().token_activity {
                Some(cell) => taken.inserted(cell, first).bumps,
                None => Seq::empty(),
            };
            let hinted = middle.with_focus(
                PaneModel { rate_limit_hint: None, ..middle.focus() },
            );
            let b = match middle.focus().rate_limit_hint {
                Some(cell) => hinted.inserted(cell, second).bumps,
                None => Seq::empty(),
            };
            ledger::lemma_counted_concat(counters, one, self.metrics, a, b);
        }
        (first, second)
    }

    /// Inserts the usage cards that are ready, unless they have to wait.
    pub fn insert_pending_usage_output_if_ready(
        &mut self,
        first_seal_id: u64,
        second_seal_id: u64,
    ) -> (r: (Option<Arc<HistoryCell>>, Option<Arc<HistoryCell>>))
        requires
            old(self).wf(),
            !old(self)@.usage_blocked() ==> old(self)@.usage_fits(),
        ensures
            final(self).wf(),
            old(self)@.usage_blocked() ==> final(self)@ == old(self)@ && final(self).kept_books(
                old(self),
            ) && r.0 is None && r.1 is None,
            !old(self)@.usage_blocked() ==> final(self)@ == old(self)@.usage_inserted(r.0, r.1).app
                && final(self).counted_from(old(self), old(self)@.usage_inserted(r.0, r.1).bumps)
                && usage_seals(old(self)@, r.0, r.1, first_seal_id, second_seal_id),
    {
        if self.pending_usage_output_insertion_blocked() {
            return (None, None);
        }
        self.insert_pending_usage_output(first_seal_id, second_seal_id)
    }

    /// Inserts the usage cards that are ready once a stream is over, whatever cell is the last.
    pub fn insert_pending_usage_output_after_stream_shutdown(
        &mut self,
        first_seal_id: u64,
        second_seal_id: u64,
    ) -> (r: (Option<Arc<HistoryCell>>, Option<Arc<HistoryCell>>))
        requires
            old(self).wf(),
            !old(self)@.focus().facts.usage_history_insertion_blocked ==> old(
                self,
            )@.usage_fits(),
        ensures
            final(self).wf(),
            ({
                let blocked = old(self)@.focus().facts.usage_history_insertion_blocked;
                &&& blocked ==> final(self)@ == old(self)@ && final(self).kept_books(
                    old(self),
                ) && r.0 is None && r.1 is None
                &&& !blocked ==> final(self)@ == old(self)@.usage_inserted(r.0, r.1).app && final(
                    self).counted_from(old(self), old(self)@.usage_inserted(r.0, r.1).bumps)
                    && usage_seals(old(self)@, r.0, r.1, first_seal_id, second_seal_id)
            }),
    {
        if self.focus().facts.usage_history_insertion_blocked {
            return (None, None);
        }
        self.insert_pending_usage_output(first_seal_id, second_seal_id)
    }

    pub fn sync_owned_screen_cells(&mut self)
        requires
            old(self).wf(),
        ensures
            final(self).wf(),
            ({
                let step = old(self)@.focus().screen_synced(QuietMetric::FullProjectionUnexpected);
                &&& final(self)@ == old(self)@.with_focus(step.pane)
                &&& final(self).counted_from(old(self), step.bumps)
            }),
    {
        self.sync_owned_screen_cells_with_reason(QuietMetric::FullProjectionUnexpected);
    }

    /// Brings the screen of the focused pane in line with its transcript.
    pub fn sync_owned_screen_cells_with_reason(&mut self, reason: QuietMetric)
        requires
            old(self).wf(),
        ensures
            final(self).wf(),
            final(self)@ == old(self)@.with_focus(
                old(self)@.focus().screen_synced(reason).pane,
            ),
            final(self).counted_from(old(self), old(self)@.focus().screen_synced(reason).bumps),
    {
        match self.focused {
            PaneSlot::Parent => {
                self.parent.sync_owned_screen(&mut self.metrics, reason);
            },
            PaneSlot::Side => match &mut self.side {
                Some(side) => {
                    side.sync_owned_screen(&mut self.metrics, reason);
                },
                None => {},
            },
        }
    }

    /// Brings all screens in line with their transcripts.
    pub fn sync_all_owned_screen_cells(&mut self)
        requires
            old(self).wf(),
        ensures
            final(self).wf(),
            ({
                let reason = QuietMetric::FullProjectionGlobalMode;
                let parent = old(self)@.parent.screen_synced(reason);
                match old(self)@.side {
                    Some(pane) => {
                        let side = pane.screen_synced(reason);
                        &&& final(self)@ == old(self)@.each(parent.pane, Some(side.pane))
                        &&& final(self).counted_from(old(self), parent.bumps + side.bumps)
                    },
                    None => {
                        &&& final(self)@ == old(self)@.each(parent.pane, None)
                        &&& final(self).counted_from(old(self), parent.bumps)
                    },
                }
            }),
    {
        let ghost counters = self.metrics;
        let ghost begin = self@;
        let reason = QuietMetric::FullProjectionGlobalMode;
        self.parent.sync_owned_screen(&mut self.metrics, reason);
        let ghost middle = self.metrics;
        if let Some(side) = &mut self.side {
            side.sync_owned_screen(&mut self.metrics, reason);
            proof {
                ledger::lemma_counted_concat(
                    counters,
                    middle,
                    self.metrics,
                    begin.parent.screen_synced(reason).bumps,
                    begin.side->0.screen_synced(reason).bumps,
                );
            }
        }
    }

    pub fn replace_owned_screen_source_cell(
        &mut self,
        source_index: usize,
        replacement: Arc<HistoryCell>,
    ) -> (r: bool)
        requires
            old(self).wf(),
        ensures
            final(self).wf(),
            ({
                let step = old(self)@.focus().source_replaced(source_index as int, replacement);
                &&& final(self)@ == old(self)@.with_focus(step.pane)
                &&& final(self).counted_from(old(self), step.bumps)
            }),
            r == old(self)@.focus().replaces_source(source_index as int, replacement),
    {
        match self.focused {
            PaneSlot::Parent => self.parent.replace_source_cell(
                &mut self.metrics,
                source_index,
                replacement,
            ),
            PaneSlot::Side => match &mut self.side {
                Some(side) => side.replace_source_cell(
                    &mut self.metrics,
                    source_index,
                    replacement,
                ),
                None => false,
            },
        }
    }

    pub fn splice_owned_screen_source_cells(
        &mut self,
        source_index: usize,
        remove_count: usize,
        replacements: Vec<Arc<HistoryCell>>,
    ) -> (r: bool)
        requires
            old(self).wf(),
        ensures
            final(self).wf(),
            ({
                let pane = old(self)@.focus();
                let step = pane.sources_spliced(
                    source_index as int,
                    remove_count as int,
                    replacements@,
                );
                &&& final(self)@ == old(self)@.with_focus(step.pane)
                &&& final(self).counted_from(old(self), step.bumps)
                &&& r == pane.splices_sources(
                    source_index as int,
                    remove_count as int,
                    replacements@,
                )
            }),
    {
        match self.focused {
            PaneSlot::Parent => self.parent.splice_source_cells(
                &mut self.metrics,
                source_index,
                remove_count,
                replacements,
            ),
            PaneSlot::Side => match &mut self.side {
                Some(side) => side.splice_source_cells(
                    &mut self.metrics,
                    source_index,
                    remove_count,
                    replacements,
                ),
                None => false,
            },
        }
    }

    /// The cells of the group to look into on the focused screen.
    pub fn owned_screen_tool_group_inspection_cells(&mut self) -> (r: Option<Vec<Arc<HistoryCell>>>)
        requires
            old(self).wf(),
        ensures
            final(self).wf(),
            final(self)@ == old(self)@,
            final(self).counted_from(old(self), old(self)@.focus().inspection_scans()),
            match r {
                Some(cells) => old(self)@.focus().inspected_cells() == Some(cells@),
                None => old(self)@.focus().inspected_cells() is None,
            },
    {
        match self.focused {
            PaneSlot::Parent => self.parent.inspection_cells(&mut self.metrics),
            PaneSlot::Side => match &mut self.side {
                Some(side) => side.inspection_cells(&mut self.metrics),
                None => None,
            },
        }
    }

    /// Gives every screen the render mode of its chat.
    pub fn sync_owned_screen_render_mode(&mut self)
        requires
            old(self).wf(),
        ensures
            final(self).wf(),
            final(self)@ == old(self)@.each(
                old(self)@.parent.with_render_mode(),
                match old(self)@.side {
                    Some(side) => Some(side.with_render_mode()),
                    None => None,
                },
            ),
            final(self).kept_books(old(self)),
    {
        self.parent.sync_render_mode();
        if let Some(side) = &mut self.side {
            side.sync_render_mode();
        }
    }

    /// Shows a record that was put into the transcript.
    #[verifier::rlimit(40)]
    #[verifier::spinoff_prover]
    fn show_record(&mut self, at: Option<usize>, cell: &Arc<HistoryCell>)
        requires
            old(self).wf(),
        ensures
            final(self).wf(),
            ({
                let place = match at {
                    Some(i) => Some(i as int),
                    None => None,
                };
                let step = old(self)@.record_shown(place, *cell);
                &&& final(self)@ == step.app
                &&& final(self).counted_from(old(self), step.bumps)
            }),
    {
        proof {
            reveal(AppModel::record_shown);
            ledger::lemma_counted_nothing(self.metrics);
        }
        let ghost m = self@;
        let ghost counters = self.metrics;
        if self.has_owned_screen() {
            let mut shown = false;
            if let Some(index) = at {
                shown = self.replace_owned_screen_source_cell(index, history_cell::share(cell));
            }
            let ghost middle = self.metrics;
            let ghost after = self@;
            if !shown {
                self.sync_owned_screen_cells();
                proof {
                    let first = match at {
                        Some(i) => m.focus().source_replaced(i as int, *cell).bumps,
                        None => Seq::empty(),
                    };
                    ledger::lemma_counted_concat(
                        counters,
                        middle,
                        self.metrics,
                        first,
                        after.focus().screen_synced(QuietMetric::FullProjectionUnexpected).bumps,
                    );
                }
            }
        }
    }

    /// Puts a background terminal in the place of the command that started it, on the screen
    /// too. `defer` says that a replay shows the change later; `reflowed` is what came of laying
    /// the transcript out anew.
    pub fn promote_background_terminal_lifecycle(
        &mut self,
        call_id: &str,
        cell: Arc<HistoryCell>,
        defer: bool,
        reflowed: bool,
    ) -> (r: Result<(), ReflowFailed>)
        requires
            old(self).wf(),
        ensures
            final(self).wf(),
            ({
                let step = old(self)@.promoted(call_id@, cell);
                &&& final(self)@ == step.app.lifecycle_refreshed(defer, reflowed)
                &&& final(self).counted_from(old(self), step.bumps)
                &&& r is Err <==> step.app.refresh_fails(defer, reflowed)
            }),
    {
        let ghost begin = self@;
        let replaced_source = match self.focused {
            PaneSlot::Parent => self.parent.promote(call_id, &cell),
            PaneSlot::Side => match &mut self.side {
                Some(side) => side.promote(call_id, &cell),
                None => None,
            },
        };
        let shared = self.focus().shared_transcript();
        if let Overlay::Transcript(cells) = &mut self.overlay {
            *cells = shared;
        }
        proof {
            assert(self@ == begin.promotion_placed(call_id@, cell));
        }
        self.show_record(replaced_source, &cell);
        self.refresh_lifecycle_history(defer, reflowed)
    }

    /// Brings the committed card of a background terminal up to date with an event, in its place
    /// in the transcript and on the screen. `lay_out` gives the lines that the host shows of the
    /// card. Returns whether there is such a card; the change is shown by
    /// `refresh_lifecycle_history`.
    pub fn update_background_terminal<
        F: Fn(&BackgroundTerminalLifecycleCell) -> RecordLines,
    >(&mut self, call_id: &str, event: TerminalEvent, lay_out: F) -> (r: bool)
        requires
            old(self).wf(),
            forall|card: &BackgroundTerminalLifecycleCell| call_requires(lay_out, (card,)),
        ensures
            final(self).wf(),
            r == (old(self)@.committed_terminal(call_id@) is Some),
            !r ==> final(self)@ == old(self)@ && final(self).kept_books(old(self)),
            r ==> exists|record: Arc<HistoryCell>|
                {
                    let index = old(self)@.committed_terminal(call_id@)->0;
                    let step = old(self)@.record_updated(index, record);
                    &&& #[trigger] is_updated_record(
                        lay_out,
                        old(self)@.terminal_record(call_id@),
                        event,
                        record,
                    )
                    &&& final(self)@ == step.app
                    &&& final(self).counted_from(old(self), step.bumps)
                },
    {
        let ghost begin = self@;
        let index = match self.focus().terminal_position(call_id) {
            Some(index) => index,
            None => return false,
        };
        proof {
            app_model::lemma_terminal_position(self@.focus().cells, call_id@);
        }
        let before = self.focus().record_at(index);
        let record = updated_record(&before, event, lay_out);
        match self.focused {
            PaneSlot::Parent => self.parent.replace_record(index, &record),
            PaneSlot::Side => if let Some(side) = &mut self.side {
                side.replace_record(index, &record);
            },
        }
        let shared = self.focus().shared_transcript();
        if let Overlay::Transcript(cells) = &mut self.overlay {
            *cells = shared;
        }
        proof {
            assert(self@ == begin.record_replaced(index as int, record));
        }
        self.show_record(Some(index), &record);
        true
    }

    /// Shows what changed in a record that is still growing.
    pub fn refresh_lifecycle_history(&mut self, defer: bool, reflowed: bool) -> (r: Result<
        (),
        ReflowFailed,
    >)
        requires
            old(self).wf(),
        ensures
            final(self).wf(),
            final(self)@ == old(self)@.lifecycle_refreshed(defer, reflowed),
            final(self).kept_books(old(self)),
            r is Err <==> old(self)@.refresh_fails(defer, reflowed),
    {
        self.ask(Effect::SyncActiveAgentLabel);
        if self.has_owned_screen() {
            self.ask(Effect::ScheduleFrame);
            return Ok(());
        }
        if defer {
            return Ok(());
        }
        if !self.overlay_is_closed() {
            self.ask(Effect::ScheduleLifecycleReflow);
            return Ok(());
        }
        self.ask(Effect::ReflowTranscript(InlineReflowReason::StructuralChange));
        if !reflowed {
            return Err(ReflowFailed);
        }
        self.ask(Effect::ScheduleFrame);
        Ok(())
    }
}

/// The transcript could not be laid out anew.
#[derive(Clone, Copy, Debug, PartialEq, Eq, Structural)]
pub struct ReflowFailed;

/// The screen could not be cleared.
#[derive(Clone, Copy, Debug, PartialEq, Eq, Structural)]
pub struct ClearFailed;

/// Whether the records are those of the seals that the usage cards put before themselves.
pub open spec fn usage_seals(
    m: AppModel,
    first: Option<Arc<HistoryCell>>,
    second: Option<Arc<HistoryCell>>,
    first_id: u64,
    second_id: u64,
) -> bool {
    let taken = m.with_focus(PaneModel { token_activity: None, ..m.focus() });
    let one = match m.focus().token_activity {
        Some(cell) => taken.inserted(cell, first).app,
        None => taken,
    };
    &&& app_model::records_seal(
        first,
        match m.focus().token_activity {
            Some(cell) => taken.seal_before(cell),
            None => None,
        },
        first_id,
    )
    &&& app_model::records_seal(
        second,
        match one.focus().rate_limit_hint {
            Some(cell) => one.seal_before(cell),
            None => None,
        },
        second_id,
    )
}

} // verus!
