//! How the application clears the terminal, waits for resizes, and draws its panes.

use std::sync::Arc;

use vstd::prelude::*;

use crate::app::App;
use crate::app::ClearFailed;
use crate::app::Overlay;
use crate::app_model::AppModel;
use crate::app_model::AppStep;
use crate::app_model::Effect;
use crate::app_model::OwnedScreenLayout;
use crate::app_model::PaneSlot;
use crate::geometry::Rect;
use crate::history_cell::HistoryCell;
use crate::history_cell::HistoryRenderMode;
use crate::ledger;
use crate::ledger::QuietLedger;
use crate::owned_screen;
use crate::owned_screen::Frame;
use crate::owned_screen::OwnedScreen;
use crate::owned_screen::RenderedOwnedScreen;
use crate::pane;
use crate::pane::Pane;
use crate::pane::PaneModel;
use crate::screen_model::FrameModel;
use crate::screen_model::ScreenModel;
use crate::text;
use crate::version;

verus! {

#[derive(Clone, Copy, Debug, PartialEq, Eq, Structural)]
pub enum AltScreenBehavior {
    Disabled,
    Owned,
}

/// What the header of a session says.
pub struct SessionHeader {
    pub model: String,
    pub reasoning_effort: Option<String>,
    pub show_fast_status: bool,
    pub cwd: String,
    pub version: String,
    pub yolo_mode: bool,
}

/// What is known of the session.
pub struct SessionFacts {
    pub model: String,
    pub reasoning_effort: Option<String>,
    pub show_fast_status: bool,
    pub cwd: String,
    pub yolo_mode: bool,
}

/// Whether a header is that of a session and a version.
pub open spec fn header_matches(
    header: SessionHeader,
    session: SessionFacts,
    version: Seq<char>,
) -> bool {
    &&& header.model@ == session.model@
    &&& text::option_view(header.reasoning_effort) == text::option_view(session.reasoning_effort)
    &&& header.show_fast_status == session.show_fast_status
    &&& header.cwd@ == session.cwd@
    &&& header.version@ == version
    &&& header.yolo_mode == session.yolo_mode
}

/// The frame of a pane in an area: the part of it below the header.
pub open spec fn frame_in(frame: FrameModel, area: Rect, show_header: bool) -> FrameModel {
    FrameModel { area: owned_screen::body_area(area, show_header), ..frame }
}

impl PaneModel {
    /// What a frame of the pane comes to.
    #[verifier::opaque]
    pub open spec fn frame_result(self, area: Rect, frame: FrameModel) -> Option<
        RenderedOwnedScreen,
    > {
        match self.screen {
            Some(screen) => {
                let step = ScreenModel { pane_area: area, ..screen }.framed(frame);
                Some(
                    RenderedOwnedScreen {
                        conversation_area: frame.conversation_area(),
                        bottom_area: frame.bottom_area(),
                        show_newer_hint: !step.screen.view.following,
                        selection_autoscroll_active: step.done,
                    },
                )
            },
            None => None,
        }
    }
}

/// The result of the focused pane of two, which scrolls on where either does.
pub open spec fn joined_result(
    parent: Option<RenderedOwnedScreen>,
    side: Option<RenderedOwnedScreen>,
    focused: PaneSlot,
) -> Option<RenderedOwnedScreen> {
    let active = (parent matches Some(p) && p.selection_autoscroll_active) || (side matches Some(
        s,
    ) && s.selection_autoscroll_active);
    let chosen = match focused {
        PaneSlot::Parent => parent,
        PaneSlot::Side => side,
    };
    match chosen {
        Some(rendered) => Some(
            RenderedOwnedScreen { selection_autoscroll_active: active, ..rendered },
        ),
        None => None,
    }
}

impl AppModel {
    /// The panes ready for a layout.
    pub open spec fn cleared_for(self, layout: OwnedScreenLayout) -> AppModel {
        self.each(
            self.parent.cleared_for(layout.shows(PaneSlot::Parent)),
            match self.side {
                Some(side) => Some(side.cleared_for(layout.shows(PaneSlot::Side))),
                None => None,
            },
        )
    }

    /// One pane drawn.
    #[verifier::opaque]
    pub open spec fn pane_framed(
        self,
        slot: PaneSlot,
        area: Rect,
        show_header: bool,
        frame: FrameModel,
    ) -> AppStep {
        match self.pane(slot) {
            Some(pane) => {
                let step = pane.framed(area, frame_in(frame, area, show_header));
                self.with_pane(slot, step.pane).counting(step.bumps)
            },
            None => self.counting(Seq::empty()),
        }
    }

    /// The rows that the live tail of a pane records.
    #[verifier::opaque]
    pub open spec fn pane_rows(
        self,
        slot: PaneSlot,
        area: Rect,
        show_header: bool,
        frame: FrameModel,
    ) -> Option<u64> {
        match self.pane(slot) {
            Some(pane) => pane.frame_rows(area, frame_in(frame, area, show_header)),
            None => None,
        }
    }

    /// Whether the counters went from one state to another while the panes of a layout were drawn,
    /// one after the other.
    pub open spec fn layout_counted(
        self,
        before: QuietLedger,
        after: QuietLedger,
        layout: OwnedScreenLayout,
        parent_frame: FrameModel,
        side_frame: FrameModel,
    ) -> bool {
        let m = self.cleared_for(layout);
        match layout {
            OwnedScreenLayout::Single { slot, area, show_header } => {
                let frame = match slot {
                    PaneSlot::Parent => parent_frame,
                    PaneSlot::Side => side_frame,
                };
                ledger::drawn(
                    before,
                    after,
                    m.pane_framed(slot, area, show_header, frame).bumps,
                    m.pane_rows(slot, area, show_header, frame),
                )
            },
            OwnedScreenLayout::Split { area, parent, divider, side } => {
                let one = m.pane_framed(PaneSlot::Parent, parent, true, parent_frame);
                exists|middle: QuietLedger|
                    {
                        &&& #[trigger] ledger::drawn(
                            before,
                            middle,
                            one.bumps,
                            m.pane_rows(PaneSlot::Parent, parent, true, parent_frame),
                        )
                        &&& ledger::drawn(
                            middle,
                            after,
                            one.app.pane_framed(PaneSlot::Side, side, true, side_frame).bumps,
                            one.app.pane_rows(PaneSlot::Side, side, true, side_frame),
                        )
                    }
            },
        }
    }

    #[verifier::opaque]
    pub open spec fn pane_result(
        self,
        slot: PaneSlot,
        area: Rect,
        show_header: bool,
        frame: FrameModel,
    ) -> Option<RenderedOwnedScreen> {
        match self.pane(slot) {
            Some(pane) => pane.frame_result(area, frame_in(frame, area, show_header)),
            None => None,
        }
    }

    /// All panes of a layout drawn.
    #[verifier::opaque]
    pub open spec fn layout_shown(
        self,
        layout: OwnedScreenLayout,
        parent_frame: FrameModel,
        side_frame: FrameModel,
    ) -> AppStep {
        let m = self.cleared_for(layout);
        match layout {
            OwnedScreenLayout::Single { slot, area, show_header } => m.pane_framed(
                slot,
                area,
                show_header,
                match slot {
                    PaneSlot::Parent => parent_frame,
                    PaneSlot::Side => side_frame,
                },
            ),
            OwnedScreenLayout::Split { area, parent, divider, side } => {
                let one = m.pane_framed(PaneSlot::Parent, parent, true, parent_frame);
                let two = one.app.pane_framed(PaneSlot::Side, side, true, side_frame);
                two.app.counting(one.bumps + two.bumps)
            },
        }
    }

    /// What a layout comes to for the focused pane.
    #[verifier::opaque]
    pub open spec fn layout_result(
        self,
        layout: OwnedScreenLayout,
        parent_frame: FrameModel,
        side_frame: FrameModel,
    ) -> Option<RenderedOwnedScreen> {
        let m = self.cleared_for(layout);
        match layout {
            OwnedScreenLayout::Single { slot, area, show_header } => m.pane_result(
                slot,
                area,
                show_header,
                match slot {
                    PaneSlot::Parent => parent_frame,
                    PaneSlot::Side => side_frame,
                },
            ),
            OwnedScreenLayout::Split { area, parent, divider, side } => {
                let one = m.pane_framed(PaneSlot::Parent, parent, true, parent_frame);
                joined_result(
                    m.pane_result(PaneSlot::Parent, parent, true, parent_frame),
                    one.app.pane_result(PaneSlot::Side, side, true, side_frame),
                    self.focused,
                )
            },
        }
    }

    /// The panes about to be drawn: no reflow waits any more, and the terminal forgets the lines
    /// that it was to insert.
    pub open spec fn about_to_draw(self, size_changed: bool) -> AppModel {
        self.each(
            self.parent.with_reflow(None),
            match self.side {
                Some(side) => Some(side.with_reflow(None)),
                None => None,
            },
        ).asking_if(size_changed, Effect::RefreshStatusLine(PaneSlot::Parent)).asking_if(
            size_changed && self.side is Some,
            Effect::RefreshStatusLine(PaneSlot::Side),
        ).asking(Effect::ClearPendingHistoryLines)
    }

    /// A resize begun: the screens are due at a time, and a frame is asked for.
    pub open spec fn resize_begun(self, due: u64, debounce: u64) -> AppModel {
        self.with_screen_reflow(Some(due)).asking(Effect::ScheduleFrameIn(debounce))
    }

    /// When a draw may happen.
    pub open spec fn draw_due(self) -> Option<u64> {
        if self.has_owned_screen() {
            self.quiet_deadline()
        } else {
            None
        }
    }

    pub open spec fn draw_waits(self, now: u64) -> bool {
        self.draw_due() matches Some(due) && now < due
    }

    /// A draw asked for: it waits for the end of a resize, or ends the wait.
    pub open spec fn draw_asked(self, now: u64) -> AppModel {
        match self.draw_due() {
            None => self,
            Some(due) => if now < due {
                self.asking(Effect::ScheduleFrameIn((due - now) as u64))
            } else {
                self.with_screen_reflow(None)
            },
        }
    }

    /// The panes before a frame: under a popup nothing is selected, hovered or dragged.
    pub open spec fn ready_for_frame(self) -> AppModel {
        if self.focus().facts.no_modal_or_popup_active {
            self
        } else {
            AppModel { dragging_split: false, ..self.selections_cancelled().unhovered() }
        }
    }

    /// A header at the start of an empty conversation.
    pub open spec fn header_queued(self, header: Arc<HistoryCell>) -> AppStep {
        let width = self.focus().facts.history_wrap_width;
        if self.has_owned_screen() {
            let step = self.transcript_pushed(header).screen_pushed(header);
            step.app.asking(Effect::ScheduleFrame).counting(step.bumps)
        } else if header.lines(width, HistoryRenderMode::Rich).len() > 0 {
            AppModel { emitted: true, ..self }.asking(
                Effect::InsertCellLines { record: header.id, width },
            ).counting(Seq::empty())
        } else {
            self.counting(Seq::empty())
        }
    }

    /// The terminal asked to clear itself.
    pub open spec fn clear_asked(self, alt_screen: bool) -> AppModel {
        self.asking(Effect::ClearPendingHistoryLines).asking(
            if alt_screen {
                Effect::ClearVisibleScreen
            } else {
                Effect::ClearScrollbackAndVisibleScreen
            },
        )
    }

    /// The terminal cleared, with a header where one is to be drawn.
    pub open spec fn terminal_cleared(
        self,
        alt_screen: bool,
        viewport_top: u16,
        header: Option<Arc<HistoryCell>>,
    ) -> AppStep {
        let m = AppModel {
            emitted: false,
            ..self.clear_asked(alt_screen).asking_if(
                viewport_top > 0,
                Effect::AnchorViewportAtTop,
            )
        };
        match header {
            Some(cell) => m.header_queued(cell),
            None => m.counting(Seq::empty()),
        }
    }
}

/// Whether a cell is the one that the host makes of the header of a session and a version.
pub open spec fn is_header_cell<F: Fn(SessionHeader) -> Arc<HistoryCell>>(
    make_cell: F,
    session: SessionFacts,
    version: Seq<char>,
    cell: Arc<HistoryCell>,
) -> bool {
    exists|header: SessionHeader|
        header_matches(header, session, version) && #[trigger] call_ensures(
            make_cell,
            (header,),
            cell,
        )
}

impl App {
    /// The screen of a pane, where the terminal is owned.
    pub fn owned_screen_for_behavior(
        alt_screen_behavior: AltScreenBehavior,
        render_mode: HistoryRenderMode,
    ) -> (r: Option<OwnedScreen>)
        ensures
            r is Some == (alt_screen_behavior == AltScreenBehavior::Owned),
            r matches Some(screen) ==> screen.wf() && screen@.view.mode == render_mode
                && screen@.sources.len() == 0 && screen@.compact == (render_mode
                == HistoryRenderMode::Rich),
    {
        match alt_screen_behavior {
            AltScreenBehavior::Disabled => None,
            AltScreenBehavior::Owned => Some(OwnedScreen::new(render_mode)),
        }
    }

    /// The header of the session for a version.
    pub fn clear_ui_header_cell(&self, version: &str) -> (r: SessionHeader)
        ensures
            header_matches(r, self.session, version@),
    {
        SessionHeader {
            model: self.session.model.clone(),
            reasoning_effort: text::copy_option(&self.session.reasoning_effort),
            show_fast_status: self.session.show_fast_status,
            cwd: self.session.cwd.clone(),
            version: text::owned(version),
            yolo_mode: self.session.yolo_mode,
        }
    }

    /// The lines of the header for a version, as the host lays it out.
    pub fn clear_ui_header_lines_with_version<F: Fn(SessionHeader, u16) -> Vec<String>>(
        &self,
        width: u16,
        version: &str,
        lay_out: F,
    ) -> (r: Vec<String>)
        requires
            forall|header: SessionHeader| call_requires(lay_out, (header, width)),
        ensures
            exists|header: SessionHeader|
                header_matches(header, self.session, version@) && #[trigger] call_ensures(
                    lay_out,
                    (header, width),
                    r,
                ),
    {
        let header = self.clear_ui_header_cell(version);
        lay_out(header, width)
    }

    /// The lines of the header for the running version.
    pub fn clear_ui_header_lines<F: Fn(SessionHeader, u16) -> Vec<String>>(
        &self,
        width: u16,
        display_version: &str,
        lay_out: F,
    ) -> (r: Vec<String>)
        requires
            forall|header: SessionHeader| call_requires(lay_out, (header, width)),
        ensures
            exists|header: SessionHeader|
                header_matches(header, self.session, display_version@) && #[trigger] call_ensures(
                    lay_out,
                    (header, width),
                    r,
                ),
    {
        self.clear_ui_header_lines_with_version(width, display_version, lay_out)
    }

    /// Shows the header of the session for a version at the start of an empty conversation.
    /// `make_cell` is the cell that the host makes of it.
    pub fn queue_clear_ui_header<F: Fn(SessionHeader) -> Arc<HistoryCell>>(
        &mut self,
        version: &str,
        make_cell: F,
    )
        requires
            old(self).wf(),
            forall|header: SessionHeader| call_requires(make_cell, (header,)),
        ensures
            final(self).wf(),
            exists|cell: Arc<HistoryCell>|
                {
                    let step = old(self)@.header_queued(cell);
                    &&& #[trigger] is_header_cell(make_cell, old(self).session, version@, cell)
                    &&& final(self)@ == step.app
                    &&& final(self).counted_from(old(self), step.bumps)
                },
    {
        let header = self.clear_ui_header_cell(version);
        let ghost session = self.session;
        let ghost shown = header;
        let cell = make_cell(header);
        proof {
            assert(call_ensures(make_cell, (shown,), cell));
            assert(is_header_cell(make_cell, session, version@, cell));
        }
        self.show_header(cell);
    }

    fn show_header(&mut self, header: Arc<HistoryCell>)
        requires
            old(self).wf(),
        ensures
            final(self).wf(),
            final(self)@ == old(self)@.header_queued(header).app,
            final(self).counted_from(old(self), old(self)@.header_queued(header).bumps),
    {
        proof {
            ledger::lemma_counted_nothing(self.metrics);
        }
        if self.has_owned_screen() {
            self.push_transcript(&header);
            self.owned_screen_push_cell(header);
            self.ask(Effect::ScheduleFrame);
            return;
        }
        let width = self.focus().facts.history_wrap_width;
        let lines = header.display_lines_for_mode(width, HistoryRenderMode::Rich);
        proof {
            assert(lines@.len() == text::views(lines@).len());
        }
        if lines.len() > 0 {
            self.ask(Effect::InsertCellLines { record: header.id, width });
            self.has_emitted_history_lines = true;
        }
    }

    /// Clears the terminal. `cleared` is what came of clearing it, and `viewport_top` the row at
    /// which the viewport starts. The header of the session is drawn where it is asked for.
    pub fn clear_terminal_ui<F: Fn(SessionHeader) -> Arc<HistoryCell>>(
        &mut self,
        alt_screen: bool,
        cleared: bool,
        viewport_top: u16,
        redraw_header: bool,
        version: &str,
        make_cell: F,
    ) -> (r: Result<(), ClearFailed>)
        requires
            old(self).wf(),
            forall|header: SessionHeader| call_requires(make_cell, (header,)),
        ensures
            final(self).wf(),
            r is Ok == cleared,
            !cleared ==> final(self)@ == old(self)@.clear_asked(alt_screen),
            !cleared ==> final(self).kept_books(old(self)),
            cleared && !redraw_header ==> ({
                let step = old(self)@.terminal_cleared(alt_screen, viewport_top, None);
                &&& final(self)@ == step.app
                &&& final(self).counted_from(old(self), step.bumps)
            }),
            cleared && redraw_header ==> exists|cell: Arc<HistoryCell>|
                {
                    let step = old(self)@.terminal_cleared(alt_screen, viewport_top, Some(cell));
                    &&& #[trigger] is_header_cell(make_cell, old(self).session, version@, cell)
                    &&& final(self)@ == step.app
                    &&& final(self).counted_from(old(self), step.bumps)
                },
    {
        proof {
            ledger::lemma_counted_nothing(self.metrics);
        }
        self.ask(Effect::ClearPendingHistoryLines);
        if alt_screen {
            self.ask(Effect::ClearVisibleScreen);
        } else {
            self.ask(Effect::ClearScrollbackAndVisibleScreen);
        }
        if !cleared {
            return Err(ClearFailed);
        }
        self.ask_if(viewport_top > 0, Effect::AnchorViewportAtTop);
        self.has_emitted_history_lines = false;
        if redraw_header {
            self.queue_clear_ui_header(version, make_cell);
        }
        Ok(())
    }

    /// Leaves the overlay, and forgets the conversation.
    pub fn reset_app_ui_state_after_clear(&mut self)
        requires
            old(self).wf(),
        ensures
            final(self).wf(),
            ({
                let left = old(self)@.asking_if(
                    !(old(self)@.overlay is Closed),
                    Effect::LeaveAltScreen,
                );
                &&& final(self)@ == left.reset().app
                &&& final(self).counted_from(old(self), left.reset().bumps)
            }),
    {
        let open = !self.overlay_is_closed();
        self.ask_if(open, Effect::LeaveAltScreen);
        self.reset_transcript_state_after_clear();
    }

    /// Forgets the conversation and everything about it.
    pub fn reset_transcript_state_after_clear(&mut self)
        requires
            old(self).wf(),
        ensures
            final(self).wf(),
            final(self)@ == old(self)@.reset().app,
            final(self).counted_from(old(self), old(self)@.reset().bumps),
    {
        proof {
            reveal(AppModel::reset);
        }
        match self.focused {
            PaneSlot::Parent => {
                self.parent.reset(&mut self.metrics);
            },
            PaneSlot::Side => match &mut self.side {
                Some(side) => {
                    side.reset(&mut self.metrics);
                },
                None => {},
            },
        }
        self.overlay = Overlay::Closed;
        self.deferred_history_lines.clear();
        self.skill_load_warnings.clear();
        self.has_emitted_history_lines = false;
        self.scrollback_has_older_history = false;
        self.backtrack_primed = false;
        self.backtrack_render_pending = false;
        proof {
            assert(text::views(self.deferred_history_lines@) =~= Seq::empty());
            assert(text::views(self.skill_load_warnings@) =~= Seq::empty());
        }
        self.ask(Effect::ClearPendingHistoryCommits);
        self.ask(Effect::ClearPendingUsageRefreshes);
        self.ask(Effect::SyncActiveAgentLabel);
    }

    fn render_pane(
        &mut self,
        slot: PaneSlot,
        area: Rect,
        show_header: bool,
        frame: Frame,
    ) -> (r: Option<RenderedOwnedScreen>)
        requires
            old(self).wf(),
        ensures
            final(self).wf(),
            final(self)@ == old(self)@.pane_framed(slot, area, show_header, frame@).app,
            final(self).session == old(self).session,
            ledger::drawn(
                old(self).metrics,
                final(self).metrics,
                old(self)@.pane_framed(slot, area, show_header, frame@).bumps,
                old(self)@.pane_rows(slot, area, show_header, frame@),
            ),
            r == old(self)@.pane_result(slot, area, show_header, frame@),
    {
        proof {
            reveal(AppModel::pane_framed);
            reveal(AppModel::pane_result);
            reveal(AppModel::pane_rows);
            ledger::lemma_counted_nothing(self.metrics);
            ledger::lemma_drawn_of_counted(self.metrics, self.metrics, Seq::empty());
        }
        let ghost facts = frame@;
        let mut inner = frame;
        inner.area = owned_screen::pane_body_area(area, show_header);
        proof {
            assert(inner@ == frame_in(facts, area, show_header));
        }
        match slot {
            PaneSlot::Parent => self.parent.render(&mut self.metrics, area, inner),
            PaneSlot::Side => match &mut self.side {
                Some(side) => side.render(&mut self.metrics, area, inner),
                None => None,
            },
        }
    }

    /// Draws the panes of a layout. A pane that is not shown loses its selection and its hover.
    pub fn render_layout(
        &mut self,
        layout: OwnedScreenLayout,
        parent_frame: Frame,
        side_frame: Frame,
    ) -> (r: Option<RenderedOwnedScreen>)
        requires
            old(self).wf(),
        ensures
            final(self).wf(),
            final(self)@ == old(self)@.layout_shown(layout, parent_frame@, side_frame@).app,
            final(self).session == old(self).session,
            old(self)@.layout_counted(
                old(self).metrics,
                final(self).metrics,
                layout,
                parent_frame@,
                side_frame@,
            ),
            r == old(self)@.layout_result(layout, parent_frame@, side_frame@),
    {
        proof {
            reveal(AppModel::layout_shown);
            reveal(AppModel::layout_result);
        }
        let ghost begin = self@;
        let ghost counters = self.metrics;
        let (parent_visible, side_visible) = match layout {
            OwnedScreenLayout::Single { slot, area: _, show_header: _ } => match slot {
                PaneSlot::Parent => (true, false),
                PaneSlot::Side => (false, true),
            },
            OwnedScreenLayout::Split { area: _, parent: _, divider: _, side: _ } => (true, true),
        };
        self.parent.clear_for_layout(parent_visible);
        if let Some(side) = &mut self.side {
            side.clear_for_layout(side_visible);
        }
        let ghost m = self@;
        proof {
            assert(m == begin.cleared_for(layout));
        }
        match layout {
            OwnedScreenLayout::Single { slot, area, show_header } => {
                let frame = match slot {
                    PaneSlot::Parent => parent_frame,
                    PaneSlot::Side => side_frame,
                };
                self.render_pane(slot, area, show_header, frame)
            },
            OwnedScreenLayout::Split { area: _, parent, divider: _, side } => {
                let ghost first = parent_frame@;
                let focused = self.focused;
                let parent_rendered = self.render_pane(
                    PaneSlot::Parent,
                    parent,
                    true,
                    parent_frame,
                );
                let ghost middle = self.metrics;
                let side_rendered = self.render_pane(PaneSlot::Side, side, true, side_frame);
                proof {
                    let one = m.pane_framed(PaneSlot::Parent, parent, true, first);
                    assert(ledger::drawn(
                        counters,
                        middle,
                        one.bumps,
                        m.pane_rows(PaneSlot::Parent, parent, true, first),
                    ));
                }
                join_results(parent_rendered, side_rendered, focused)
            },
        }
    }

    /// Draws the panes where the terminal is owned, and returns the area that was drawn.
    pub fn render_owned_screen_frame(
        &mut self,
        layout: OwnedScreenLayout,
        parent_frame: Frame,
        side_frame: Frame,
    ) -> (r: Option<Rect>)
        requires
            old(self).wf(),
        ensures
            final(self).wf(),
            !old(self)@.has_owned_screen() ==> r is None && final(self)@ == old(self)@
                && final(self).kept_books(old(self)),
            old(self)@.has_owned_screen() ==> ({
                let ready = old(self)@.ready_for_frame();
                let step = ready.layout_shown(layout, parent_frame@, side_frame@);
                let result = ready.layout_result(layout, parent_frame@, side_frame@);
                &&& r == Some(layout.whole_area())
                &&& final(self)@ == step.app.asking_if(
                    result matches Some(rendered) && rendered.selection_autoscroll_active,
                    Effect::ScheduleFrameSoon,
                )
                &&& final(self).session == old(self).session
                &&& ready.layout_counted(
                    old(self).metrics,
                    final(self).metrics,
                    layout,
                    parent_frame@,
                    side_frame@,
                )
            }),
    {
        if !self.has_owned_screen() {
            return None;
        }
        if !self.focus().facts.no_modal_or_popup_active {
            self.split_is_dragging = false;
            let _ = self.cancel_owned_screen_selection();
            let _ = self.clear_owned_screen_tool_group_hover();
        }
        let rendered = self.render_layout(layout, parent_frame, side_frame);
        let autoscrolls = match rendered {
            Some(rendered) => rendered.selection_autoscroll_active,
            None => false,
        };
        self.ask_if(autoscrolls, Effect::ScheduleFrameSoon);
        Some(
            match layout {
                OwnedScreenLayout::Single { slot: _, area, show_header: _ } => area,
                OwnedScreenLayout::Split { area, parent: _, divider: _, side: _ } => area,
            },
        )
    }

    /// The rows of all composers on the screen.
    pub fn activity_bottom_band(&self) -> (r: Option<Rect>)
        ensures
            r == self@.activity_band(),
    {
        let parent = self.parent.bottom_area();
        let side = match &self.side {
            Some(side) => side.bottom_area(),
            None => Rect { x: 0, y: 0, width: 0, height: 0 },
        };
        if parent.is_empty() {
            return if side.is_empty() {
                None
            } else {
                Some(side)
            };
        }
        if side.is_empty() {
            return Some(parent);
        }
        let x: u16 = if parent.x <= side.x {
            parent.x
        } else {
            side.x
        };
        let y: u16 = if parent.y <= side.y {
            parent.y
        } else {
            side.y
        };
        let right: u16 = if parent.right() >= side.right() {
            parent.right()
        } else {
            side.right()
        };
        let bottom: u16 = if parent.bottom() >= side.bottom() {
            parent.bottom()
        } else {
            side.bottom()
        };
        Some(Rect::new(x, y, right.saturating_sub(x), bottom.saturating_sub(y)))
    }

    /// Draws only the rows of the composers. `drawn` is what came of drawing them.
    pub fn render_owned_activity_frame(&mut self, drawn: bool) -> (r: bool)
        requires
            old(self).wf(),
        ensures
            final(self).wf(),
            final(self).kept_books(old(self)),
            match old(self)@.activity_band() {
                Some(area) => r == drawn && final(self)@ == old(self)@.asking(
                    Effect::RefreshTerminalTitle(old(self)@.focused),
                ).asking(Effect::DrawPartial(area)),
                None => !r && final(self)@ == old(self)@,
            },
    {
        let area = match self.activity_bottom_band() {
            Some(area) => area,
            None => return false,
        };
        let focused = self.focused;
        self.ask(Effect::RefreshTerminalTitle(focused));
        self.ask(Effect::DrawPartial(area));
        drawn
    }

    /// Gets the panes ready for a draw where the terminal is owned.
    pub fn handle_owned_draw_pre_render(&mut self, size_changed: bool) -> (r: bool)
        requires
            old(self).wf(),
        ensures
            final(self).wf(),
            final(self).kept_books(old(self)),
            r == old(self)@.has_owned_screen(),
            !r ==> final(self)@ == old(self)@,
            r ==> final(self)@ == old(self)@.about_to_draw(size_changed),
    {
        if !self.has_owned_screen() {
            return false;
        }
        self.ask_if(size_changed, Effect::RefreshStatusLine(PaneSlot::Parent));
        self.parent.set_reflow(None);
        let has_side = self.side.is_some();
        self.ask_if(size_changed && has_side, Effect::RefreshStatusLine(PaneSlot::Side));
        if let Some(side) = &mut self.side {
            side.set_reflow(None);
        }
        self.ask(Effect::ClearPendingHistoryLines);
        true
    }

    fn set_screen_reflow(&mut self, reflow: Option<u64>)
        requires
            old(self).wf(),
        ensures
            final(self).wf(),
            final(self)@ == old(self)@.with_screen_reflow(reflow),
            final(self).kept_books(old(self)),
    {
        if self.parent.has_owned_screen() {
            self.parent.set_reflow(reflow);
        }
        if let Some(side) = &mut self.side {
            if side.has_owned_screen() {
                side.set_reflow(reflow);
            }
        }
    }

    /// Waits with drawing until a resize is over. The panes are due at `due`, and a frame is
    /// scheduled after `debounce`.
    pub fn schedule_owned_resize_draw(&mut self, due: u64, debounce: u64) -> (r: bool)
        requires
            old(self).wf(),
        ensures
            final(self).wf(),
            final(self).kept_books(old(self)),
            r == old(self)@.has_owned_screen(),
            final(self)@ == (if r {
                old(self)@.resize_begun(due, debounce)
            } else {
                old(self)@
            }),
    {
        if !self.has_owned_screen() {
            return false;
        }
        self.set_screen_reflow(Some(due));
        self.ask(Effect::ScheduleFrameIn(debounce));
        true
    }

    fn quiet_deadline(&self) -> (r: Option<u64>)
        ensures
            r == self@.quiet_deadline(),
    {
        let parent = if self.parent.has_owned_screen() {
            self.parent.reflow_pending_until
        } else {
            None
        };
        let side = match &self.side {
            Some(side) => if side.has_owned_screen() {
                side.reflow_pending_until
            } else {
                None
            },
            None => None,
        };
        match (parent, side) {
            (Some(a), Some(b)) => if a >= b {
                Some(a)
            } else {
                Some(b)
            },
            (Some(a), None) => Some(a),
            (None, b) => b,
        }
    }

    /// Whether a draw has to wait for a resize to be over. A draw that is due no longer waits.
    pub fn defer_owned_draw_until_resize_quiet(&mut self, now: u64) -> (r: bool)
        requires
            old(self).wf(),
        ensures
            final(self).wf(),
            final(self).kept_books(old(self)),
            r == old(self)@.draw_waits(now),
            final(self)@ == old(self)@.draw_asked(now),
    {
        if !self.has_owned_screen() {
            return false;
        }
        let due = match self.quiet_deadline() {
            Some(due) => due,
            None => return false,
        };
        if now < due {
            self.ask(Effect::ScheduleFrameIn(due - now));
            return true;
        }
        self.set_screen_reflow(None);
        false
    }
}

fn join_results(
    parent: Option<RenderedOwnedScreen>,
    side: Option<RenderedOwnedScreen>,
    focused: PaneSlot,
) -> (r: Option<RenderedOwnedScreen>)
    ensures
        r == joined_result(parent, side, focused),
{
    let parent_active = match parent {
        Some(rendered) => rendered.selection_autoscroll_active,
        None => false,
    };
    let side_active = match side {
        Some(rendered) => rendered.selection_autoscroll_active,
        None => false,
    };
    let chosen = match focused {
        PaneSlot::Parent => parent,
        PaneSlot::Side => side,
    };
    match chosen {
        Some(rendered) => Some(
            RenderedOwnedScreen {
                conversation_area: rendered.conversation_area,
                bottom_area: rendered.bottom_area,
                show_newer_hint: rendered.show_newer_hint,
                selection_autoscroll_active: parent_active || side_active,
            },
        ),
        None => None,
    }
}

impl Pane {
    /// Gets the pane ready for a layout.
    pub fn clear_for_layout(&mut self, visible: bool)
        requires
            old(self).wf(),
        ensures
            final(self).wf(),
            final(self)@ == old(self)@.cleared_for(visible),
    {
        proof {
            reveal(Pane::wf);
            reveal(pane::screen_option);
        }
        match &mut self.owned_screen {
            Some(screen) => {
                if !visible {
                    screen.cancel_selection();
                    let _ = screen.clear_tool_group_hover();
                }
                screen.clear_last_render_areas();
            },
            None => {},
        }
    }

    /// Draws the pane in an area.
    pub fn render(&mut self, metrics: &mut QuietLedger, area: Rect, frame: Frame) -> (r: Option<
        RenderedOwnedScreen,
    >)
        requires
            old(self).wf(),
        ensures
            final(self).wf(),
            final(self)@ == old(self)@.framed(area, frame@).pane,
            ledger::drawn(
                *old(metrics),
                *final(metrics),
                old(self)@.framed(area, frame@).bumps,
                old(self)@.frame_rows(area, frame@),
            ),
            r == old(self)@.frame_result(area, frame@),
    {
        proof {
            reveal(Pane::wf);
            reveal(pane::screen_option);
            reveal(PaneModel::framed);
            reveal(PaneModel::frame_result);
            reveal(PaneModel::frame_rows);
            ledger::lemma_counted_nothing(*metrics);
            ledger::lemma_drawn_of_counted(*metrics, *metrics, Seq::empty());
        }
        match &mut self.owned_screen {
            Some(screen) => {
                screen.last_pane_area = area;
                Some(screen.render(metrics, frame))
            },
            None => None,
        }
    }
}

} // verus!
