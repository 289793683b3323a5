//! How the application routes the pointer and the keys that move a view.

use vstd::prelude::*;

use crate::app::App;
use crate::app_model::AppModel;
use crate::app_model::Effect;
use crate::app_model::MousePrimaryEventKind;
use crate::app_model::PaneSlot;
use crate::geometry::Position;
use crate::ledger;
use crate::owned_screen::NavigationKey;
use crate::pager_content::MouseScrollDirection;
use crate::pane::DragFacts;
use crate::pane::Pane;
use crate::viewport_model::RestoredSelection;

verus! {

impl App {
    /// The pane at a slot.
    pub fn by_slot(&self, slot: PaneSlot) -> (r: Option<&Pane>)
        requires
            self.wf(),
        ensures
            match r {
                Some(pane) => pane.wf() && self@.pane(slot) == Some(pane@),
                None => self@.pane(slot) is None,
            },
    {
        match slot {
            PaneSlot::Parent => Some(&self.parent),
            PaneSlot::Side => match &self.side {
                Some(side) => Some(side),
                None => None,
            },
        }
    }

    /// Cancels the selections in all panes, and says whether there was one.
    pub fn cancel_owned_screen_selection(&mut self) -> (r: bool)
        requires
            old(self).wf(),
        ensures
            final(self).wf(),
            final(self)@ == old(self)@.selections_cancelled(),
            final(self).kept_books(old(self)),
            r == old(self)@.selects(),
    {
        let mut canceled = self.parent.cancel_selection();
        if let Some(side) = &mut self.side {
            if side.cancel_selection() {
                canceled = true;
            }
        }
        canceled
    }

    /// Clears the hover in all panes, and says whether anything was hovered.
    pub fn clear_owned_screen_tool_group_hover(&mut self) -> (r: bool)
        requires
            old(self).wf(),
        ensures
            final(self).wf(),
            final(self)@ == old(self)@.unhovered(),
            final(self).kept_books(old(self)),
            r == old(self)@.hovers(),
    {
        let mut changed = self.parent.clear_hover();
        if let Some(side) = &mut self.side {
            if side.clear_hover() {
                changed = true;
            }
        }
        changed
    }

    fn selecting_slot(&self) -> (r: Option<PaneSlot>)
        ensures
            r == self@.selecting_slot(),
    {
        if self.parent.selection_is_active() {
            return Some(PaneSlot::Parent);
        }
        match &self.side {
            Some(side) => if side.selection_is_active() {
                Some(PaneSlot::Side)
            } else {
                None
            },
            None => None,
        }
    }

    fn scroll_slot(&self, position: Position) -> (r: Option<PaneSlot>)
        ensures
            r == self@.scroll_slot(position),
    {
        let selecting = self.selecting_slot();
        if selecting.is_some() {
            return selecting;
        }
        if self.parent.facts.no_modal_or_popup_active && self.parent.takes_scroll(position) {
            return Some(PaneSlot::Parent);
        }
        match &self.side {
            Some(side) => if side.facts.no_modal_or_popup_active && side.takes_scroll(position) {
                Some(PaneSlot::Side)
            } else {
                None
            },
            None => None,
        }
    }

    /// Handles a turn of the wheel by the given rows.
    pub fn handle_owned_screen_mouse_scroll(
        &mut self,
        direction: MouseScrollDirection,
        rows: usize,
        position: Position,
        drag: DragFacts,
    ) -> (r: bool)
        requires
            old(self).wf(),
        ensures
            final(self).wf(),
            final(self)@ == old(self)@.wheeled(direction, rows, position, drag),
            final(self).kept_books(old(self)),
            r == (old(self)@.dragging_split || old(self)@.scroll_slot(position) is Some),
    {
        if self.split_is_dragging {
            return true;
        }
        match self.scroll_slot(position) {
            Some(PaneSlot::Parent) => {
                let _ = self.parent.handle_mouse_scroll(direction, rows, position, drag);
            },
            Some(PaneSlot::Side) => {
                if let Some(side) = &mut self.side {
                    let _ = side.handle_mouse_scroll(direction, rows, position, drag);
                }
            },
            None => {
                return false;
            },
        }
        self.ask(Effect::ScheduleFrameSoon);
        true
    }

    fn hover_slot(&self, position: Position) -> (r: Option<PaneSlot>)
        ensures
            r == self@.hover_slot(position),
    {
        if self.parent.facts.no_modal_or_popup_active && self.parent.covers(position) {
            return Some(PaneSlot::Parent);
        }
        match &self.side {
            Some(side) => if side.facts.no_modal_or_popup_active && side.covers(position) {
                Some(PaneSlot::Side)
            } else {
                None
            },
            None => None,
        }
    }

    fn hover_pane(pane: &mut Pane, hovered: bool, position: Position) -> (r: bool)
        requires
            old(pane).wf(),
        ensures
            final(pane).wf(),
            final(pane)@ == (if hovered {
                old(pane)@.hovered_at(position)
            } else {
                old(pane)@.unhovered()
            }),
            r == (if hovered {
                old(pane)@.hover_changes_at(position)
            } else {
                old(pane)@.hovers()
            }),
    {
        if hovered {
            pane.update_hover(position)
        } else {
            pane.clear_hover()
        }
    }

    /// Handles a move of the pointer, and says whether what is hovered changed.
    pub fn handle_owned_screen_mouse_move(&mut self, position: Position) -> (r: bool)
        requires
            old(self).wf(),
        ensures
            final(self).wf(),
            final(self)@ == old(self)@.pointer_moved(position),
            final(self).kept_books(old(self)),
            r == old(self)@.move_changes(position),
    {
        if !self.overlay_is_closed() {
            let changed = self.clear_owned_screen_tool_group_hover();
            self.ask_if(changed, Effect::ScheduleFrame);
            return changed;
        }
        let target = self.hover_slot(position);
        let over_parent = match target {
            Some(PaneSlot::Parent) => true,
            _ => false,
        };
        let over_side = match target {
            Some(PaneSlot::Side) => true,
            _ => false,
        };
        let mut changed = Self::hover_pane(&mut self.parent, over_parent, position);
        if let Some(side) = &mut self.side {
            if Self::hover_pane(side, over_side, position) {
                changed = true;
            }
        }
        self.ask_if(changed, Effect::ScheduleFrameSoon);
        changed
    }

    fn slot_at(&self, position: Position) -> (r: Option<PaneSlot>)
        ensures
            r == self@.slot_at(position),
    {
        if self.parent.covers(position) {
            return Some(PaneSlot::Parent);
        }
        match &self.side {
            Some(side) => if side.covers(position) {
                Some(PaneSlot::Side)
            } else {
                None
            },
            None => None,
        }
    }

    fn drag(&mut self, position: Position, drag: DragFacts) -> (r: bool)
        requires
            old(self).wf(),
        ensures
            final(self).wf(),
            final(self)@ == old(self)@.dragged(position, drag),
            final(self).kept_books(old(self)),
            r == (old(self)@.selecting_slot() matches Some(slot) && old(self)@.pane(
                slot,
            )->0.selection_drags(drag.restored)),
    {
        let handled = match self.selecting_slot() {
            Some(PaneSlot::Parent) => self.parent.update_selection(position, drag),
            Some(PaneSlot::Side) => match &mut self.side {
                Some(side) => side.update_selection(position, drag),
                None => false,
            },
            None => return false,
        };
        self.ask_if(handled, Effect::ScheduleFrameSoon);
        handled
    }

    fn release(
        &mut self,
        position: Position,
        restored: Option<RestoredSelection>,
        selected: Option<String>,
    ) -> (r: (bool, Option<String>))
        requires
            old(self).wf(),
        ensures
            final(self).wf(),
            ({
                let step = old(self)@.released(position, restored, selected is Some);
                &&& final(self)@ == step.app
                &&& final(self).counted_from(old(self), step.bumps)
            }),
            r.0 == (old(self)@.selecting_slot() is Some),
            r.1 == (if r.0 {
                selected
            } else {
                None
            }),
    {
        proof {
            ledger::lemma_counted_nothing(self.metrics);
        }
        let slot = match self.selecting_slot() {
            Some(slot) => slot,
            None => return (false, None),
        };
        let copied = match slot {
            PaneSlot::Parent => self.parent.finish_selection(
                &mut self.metrics,
                position,
                restored,
                selected,
            ),
            PaneSlot::Side => match &mut self.side {
                Some(side) => side.finish_selection(
                    &mut self.metrics,
                    position,
                    restored,
                    selected,
                ),
                None => None,
            },
        };
        self.ask_if(copied.is_some(), Effect::CopySelectedText(slot));
        self.ask(Effect::ScheduleFrame);
        (true, copied)
    }

    fn clear_hover_but(&mut self, slot: PaneSlot) -> (r: bool)
        requires
            old(self).wf(),
        ensures
            final(self).wf(),
            final(self)@ == old(self)@.unhovered_but(slot),
            final(self).kept_books(old(self)),
            r == old(self)@.hovers_but(slot),
    {
        match slot {
            PaneSlot::Parent => match &mut self.side {
                Some(side) => side.clear_hover(),
                None => false,
            },
            PaneSlot::Side => self.parent.clear_hover(),
        }
    }

    fn press_pane(
        pane: &mut Pane,
        position: Position,
        restored: Option<RestoredSelection>,
    ) -> (r: bool)
        requires
            old(pane).wf(),
        ensures
            final(pane).wf(),
            final(pane)@ == (if old(pane)@.facts.no_modal_or_popup_active {
                old(pane)@.selection_begun(position, restored)
            } else {
                old(pane)@
            }),
            r == (old(pane)@.facts.no_modal_or_popup_active && old(pane)@.selection_begins(
                position,
            )),
    {
        if pane.facts.no_modal_or_popup_active {
            pane.begin_selection(position, restored)
        } else {
            false
        }
    }

    fn begin_press(
        &mut self,
        slot: PaneSlot,
        position: Position,
        restored: Option<RestoredSelection>,
    ) -> (r: bool)
        requires
            old(self).wf(),
            old(self)@.pane(slot) is Some,
        ensures
            final(self).wf(),
            final(self)@ == old(self)@.press_begun(slot, position, restored),
            final(self).kept_books(old(self)),
            r == old(self)@.press_begins(slot, position),
    {
        match slot {
            PaneSlot::Parent => Self::press_pane(&mut self.parent, position, restored),
            PaneSlot::Side => match &mut self.side {
                Some(side) => Self::press_pane(side, position, restored),
                None => false,
            },
        }
    }

    fn press(
        &mut self,
        position: Position,
        restored: Option<RestoredSelection>,
        takes_focus: bool,
    ) -> (r: bool)
        requires
            old(self).wf(),
        ensures
            final(self).wf(),
            final(self)@ == old(self)@.pressed(position, restored, takes_focus),
            final(self).kept_books(old(self)),
            r == (takes_focus && old(self)@.selections_cancelled().slot_at(position) is Some),
    {
        proof {
            reveal(AppModel::pressed);
        }
        let selection_canceled = self.cancel_owned_screen_selection();
        let target = match self.slot_at(position) {
            Some(target) => target,
            None => {
                let hover_cleared = self.clear_owned_screen_tool_group_hover();
                self.ask_if(selection_canceled || hover_cleared, Effect::ScheduleFrame);
                return false;
            },
        };
        let hover_cleared = self.clear_hover_but(target);
        let selection_started = self.begin_press(target, position, restored);
        let focus_changed = self.focused != target;
        let backtrack_was_primed = self.backtrack_primed;
        if !takes_focus {
            self.ask_if(selection_canceled || hover_cleared, Effect::ScheduleFrame);
            return false;
        }
        self.focused = target;
        self.backtrack_primed = false;
        self.ask_if(
            selection_started || selection_canceled || hover_cleared || focus_changed
                || backtrack_was_primed,
            Effect::ScheduleFrame,
        );
        true
    }

    /// Handles the primary button. `split` is what the divider between the panes made of the
    /// event, if it took it: whether it is being dragged now. `selected` is the text that a
    /// selection covers when the button is released, and `takes_focus` says whether the pane
    /// under the pointer can take the focus. Returns whether the event was handled, and the text
    /// to copy.
    pub fn handle_owned_screen_mouse_primary(
        &mut self,
        kind: MousePrimaryEventKind,
        position: Position,
        split: Option<bool>,
        drag: DragFacts,
        selected: Option<String>,
        takes_focus: bool,
    ) -> (r: (bool, Option<String>))
        requires
            old(self).wf(),
        ensures
            final(self).wf(),
            ({
                let m = old(self)@;
                let step = m.primary(kind, position, split, drag, selected is Some, takes_focus);
                &&& final(self)@ == step.app
                &&& if !m.pointer_blocked() && split is None && kind
                    == MousePrimaryEventKind::Release {
                    final(self).counted_from(old(self), step.bumps)
                } else {
                    final(self).kept_books(old(self))
                }
                &&& r.0 == m.primary_taken(kind, position, split, drag, takes_focus)
                &&& r.1 == (if m.primary_copies(kind, split) {
                    selected
                } else {
                    None
                })
            }),
    {
        if !self.overlay_is_closed() || !self.focus().facts.no_modal_or_popup_active {
            let split_canceled = self.split_is_dragging;
            self.split_is_dragging = false;
            let selection_canceled = self.cancel_owned_screen_selection();
            let hover_cleared = self.clear_owned_screen_tool_group_hover();
            self.ask_if(
                split_canceled || selection_canceled || hover_cleared,
                Effect::ScheduleFrame,
            );
            return (false, None);
        }
        if let Some(dragging) = split {
            self.split_is_dragging = dragging;
            let _ = self.cancel_owned_screen_selection();
            let _ = self.clear_owned_screen_tool_group_hover();
            match kind {
                MousePrimaryEventKind::Drag => {
                    self.ask(Effect::ScheduleFrameSoon);
                },
                MousePrimaryEventKind::Press => {
                    self.ask(Effect::ScheduleFrame);
                },
                MousePrimaryEventKind::Release => {
                    self.ask(Effect::ScheduleFrame);
                },
            }
            return (true, None);
        }
        match kind {
            MousePrimaryEventKind::Drag => (self.drag(position, drag), None),
            MousePrimaryEventKind::Release => self.release(position, drag.restored, selected),
            MousePrimaryEventKind::Press => (
                self.press(position, drag.restored, takes_focus),
                None,
            ),
        }
    }

    /// Handles a key that may move the view of the focused pane.
    pub fn handle_owned_screen_navigation_key(
        &mut self,
        key: NavigationKey,
        target: Option<usize>,
    ) -> (r: bool)
        requires
            old(self).wf(),
        ensures
            final(self).wf(),
            final(self).kept_books(old(self)),
            r == old(self)@.focus().navigates(key, target),
            final(self)@ == (if r {
                old(self)@.with_focus(old(self)@.focus().navigated(target->0)).asking(
                    Effect::ScheduleFrameSoon,
                )
            } else {
                old(self)@
            }),
    {
        let handled = match self.focused {
            PaneSlot::Parent => self.parent.handle_navigation_key(key, target),
            PaneSlot::Side => match &mut self.side {
                Some(side) => side.handle_navigation_key(key, target),
                None => false,
            },
        };
        self.ask_if(handled, Effect::ScheduleFrameSoon);
        handled
    }
}

} // verus!
