//! Laws of the pointer and the keys: which pane takes an event, what is hovered, pressed and
//! scrolled, and what stays as it is.

use vstd::prelude::*;

use crate::app_model::AppModel;
use crate::app_model::Effect;
use crate::app_model::MousePrimaryEventKind;
use crate::app_model::PaneSlot;
use crate::compact_tool_groups::ShownCell;
use crate::geometry::Position;
use crate::geometry::Rect;
use crate::owned_screen::NavigationKey;
use crate::pager_content::MouseScrollDirection;
use crate::pane::DragFacts;
use crate::pane::PaneModel;
use crate::screen_model::ScreenModel;
use crate::viewport_model::RestoredSelection;
use crate::viewport_model::ViewportModel;

verus! {

/// Whether a position is one of the cells of an area.
pub open spec fn inside(area: Rect, position: Position) -> bool {
    &&& area.x <= position.x
    &&& position.x - area.x < area.width
    &&& area.y <= position.y
    &&& position.y - area.y < area.height
}

/// Whether the far edges of an area are coordinates.
pub open spec fn on_screen(area: Rect) -> bool {
    area.x + area.width <= u16::MAX && area.y + area.height <= u16::MAX
}

/// The row of a group is where the pointer finds the first row of its Work cell; nowhere else, and
/// not where groups are not folded, is there one.
pub proof fn law_group_row_is_where_it_is_drawn(m: ScreenModel, position: Position)
    ensures
        !m.compact ==> m.header_at(position) is None,
        m.view.hit(m.conversation_area, position) is None ==> m.header_at(position) is None,
        m.compact ==> (m.view.hit(m.conversation_area, position) matches Some(hit) ==> {
            &&& m.view.cells[hit.index as int] is Source ==> m.header_at(position) is None
            &&& m.view.cells[hit.index as int] matches ShownCell::Work {
                id,
                actions,
                expanded,
                sources,
                detail,
            } ==> m.header_at(position) == if hit.row_within_cell == 0 {
                Some(id)
            } else {
                None
            }
        }),
{
}

/// The pointer hovers over the group whose row is under it. As long as it stays on one row, on the
/// same side of the edge of the conversation, nothing is looked up again.
pub proof fn law_pointer_hovers_over_the_row_under_it(m: ScreenModel, position: Position)
    requires
        on_screen(m.conversation_area),
    ensures
        ({
            let stays = m.hover_position matches Some(last) && last.y == position.y && inside(
                m.conversation_area,
                last,
            ) == inside(m.conversation_area, position);
            let n = m.hovered_at(position);
            &&& stays ==> n == m
            &&& !stays ==> n.hover_position == Some(position)
            &&& !stays ==> (m.header_at(position) matches Some(id) ==> n.hover == id.0)
            &&& !stays && m.header_at(position) is None ==> n.hover == 0
            &&& n.view == m.view && n.sources == m.sources && n.expanded == m.expanded
        }),
{
}

/// A press in the rows of the conversation to the right of its text counts as one on its last
/// column; any other press counts where it was made.
pub proof fn law_press_beside_the_text_counts_at_its_end(m: ScreenModel, position: Position)
    requires
        on_screen(m.conversation_area),
        on_screen(m.pane_area),
    ensures
        ({
            let area = m.conversation_area;
            let beside = area.width > 0 && area.y <= position.y && position.y - area.y < area.height
                && position.x >= area.x + area.width && inside(m.pane_area, position);
            let place = m.press_position(position);
            &&& place.y == position.y
            &&& beside ==> place.x == area.x + area.width - 1 && inside(area, place)
            &&& !beside ==> place.x == position.x
        }),
{
}

/// A press on the row of a group remembers the group, so that a release there toggles it; a press
/// outside the conversation remembers none.
pub proof fn law_press_remembers_the_group_under_it(
    m: ScreenModel,
    position: Position,
    restored: Option<RestoredSelection>,
)
    requires
        on_screen(m.conversation_area),
    ensures
        ({
            let place = m.press_position(position);
            let n = m.selection_begun(position, restored);
            &&& inside(m.conversation_area, place) ==> n.pending_click == m.header_at(place)
            &&& !inside(m.conversation_area, place) ==> n.pending_click is None
            &&& m.header_at(place) matches Some(id) ==> n.hover == id.0
            &&& m.header_at(place) is None ==> n.hover == 0
            &&& n.sources == m.sources && n.expanded == m.expanded && n.compact == m.compact
            &&& n.view == m.view.begun(m.conversation_area, place, restored)
        }),
{
}

/// Once the pointer is dragged, no group is to be toggled and none is hovered over.
pub proof fn law_drag_gives_up_the_click(
    m: ScreenModel,
    position: Position,
    restored: Option<RestoredSelection>,
    scrolls: bool,
    now: u64,
)
    ensures
        ({
            let n = m.selection_dragged(position, restored, scrolls, now);
            &&& n.pending_click is None
            &&& n.hover == 0
            &&& n.hover_position is None
            &&& n.view == m.view.dragged(m.conversation_area, position, restored, scrolls, now)
            &&& n.sources == m.sources && n.expanded == m.expanded
        }),
{
}

/// The screen with another view, and no press remembered.
pub open spec fn unpressed(m: ScreenModel, view: ViewportModel) -> ScreenModel {
    ScreenModel { pending_click: None, view, ..m }
}

/// A release on the row that was pressed, with no text selected, toggles the group of the row;
/// whatever happens, no press is remembered any more.
pub proof fn law_click_toggles_the_group(
    m: ScreenModel,
    position: Position,
    restored: Option<RestoredSelection>,
    selected: bool,
)
    ensures
        m.clicked_group(position, selected) is Some <==> !selected && m.pending_click is Some
            && m.header_at(position) == m.pending_click,
        m.clicked_group(position, selected) is Some ==> m.clicked_group(position, selected)
            == m.pending_click,
        m.clicked_group(position, selected) is None ==> {
            let n = m.selection_finished(position, restored, selected).screen;
            &&& n.pending_click is None
            &&& n.view == m.view.finished(m.conversation_area, position, restored)
            &&& n.sources == m.sources && n.expanded == m.expanded && n.hover == m.hover
        },
        m.clicked_group(position, selected) matches Some(id) ==> m.selection_finished(
            position,
            restored,
            selected,
        ) == unpressed(m, m.view.finished(m.conversation_area, position, restored)).group_toggled(
            id,
            m.view.scroll,
        ),
{
    reveal(ScreenModel::selection_finished);
}

/// The wheel scrolls the conversation under the pointer, and a conversation in which text is being
/// selected wherever the pointer is. Elsewhere it does nothing.
pub proof fn law_wheel_scrolls_what_is_under_the_pointer(
    m: ScreenModel,
    direction: MouseScrollDirection,
    rows: usize,
    position: Position,
    restored: Option<RestoredSelection>,
    scrolls: bool,
    now: u64,
)
    requires
        on_screen(m.conversation_area),
    ensures
        ({
            let n = m.wheeled(direction, rows, position, restored, scrolls, now);
            let under = inside(m.conversation_area, position);
            &&& m.takes_scroll(position) <==> m.view.selecting() || under
            &&& !m.view.selecting() && !under ==> n == m
            &&& !m.view.selecting() && under ==> n.view == m.view.scrolled(direction, rows)
                && n.hover_position == Some(position)
            &&& !m.view.selecting() && under ==> (n.header_at(position) matches Some(id)
                ==> n.hover == id.0)
            &&& !m.view.selecting() && under && n.header_at(position) is None ==> n.hover == 0
            &&& m.view.selecting() ==> n.pending_click is None && n.hover == 0 && n.view
                == m.view.scrolled(direction, rows).dragged(
                m.conversation_area,
                position,
                restored,
                scrolls,
                now,
            )
            &&& n.sources == m.sources && n.expanded == m.expanded
        }),
{
    let area = m.conversation_area;
    assert(area.holds(position) == inside(area, position));
}

/// A selection that is given up leaves no press behind, and no text selected.
pub proof fn law_cancelled_selection_is_gone(m: ScreenModel, pane: PaneModel)
    ensures
        m.selection_cancelled().pending_click is None,
        !m.selection_cancelled().view.selecting(),
        m.selection_cancelled().sources == m.sources,
        m.selection_cancelled().hover == m.hover,
        !pane.selection_cancelled().selecting(),
        !pane.selecting() ==> pane.selection_cancelled() == pane,
        pane.selection_cancelled().cells == pane.cells,
        !pane.unhovered().hovers(),
        pane.unhovered().selecting() == pane.selecting(),
{
}

/// A key moves the view only where the composer is empty, nothing covers the pane, the pane has a
/// screen and the key goes somewhere; a released key, a key that types text, an arrow key and
/// `Home` are not for the view.
pub proof fn law_keys_move_the_view_past_an_empty_composer(
    pane: PaneModel,
    key: NavigationKey,
    target: Option<usize>,
)
    ensures
        pane.navigates(key, target) <==> {
            &&& pane.facts.composer_is_empty
            &&& pane.facts.no_modal_or_popup_active
            &&& pane.screen is Some
            &&& target is Some
            &&& key.kind is Press || key.kind is Repeat
            &&& !key.plain_text
            &&& !(key.code is Up || key.code is Down || key.code is Home)
        },
        target matches Some(offset) ==> (pane.screen matches Some(screen) ==> {
            let n = pane.navigated(offset).screen->0;
            &&& pane.navigated(offset).screen is Some
            &&& n.view.scroll == offset
            &&& n.view.following == (offset == usize::MAX)
            &&& n.view.cells == screen.view.cells
            &&& n.hover == 0
            &&& n.sources == screen.sources
        }),
{
    reveal(PaneModel::navigates);
    reveal(PaneModel::navigated);
}

/// Whether a pane takes the wheel at a position.
pub open spec fn under_wheel(pane: PaneModel, position: Position) -> bool {
    pane.facts.no_modal_or_popup_active && (pane.screen matches Some(screen) && inside(
        screen.conversation_area,
        position,
    ))
}

/// Whether the areas of a pane are on the screen.
pub open spec fn drawn(pane: PaneModel) -> bool {
    pane.screen matches Some(screen) ==> on_screen(screen.conversation_area) && on_screen(
        screen.pane_area,
    )
}

/// Whether the areas of all panes are on the screen.
pub open spec fn all_drawn(m: AppModel) -> bool {
    drawn(m.parent) && (m.side matches Some(side) ==> drawn(side))
}

/// The wheel is for the pane in which text is being selected, else for the one under the pointer
/// that nothing covers; the other pane stays as it is. While the divider is dragged, and where no
/// pane takes it, the wheel does nothing.
pub proof fn law_wheel_goes_to_one_pane(
    m: AppModel,
    direction: MouseScrollDirection,
    rows: usize,
    position: Position,
    drag: DragFacts,
)
    requires
        all_drawn(m),
    ensures
        ({
            let n = m.wheeled(direction, rows, position, drag);
            let for_parent = m.parent.selecting() || !(m.side matches Some(side)
                && side.selecting()) && under_wheel(m.parent, position);
            let for_side = !for_parent && (m.side matches Some(side) && (side.selecting()
                || under_wheel(side, position)));
            &&& m.dragging_split ==> n == m
            &&& !m.dragging_split && for_parent ==> n.parent == m.parent.wheeled(
                direction,
                rows,
                position,
                drag,
            ) && n.side == m.side && n.effects == m.effects.push(Effect::ScheduleFrameSoon)
            &&& !m.dragging_split && for_side ==> n.parent == m.parent && n.side == Some(
                m.side->0.wheeled(direction, rows, position, drag),
            ) && n.effects == m.effects.push(Effect::ScheduleFrameSoon)
            &&& !m.dragging_split && !for_parent && !for_side ==> n == m
            &&& !m.dragging_split ==> (m.scroll_slot(position) is Some <==> for_parent || for_side)
            &&& n.focused == m.focused && n.overlay == m.overlay
        }),
{
    if let Some(screen) = m.parent.screen {
        assert(screen.conversation_area.holds(position) == inside(
            screen.conversation_area,
            position,
        ));
    }
    if let Some(side) = m.side {
        if let Some(screen) = side.screen {
            assert(screen.conversation_area.holds(position) == inside(
                screen.conversation_area,
                position,
            ));
        }
    }
}

/// The group that is hovered over in a pane.
pub open spec fn hover_of(pane: PaneModel) -> u64 {
    match pane.screen {
        Some(screen) => screen.hover,
        None => 0,
    }
}

pub open spec fn side_hover(m: AppModel) -> u64 {
    match m.side {
        Some(side) => hover_of(side),
        None => 0,
    }
}

/// Whether a pane is under a position with nothing that covers it.
pub open spec fn under_pointer(pane: PaneModel, position: Position) -> bool {
    pane.facts.no_modal_or_popup_active && (pane.screen matches Some(screen) && inside(
        screen.pane_area,
        position,
    ))
}

/// Only in the pane under the pointer is anything hovered over, and nothing at all under an
/// overlay. A frame is asked for just where what is hovered over changed.
pub proof fn law_only_the_pane_under_the_pointer_is_hovered(m: AppModel, position: Position)
    requires
        all_drawn(m),
    ensures
        ({
            let n = m.pointer_moved(position);
            let over_parent = m.overlay is Closed && under_pointer(m.parent, position);
            let over_side = m.overlay is Closed && !over_parent && (m.side matches Some(side)
                && under_pointer(side, position));
            &&& over_parent ==> n.parent == m.parent.hovered_at(position)
            &&& !over_parent ==> hover_of(n.parent) == 0
            &&& over_side ==> n.side == Some(m.side->0.hovered_at(position))
            &&& !over_side ==> side_hover(n) == 0
            &&& m.move_changes(position) <==> hover_of(n.parent) != hover_of(m.parent)
                || side_hover(n) != side_hover(m)
            &&& n.effects == if !m.move_changes(position) {
                m.effects
            } else if m.overlay is Closed {
                m.effects.push(Effect::ScheduleFrameSoon)
            } else {
                m.effects.push(Effect::ScheduleFrame)
            }
            &&& n.parent.cells == m.parent.cells && n.focused == m.focused
        }),
{
    if let Some(screen) = m.parent.screen {
        assert(screen.pane_area.holds(position) == inside(screen.pane_area, position));
    }
    if let Some(side) = m.side {
        if let Some(screen) = side.screen {
            assert(screen.pane_area.holds(position) == inside(screen.pane_area, position));
        }
    }
}

/// Under an overlay or a popup the button is for neither pane: a drag of the divider, a selection
/// and a hover are given up, and a frame is asked for where there was one of these.
pub proof fn law_popup_gives_up_what_the_pointer_did(m: AppModel)
    ensures
        m.pointer_blocked() <==> !(m.overlay is Closed)
            || !m.focus().facts.no_modal_or_popup_active,
        ({
            let n = m.pointer_dropped();
            &&& !n.dragging_split && !n.selects() && !n.hovers()
            &&& n.effects == if m.dragging_split || m.selects() || m.hovers() {
                m.effects.push(Effect::ScheduleFrame)
            } else {
                m.effects
            }
            &&& n.parent.cells == m.parent.cells && n.focused == m.focused
        }),
        m.selects() <==> m.parent.selecting() || (m.side matches Some(side) && side.selecting()),
        m.hovers() <==> hover_of(m.parent) != 0 || side_hover(m) != 0,
{
}

/// While the divider takes the button, nothing is selected or hovered over.
pub proof fn law_divider_takes_the_button_alone(
    m: AppModel,
    kind: MousePrimaryEventKind,
    dragging: bool,
)
    ensures
        ({
            let n = m.divider_took(kind, dragging);
            &&& n.dragging_split == dragging
            &&& !n.selects() && !n.hovers()
            &&& n.effects == m.effects.push(
                if kind is Drag {
                    Effect::ScheduleFrameSoon
                } else {
                    Effect::ScheduleFrame
                },
            )
            &&& n.focused == m.focused
        }),
{
}

/// A drag and a release are for the pane in which text is being selected, and leave the other one
/// alone. A release copies the text that was selected. Without a selection neither does anything.
pub proof fn law_drag_and_release_go_where_text_is_selected(
    m: AppModel,
    position: Position,
    drag: DragFacts,
    selected: bool,
)
    ensures
        ({
            let d = m.dragged(position, drag);
            let r = m.released(position, drag.restored, selected);
            let in_parent = m.parent.selecting();
            let in_side = !in_parent && (m.side matches Some(side) && side.selecting());
            &&& in_parent ==> d.parent == m.parent.selection_dragged(position, drag) && d.side
                == m.side
            &&& in_side ==> d.side == Some(m.side->0.selection_dragged(position, drag))
                && d.parent == m.parent
            &&& !in_parent && !in_side ==> d == m && r.app == m && r.bumps.len() == 0
            &&& in_parent ==> r.app.parent == m.parent.selection_finished(
                position,
                drag.restored,
                selected,
            ).pane && r.app.side == m.side
            &&& in_side ==> r.app.side == Some(
                m.side->0.selection_finished(position, drag.restored, selected).pane,
            ) && r.app.parent == m.parent
            &&& in_parent || in_side ==> r.app.effects == (if selected {
                m.effects.push(
                    Effect::CopySelectedText(
                        if in_parent {
                            PaneSlot::Parent
                        } else {
                            PaneSlot::Side
                        },
                    ),
                )
            } else {
                m.effects
            }).push(Effect::ScheduleFrame)
            &&& m.selecting_slot() is Some <==> in_parent || in_side
            &&& d.focused == m.focused && r.app.focused == m.focused
        }),
{
}

/// A press gives up what was selected, begins a selection in the pane under the pointer where
/// nothing covers it, leaves no other pane hovered over, and moves the focus there where the pane
/// takes it. A press on no pane does nothing else.
#[verifier::rlimit(80)]
pub proof fn law_press_goes_to_the_pane_under_it(
    m: AppModel,
    position: Position,
    restored: Option<RestoredSelection>,
    takes_focus: bool,
)
    requires
        all_drawn(m),
    ensures
        ({
            let n = m.pressed(position, restored, takes_focus);
            let on_parent = m.parent.screen matches Some(screen) && inside(
                screen.pane_area,
                position,
            );
            let on_side = !on_parent && (m.side matches Some(side) && (
            side.screen matches Some(screen) && inside(screen.pane_area, position)));
            let parent = m.parent.selection_cancelled();
            &&& !on_parent && !on_side ==> !n.selects() && !n.hovers() && n.focused == m.focused
                && n.backtrack_primed == m.backtrack_primed
            &&& on_parent ==> n.parent == if m.parent.facts.no_modal_or_popup_active {
                parent.selection_begun(position, restored)
            } else {
                parent
            }
            &&& on_parent ==> side_hover(n) == 0 && (n.side matches Some(side)
                ==> !side.selecting())
            &&& on_side ==> n.side == Some(
                if m.side->0.facts.no_modal_or_popup_active {
                    m.side->0.selection_cancelled().selection_begun(position, restored)
                } else {
                    m.side->0.selection_cancelled()
                },
            )
            &&& on_side ==> hover_of(n.parent) == 0 && !n.parent.selecting()
            &&& takes_focus && on_parent ==> n.focused == PaneSlot::Parent
            &&& takes_focus && on_side ==> n.focused == PaneSlot::Side
            &&& takes_focus && (on_parent || on_side) ==> !n.backtrack_primed
            &&& !takes_focus ==> n.focused == m.focused && n.backtrack_primed == m.backtrack_primed
            &&& m.selections_cancelled().slot_at(position) is Some <==> on_parent || on_side
        }),
{
    reveal(AppModel::pressed);
    let c = m.selections_cancelled();
    if let Some(screen) = m.parent.screen {
        assert(screen.pane_area.holds(position) == inside(screen.pane_area, position));
        assert(c.parent.screen->0.pane_area == screen.pane_area);
    }
    if let Some(side) = m.side {
        if let Some(screen) = side.screen {
            assert(screen.pane_area.holds(position) == inside(screen.pane_area, position));
            assert(c.side->0.screen->0.pane_area == screen.pane_area);
        }
    }
}

/// A press that gives up a selection, begins one, or moves the focus to another pane asks for a
/// frame, and for nothing else.
#[verifier::rlimit(80)]
pub proof fn law_press_asks_for_a_frame(
    m: AppModel,
    position: Position,
    restored: Option<RestoredSelection>,
    takes_focus: bool,
)
    ensures
        ({
            let n = m.pressed(position, restored, takes_focus);
            &&& n.effects == m.effects || n.effects == m.effects.push(Effect::ScheduleFrame)
            &&& m.selects() || n.focused != m.focused || n.backtrack_primed != m.backtrack_primed
                ==> n.effects == m.effects.push(Effect::ScheduleFrame)
        }),
{
    reveal(AppModel::pressed);
}

/// What a pressed, dragged or released button comes to: under a popup everything is dropped, a
/// divider that is dragged takes it, and else it is for the panes.
pub proof fn law_button_is_for_one_thing(
    m: AppModel,
    kind: MousePrimaryEventKind,
    position: Position,
    split: Option<bool>,
    drag: DragFacts,
    selected: bool,
    takes_focus: bool,
)
    ensures
        ({
            let step = m.primary(kind, position, split, drag, selected, takes_focus);
            let taken = m.primary_taken(kind, position, split, drag, takes_focus);
            let covered = !(m.overlay is Closed) || !m.focus().facts.no_modal_or_popup_active;
            &&& covered ==> step.app == m.pointer_dropped() && !taken
            &&& !covered ==> (split matches Some(dragging) ==> step.app.dragging_split == dragging
                && taken)
            &&& !covered && split is None && kind is Press ==> step.app == m.pressed(
                position,
                drag.restored,
                takes_focus,
            ) && (taken ==> takes_focus)
            &&& !covered && split is None && kind is Drag ==> step.app == m.dragged(position, drag)
                && (taken ==> m.selects())
            &&& !covered && split is None && kind is Release ==> step == m.released(
                position,
                drag.restored,
                selected,
            ) && (taken <==> m.selects())
            &&& m.primary_copies(kind, split) <==> !covered && split is None && kind is Release
                && m.selects()
            &&& !(!covered && split is None && kind is Release) ==> step.bumps.len() == 0
        }),
{
}

} // verus!
