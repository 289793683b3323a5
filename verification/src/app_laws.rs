//! Laws of the application: which pane a change is for, what the transcript holds, what the
//! terminal is asked for, and how a frame is laid out.

use std::sync::Arc;

use vstd::prelude::*;

use crate::app_frame;
use crate::app_model;
use crate::app_model::AppModel;
use crate::app_model::Effect;
use crate::app_model::InlineReflowReason;
use crate::app_model::OverlayModel;
use crate::app_model::OwnedScreenLayout;
use crate::app_model::PaneSlot;
use crate::compact_tool_groups;
use crate::compact_tool_groups::CompactToolGroupId;
use crate::geometry::Position;
use crate::geometry::Rect;
use crate::history_cell::CellKind;
use crate::history_cell::HistoryCell;
use crate::history_cell::HistoryRenderMode;
use crate::owned_screen;
use crate::owned_screen::RenderedOwnedScreen;
use crate::pane::PaneModel;
use crate::pointer_laws::inside;
use crate::pointer_laws::on_screen;
use crate::quiet_metrics::ToolRunSealReason;
use crate::screen_model;
use crate::screen_model::FrameModel;
use crate::screen_model::ScreenModel;

verus! {

/// The focused pane is the one in the focused slot, and a change of it leaves the other alone.
pub proof fn law_focus_is_the_pane_in_its_slot(m: AppModel, pane: PaneModel)
    ensures
        m.focused is Parent ==> m.focus() == m.parent,
        m.focused is Side ==> (m.side matches Some(side) ==> m.focus() == side),
        m.focused is Parent ==> m.with_focus(pane).parent == pane && m.with_focus(pane).side
            == m.side,
        m.focused is Side ==> m.with_focus(pane).side == Some(pane) && m.with_focus(pane).parent
            == m.parent,
        m.with_focus(pane).focused == m.focused,
        m.with_focus(pane).effects == m.effects,
        m.with_focus(pane).overlay == m.overlay,
{
}

/// Tool groups are folded in rich mode, unless they are all shown open.
pub proof fn law_groups_fold_in_rich_mode(pane: PaneModel)
    ensures
        pane.compact() <==> pane.facts.render_mode is Rich
            && !pane.facts.compact_tool_groups_expanded,
{
}

/// Whether another pane than the focused one stays as it is.
pub open spec fn other_pane_kept(before: AppModel, after: AppModel) -> bool {
    &&& before.focused is Parent ==> after.side == before.side
    &&& before.focused is Side ==> after.parent == before.parent
}

/// A committed cell is the last one of the transcript of the focused pane, and of the transcript
/// overlay where that is open. The other pane stays as it is.
pub proof fn law_committed_cell_is_the_last(
    m: AppModel,
    cell: Arc<HistoryCell>,
    reason: Option<ToolRunSealReason>,
)
    requires
        m.focused is Side ==> m.side is Some,
    ensures
        ({
            let n = m.committed(cell, reason).app;
            &&& n.focus().cells == m.focus().cells.push(cell)
            &&& m.overlay matches OverlayModel::Transcript(cells) ==> n.overlay
                == OverlayModel::Transcript(cells.push(cell))
            &&& !(m.overlay is Transcript) ==> n.overlay == m.overlay
            &&& other_pane_kept(m, n)
        }),
{
    app_model::lemma_committed_keeps(m, cell, reason);
    reveal(AppModel::committed);
    reveal(AppModel::overlay_pushed);
    reveal(AppModel::transcript_pushed);
    reveal(AppModel::screen_pushed);
    reveal(AppModel::commit_shown);
}

/// What was asked for, one thing more, and, behind any cell but a seal, the usage cards.
pub open spec fn shown_by(effects: Seq<Effect>, effect: Effect, is_seal: bool) -> Seq<Effect> {
    if is_seal {
        effects.push(effect)
    } else {
        effects.push(effect).push(Effect::RequestUsageInsertion)
    }
}

/// A cell that is committed without an owned screen goes to the scrollback of the terminal, or to
/// the buffer of the first replay. A seal that folds a run has the transcript laid out anew
/// instead, unless an overlay is open. With an owned screen a frame is asked for, but not during a
/// replay.
pub proof fn law_committed_cell_reaches_the_terminal(m: AppModel, cell: Arc<HistoryCell>, is_seal: bool)
    ensures
        ({
            let n = m.commit_shown(cell, is_seal);
            let pane = m.focus();
            let width = pane.facts.history_wrap_width;
            let folds = is_seal && pane.compact() && compact_tool_groups::group_before_seal(
                pane.cells,
                pane.cells.len() - 1,
            ) is Some;
            &&& m.parent.screen is None && pane.facts.initial_history_replay_buffer
                ==> n.effects == shown_by(
                m.effects,
                Effect::BufferCellLines { record: cell.id, width },
                is_seal,
            )
            &&& m.parent.screen is None && !pane.facts.initial_history_replay_buffer && folds
                && m.overlay is Closed ==> n.effects == m.effects.push(
                Effect::ReflowTranscript(InlineReflowReason::Seal),
            )
            &&& m.parent.screen is None && !pane.facts.initial_history_replay_buffer && !(folds
                && m.overlay is Closed) ==> n.effects == shown_by(
                m.effects,
                Effect::InsertCellLines { record: cell.id, width },
                is_seal,
            )
            &&& m.parent.screen is Some ==> n.effects == if pane.replaying() {
                m.effects.push(Effect::RequestUsageInsertion)
            } else {
                m.effects.push(Effect::RequestUsageInsertion).push(Effect::ScheduleFrame)
            }
            &&& n.parent == m.parent && n.side == m.side
        }),
{
    reveal(AppModel::commit_shown);
}

/// The usage cards that are ready are inserted in order, the token activity first, and are not
/// ready any more.
pub proof fn law_usage_cards_are_inserted_in_order(
    m: AppModel,
    first: Option<Arc<HistoryCell>>,
    second: Option<Arc<HistoryCell>>,
)
    requires
        m.focused is Side ==> m.side is Some,
    ensures
        ({
            let n = m.usage_inserted(first, second).app;
            let before = m.focus();
            let after = n.focus();
            &&& after.token_activity is None
            &&& after.rate_limit_hint is None
            &&& before.token_activity is None && before.rate_limit_hint is None ==> after.cells
                == before.cells
            &&& before.token_activity matches Some(token) ==> (before.rate_limit_hint is None
                ==> after.cells.last() == token)
            &&& before.rate_limit_hint matches Some(hint) ==> after.cells.last() == hint
            &&& first is None && second is None ==> (before.token_activity matches Some(token) ==> (
            before.rate_limit_hint matches Some(hint) ==> after.cells == before.cells.push(
                token,
            ).push(hint)))
        }),
{
    let pane = m.focus();
    let taken = m.with_focus(PaneModel { token_activity: None, ..pane });
    let one = match pane.token_activity {
        Some(cell) => taken.inserted(cell, first),
        None => taken.counting(Seq::empty()),
    };
    if let Some(cell) = pane.token_activity {
        app_model::lemma_inserted_keeps(taken, cell, first);
    }
    let middle = one.app.focus();
    let hinted = one.app.with_focus(PaneModel { rate_limit_hint: None, ..middle });
    if let Some(cell) = middle.rate_limit_hint {
        app_model::lemma_inserted_keeps(hinted, cell, second);
    }
}

/// A usage card waits while the chat holds it back, and behind an answer of the agent.
pub proof fn law_usage_cards_wait_behind_an_answer(m: AppModel)
    ensures
        m.focus().facts.usage_history_insertion_blocked ==> m.usage_blocked(),
        m.focus().cells.len() > 0 && m.focus().cells.last().kind is AgentMessage
            ==> m.usage_blocked(),
        !m.focus().facts.usage_history_insertion_blocked && m.focus().cells.len() == 0
            ==> !m.usage_blocked(),
        !m.focus().facts.usage_history_insertion_blocked && m.focus().cells.len() > 0 && !(
        m.focus().cells.last().kind is AgentMessage) ==> !m.usage_blocked(),
{
}

/// A terminal that went to the background stands where the first command of its name stood, and
/// nothing else of the transcript changes; where there is none, it comes at the end.
pub proof fn law_background_terminal_takes_the_place_of_its_command(
    cells: Seq<Arc<HistoryCell>>,
    call_id: Seq<char>,
    cell: Arc<HistoryCell>,
    i: int,
)
    ensures
        0 <= i < cells.len() && app_model::is_single_exec(cells[i], call_id) && (forall|j: int|
            0 <= j < i ==> !app_model::is_single_exec(#[trigger] cells[j], call_id))
            ==> app_model::promoted_cells(cells, call_id, cell) == cells.update(i, cell)
            && app_model::promoted_position(cells, call_id) == Some(i),
        (forall|j: int|
            0 <= j < cells.len() ==> !app_model::is_single_exec(#[trigger] cells[j], call_id))
            ==> app_model::promoted_cells(cells, call_id, cell) == cells.push(cell)
            && app_model::promoted_position(cells, call_id) is None,
{
    lemma_promoted(cells, call_id, i);
}

proof fn lemma_promoted(cells: Seq<Arc<HistoryCell>>, call_id: Seq<char>, i: int)
    ensures
        0 <= i < cells.len() && app_model::is_single_exec(cells[i], call_id) && (forall|j: int|
            0 <= j < i ==> !app_model::is_single_exec(#[trigger] cells[j], call_id))
            ==> app_model::promoted_position(cells, call_id) == Some(i),
        (forall|j: int|
            0 <= j < cells.len() ==> !app_model::is_single_exec(#[trigger] cells[j], call_id))
            ==> app_model::promoted_position(cells, call_id) is None,
    decreases cells.len(),
{
    if cells.len() > 0 {
        let front = cells.drop_last();
        assert(forall|j: int| 0 <= j < front.len() ==> front[j] == #[trigger] cells[j]);
        lemma_promoted(front, call_id, i);
    }
}

/// A command is that of a name only if it holds one call, and the call has the name.
pub proof fn law_commands_are_found_by_their_call(cell: Arc<HistoryCell>, call_id: Seq<char>)
    ensures
        app_model::is_single_exec(cell, call_id) ==> (cell.kind matches CellKind::Exec(exec)
            && exec.calls@.len() == 1 && exec.calls@[0].call_id@ == call_id),
        (cell.kind matches CellKind::Exec(exec) && exec.calls@.len() == 1
            && exec.calls@[0].call_id@ == call_id) ==> app_model::is_single_exec(cell, call_id),
{
}

/// The first card of a background terminal is the one that its events are for.
pub proof fn law_events_are_for_the_first_card(
    cells: Seq<Arc<HistoryCell>>,
    call_id: Seq<char>,
    i: int,
)
    ensures
        0 <= i < cells.len() && app_model::is_terminal(cells[i], call_id) && (forall|j: int|
            0 <= j < i ==> !app_model::is_terminal(#[trigger] cells[j], call_id))
            ==> app_model::terminal_position(cells, call_id) == Some(i),
        (forall|j: int|
            0 <= j < cells.len() ==> !app_model::is_terminal(#[trigger] cells[j], call_id))
            ==> app_model::terminal_position(cells, call_id) is None,
    decreases cells.len(),
{
    if cells.len() > 0 {
        let front = cells.drop_last();
        assert(forall|j: int| 0 <= j < front.len() ==> front[j] == #[trigger] cells[j]);
        law_events_are_for_the_first_card(front, call_id, i);
    }
}

/// A change of a record asks for the label of the agent to be brought up to date. Then an owned
/// screen is drawn anew; without one the transcript is laid out anew, at once or, under an overlay,
/// later, unless that was put off. Only a transcript that could not be laid out is a failure.
pub proof fn law_changed_record_is_shown_anew(m: AppModel, defer: bool, reflowed: bool)
    ensures
        ({
            let n = m.lifecycle_refreshed(defer, reflowed);
            let label = m.effects.push(Effect::SyncActiveAgentLabel);
            let anew = label.push(Effect::ReflowTranscript(InlineReflowReason::StructuralChange));
            &&& m.parent.screen is Some ==> n.effects == label.push(Effect::ScheduleFrame)
            &&& m.parent.screen is None && defer ==> n.effects == label
            &&& m.parent.screen is None && !defer && !(m.overlay is Closed) ==> n.effects
                == label.push(Effect::ScheduleLifecycleReflow)
            &&& m.parent.screen is None && !defer && m.overlay is Closed && reflowed ==> n.effects
                == anew.push(Effect::ScheduleFrame)
            &&& m.parent.screen is None && !defer && m.overlay is Closed && !reflowed ==> n.effects
                == anew
            &&& m.refresh_fails(defer, reflowed) <==> m.parent.screen is None && !defer
                && m.overlay is Closed && !reflowed
            &&& n.parent == m.parent && n.side == m.side
        }),
{
}

/// A conversation that is cleared leaves nothing of it behind in the focused pane, nor in what the
/// application remembers of it, and no number of a record is used again.
pub proof fn law_cleared_conversation_is_gone(m: AppModel)
    requires
        m.focused is Side ==> m.side is Some,
    ensures
        ({
            let n = m.reset().app;
            let pane = n.focus();
            &&& pane.cells.len() == 0
            &&& pane.runs.open is None && pane.runs.current_turn_id is None
            &&& pane.runs.next_source_id == m.focus().runs.next_source_id
            &&& pane.runs.next_run_id == m.focus().runs.next_run_id
            &&& pane.reflow is None && pane.token_activity is None && pane.rate_limit_hint is None
            &&& !pane.facts.initial_history_replay_buffer && !pane.replaying()
            &&& n.overlay is Closed
            &&& n.deferred_lines.len() == 0 && n.warnings.len() == 0
            &&& !n.emitted && !n.older_history && !n.backtrack_primed
                && !n.backtrack_render_pending
            &&& other_pane_kept(m, n)
        }),
        m.focus().screen matches Some(screen) ==> {
            let shown = m.reset().app.focus().screen->0;
            &&& m.reset().app.focus().screen is Some
            &&& shown.sources.len() == 0
        },
{
    reveal(AppModel::reset);
    reveal(PaneModel::reset);
    reveal(PaneModel::screen_synced);
    reveal(PaneModel::with_replaying);
    reveal(ScreenModel::with_sources);
    reveal(ScreenModel::with_compact);
    if let Some(screen) = m.focus().screen {
        lemma_compact_keeps_sources(screen, m.focus().compact());
    }
}

proof fn lemma_folded_keeps_sources(m: ScreenModel, ids: Seq<CompactToolGroupId>)
    ensures
        m.groups_folded(ids).screen.sources == m.sources,
    decreases ids.len(),
{
    reveal(ScreenModel::group_projected);
    if ids.len() > 0 {
        lemma_folded_keeps_sources(m, ids.drop_last());
    }
}

proof fn lemma_unfolded_keeps_sources(m: ScreenModel, ids: Seq<CompactToolGroupId>)
    ensures
        m.groups_unfolded(ids).screen.sources == m.sources,
    decreases ids.len(),
{
    reveal(ScreenModel::group_unfolded);
    if ids.len() > 0 {
        lemma_unfolded_keeps_sources(m.group_unfolded(ids.last()).screen, ids.drop_last());
    }
}

proof fn lemma_compact_keeps_sources(m: ScreenModel, compact: bool)
    ensures
        m.with_compact(compact).screen.sources == m.sources,
        m.with_compact(compact).screen.compact == compact,
{
    reveal(ScreenModel::with_compact);
    let valid = screen_model::valid_groups(m.sources);
    lemma_folded_keeps_sources(ScreenModel { compact: true, ..m }, valid);
    lemma_unfolded_keeps_sources(m, valid);
    lemma_folded_keeps_compact(ScreenModel { compact: true, ..m }, valid);
}

proof fn lemma_folded_keeps_compact(m: ScreenModel, ids: Seq<CompactToolGroupId>)
    ensures
        m.groups_folded(ids).screen.compact == m.compact,
    decreases ids.len(),
{
    reveal(ScreenModel::group_projected);
    if ids.len() > 0 {
        lemma_folded_keeps_compact(m, ids.drop_last());
    }
}

/// Folding that is switched on or off is then on or off, and the conversation is the same; folding
/// that is as it was asked for changes nothing.
pub proof fn law_folding_is_what_was_asked_for(m: ScreenModel, compact: bool)
    ensures
        m.with_compact(compact).screen.compact == compact,
        m.with_compact(compact).screen.sources == m.sources,
        m.compact == compact ==> m.with_compact(compact).screen == m,
        m.compact && !compact ==> {
            let n = m.with_compact(compact).screen;
            n.hover == 0 && n.pending_click is None && n.pending_seals.len() == 0
        },
{
    lemma_compact_keeps_sources(m, compact);
    reveal(ScreenModel::with_compact);
}

/// The band of the composers covers the composer of every pane and no more than it has to; without
/// a composer on the screen there is none.
pub proof fn law_band_covers_the_composers(m: AppModel, position: Position)
    requires
        on_screen(m.parent.bottom_area()),
        m.side matches Some(side) ==> on_screen(side.bottom_area()),
    ensures
        ({
            let parent = m.parent.bottom_area();
            let side = match m.side {
                Some(pane) => pane.bottom_area(),
                None => Rect { x: 0, y: 0, width: 0, height: 0 },
            };
            let no_parent = parent.width == 0 || parent.height == 0;
            let no_side = side.width == 0 || side.height == 0;
            &&& m.activity_band() is None <==> no_parent && no_side
            &&& m.activity_band() matches Some(band) ==> {
                &&& inside(parent, position) || inside(side, position) ==> inside(band, position)
                &&& !no_parent && no_side ==> band == parent
                &&& no_parent && !no_side ==> band == side
                &&& !no_parent && !no_side ==> {
                    &&& band.x == parent.x || band.x == side.x
                    &&& band.y == parent.y || band.y == side.y
                    &&& band.x + band.width == parent.x + parent.width || band.x + band.width
                        == side.x + side.width
                    &&& band.y + band.height == parent.y + parent.height || band.y + band.height
                        == side.y + side.height
                }
            }
        }),
{
}

/// A pane is animated only where its composer is on the screen and something moves in it.
pub proof fn law_only_a_composer_on_the_screen_moves(pane: PaneModel)
    ensures
        pane.animates() <==> pane.facts.activity_animation_active && (
        pane.screen matches Some(screen) && screen.bottom_area.width > 0
            && screen.bottom_area.height > 0),
{
}

/// The time that a pane with a screen waits for.
pub open spec fn waits_for(pane: PaneModel, due: u64) -> bool {
    pane.screen is Some && pane.reflow == Some(due)
}

/// A draw waits until the last of the screens is due, for as long as that takes; from then on none
/// of them waits.
pub proof fn law_draw_waits_for_the_last_screen(m: AppModel, now: u64, due: u64)
    requires
        m.parent.screen is Some,
    ensures
        ({
            let waiting = waits_for(m.parent, due) || (m.side matches Some(side) && waits_for(
                side,
                due,
            ));
            let none = m.parent.reflow is None && !(m.side matches Some(side) && side.screen is Some
                && side.reflow is Some);
            &&& waiting && now < due ==> m.draw_waits(now)
            &&& none ==> !m.draw_waits(now) && m.draw_asked(now) == m
            &&& m.draw_waits(now) ==> {
                let last = m.draw_due()->0;
                &&& waiting ==> due <= last
                &&& waits_for(m.parent, last) || (m.side matches Some(side) && waits_for(side, last))
                &&& m.draw_asked(now).effects == m.effects.push(
                    Effect::ScheduleFrameIn((last - now) as u64),
                )
                &&& m.draw_asked(now).parent == m.parent
            }
            &&& !m.draw_waits(now) ==> {
                let n = m.draw_asked(now);
                &&& n.effects == m.effects
                &&& n.parent.reflow is None
                &&& n.side matches Some(side) ==> (side.screen is Some ==> side.reflow is None)
            }
        }),
{
}

/// A resize makes every screen wait for the same time, and asks for a frame after the wait.
pub proof fn law_resize_makes_screens_wait(m: AppModel, due: u64, debounce: u64)
    ensures
        ({
            let n = m.resize_begun(due, debounce);
            &&& m.parent.screen is Some ==> n.parent.reflow == Some(due)
            &&& m.parent.screen is None ==> n.parent == m.parent
            &&& m.side matches Some(before) ==> (n.side matches Some(after) && after.reflow
                == if before.screen is Some {
                Some(due)
            } else {
                before.reflow
            })
            &&& m.side is None ==> n.side is None
            &&& n.effects == m.effects.push(Effect::ScheduleFrameIn(debounce))
        }),
{
}

/// Before a draw no pane waits, the lines that were to be inserted are dropped, and after a change
/// of size the status line of every pane is brought up to date.
pub proof fn law_draw_drops_what_waited(m: AppModel, size_changed: bool)
    ensures
        ({
            let n = m.about_to_draw(size_changed);
            let parent = m.effects.push(Effect::RefreshStatusLine(PaneSlot::Parent));
            let both = parent.push(Effect::RefreshStatusLine(PaneSlot::Side));
            &&& n.parent.reflow is None
            &&& m.side is Some <==> n.side is Some
            &&& n.side matches Some(side) ==> side.reflow is None
            &&& !size_changed ==> n.effects == m.effects.push(Effect::ClearPendingHistoryLines)
            &&& size_changed && m.side is None ==> n.effects == parent.push(
                Effect::ClearPendingHistoryLines,
            )
            &&& size_changed && m.side is Some ==> n.effects == both.push(
                Effect::ClearPendingHistoryLines,
            )
        }),
{
}

/// The terminal forgets the lines that were to be inserted, and is cleared: only what is visible
/// on the alternate screen, else the scrollback too. A view that was not at the top goes there, and
/// no lines count as written.
pub proof fn law_clearing_starts_over(m: AppModel, alt_screen: bool, viewport_top: u16)
    ensures
        ({
            let asked = m.effects.push(Effect::ClearPendingHistoryLines).push(
                if alt_screen {
                    Effect::ClearVisibleScreen
                } else {
                    Effect::ClearScrollbackAndVisibleScreen
                },
            );
            let n = m.terminal_cleared(alt_screen, viewport_top, None);
            &&& m.clear_asked(alt_screen).effects == asked
            &&& n.app.effects == if viewport_top > 0 {
                asked.push(Effect::AnchorViewportAtTop)
            } else {
                asked
            }
            &&& !n.app.emitted
            &&& n.bumps.len() == 0
            &&& n.app.parent == m.parent && n.app.side == m.side
        }),
{
}

/// The header of a session is the first cell of the transcript on an owned screen; without one its
/// lines go to the terminal, if it has any.
pub proof fn law_header_is_shown_first(m: AppModel, header: Arc<HistoryCell>)
    requires
        m.focused is Side ==> m.side is Some,
    ensures
        ({
            let n = m.header_queued(header).app;
            let width = m.focus().facts.history_wrap_width;
            let lines = header.lines(width, HistoryRenderMode::Rich);
            &&& m.parent.screen is Some ==> n.focus().cells == m.focus().cells.push(header)
                && n.effects.last() == Effect::ScheduleFrame
            &&& m.parent.screen is None && lines.len() > 0 ==> n.emitted && n.effects
                == m.effects.push(Effect::InsertCellLines { record: header.id, width })
                && n.focus() == m.focus()
            &&& m.parent.screen is None && lines.len() == 0 ==> n == m
            &&& other_pane_kept(m, n)
        }),
{
    reveal(AppModel::transcript_pushed);
    let pushed = m.transcript_pushed(header);
    app_model::lemma_screen_pushed_keeps(pushed, header);
    reveal(AppModel::screen_pushed);
}

/// The pane is drawn below its header, which takes one row where there is one.
pub proof fn law_body_is_below_the_header(area: Rect)
    requires
        on_screen(area),
    ensures
        owned_screen::body_area(area, false) == area,
        area.height > 0 ==> {
            let body = owned_screen::body_area(area, true);
            &&& body.x == area.x && body.width == area.width
            &&& body.y == area.y + 1
            &&& body.height == area.height - 1
        },
        area.height == 0 ==> owned_screen::body_area(area, true).height == 0,
{
}

/// The composer takes the lowest rows of an area, as many as it asks for and fit, over its whole
/// width; the conversation has the rows above it, as wide as its text is wrapped.
pub proof fn law_conversation_stands_above_the_composer(frame: FrameModel)
    requires
        on_screen(frame.area),
        frame.wrap_width <= frame.area.width,
    ensures
        ({
            let conversation = frame.conversation_area();
            let bottom = frame.bottom_area();
            &&& conversation.x == frame.area.x && bottom.x == frame.area.x
            &&& conversation.y == frame.area.y
            &&& conversation.width == frame.wrap_width
            &&& bottom.width == frame.area.width
            &&& bottom.y == conversation.y + conversation.height
            &&& conversation.height + bottom.height == frame.area.height
            &&& frame.bottom_height <= frame.area.height ==> bottom.height == frame.bottom_height
            &&& frame.bottom_height > frame.area.height ==> bottom.height == frame.area.height
        }),
{
}

/// A frame remembers where it put the conversation and the composer. A popup, and a conversation
/// that stands elsewhere than in the last frame, end a hover.
pub proof fn law_frame_remembers_its_areas(m: ScreenModel, frame: FrameModel)
    ensures
        ({
            let n = m.laid_out(frame);
            let moved = m.rendered_area != frame.conversation_area();
            &&& n.conversation_area == frame.conversation_area()
            &&& n.rendered_area == frame.conversation_area()
            &&& n.bottom_area == frame.bottom_area()
            &&& n.view == m.view && n.sources == m.sources
            &&& moved || !frame.popup_free ==> n.hover == 0 && n.hover_position is None
            &&& !moved && frame.popup_free ==> n.hover == m.hover && n.hover_position
                == m.hover_position
        }),
        ({
            let n = m.settled(frame);
            &&& n.selection_area == Some(frame.conversation_area())
            &&& n.sources == m.sources && n.hover == m.hover
        }),
        ({
            let n = m.live_shown(frame);
            &&& n.view.mode == m.view.with_mode(frame.mode).with_live(
                frame.conversation_area().width,
                frame.active,
                frame.fresh,
            ).mode
            &&& n.view.scroll != m.view.with_mode(frame.mode).scroll ==> n.hover == 0
            &&& n.view.scroll == m.view.with_mode(frame.mode).scroll ==> n.hover == m.hover
            &&& n.sources == m.sources
        }),
{
    reveal(ScreenModel::settled);
    reveal(ScreenModel::live_shown);
}

/// Before a frame under a popup, nothing is selected, hovered over or dragged; else all stays.
pub proof fn law_popup_calms_the_frame(m: AppModel)
    ensures
        m.focus().facts.no_modal_or_popup_active ==> m.ready_for_frame() == m,
        !m.focus().facts.no_modal_or_popup_active ==> {
            let n = m.ready_for_frame();
            !n.dragging_split && !n.selects() && !n.hovers()
        },
        m.ready_for_frame().effects == m.effects,
        m.ready_for_frame().focused == m.focused,
{
}

/// A pane that is not shown has nothing selected or hovered over; no pane remembers where it was
/// drawn before.
pub proof fn law_hidden_panes_are_calm(m: AppModel, layout: OwnedScreenLayout)
    ensures
        layout matches OwnedScreenLayout::Single { slot, area, show_header } ==> {
            &&& layout.shows(PaneSlot::Parent) <==> slot is Parent
            &&& layout.shows(PaneSlot::Side) <==> slot is Side
            &&& layout.whole_area() == area
        },
        layout matches OwnedScreenLayout::Split { area, parent, divider, side } ==> layout.shows(
            PaneSlot::Parent,
        ) && layout.shows(PaneSlot::Side) && layout.whole_area() == area,
        ({
            let n = m.cleared_for(layout);
            &&& !layout.shows(PaneSlot::Parent) ==> !n.parent.selecting() && !n.parent.hovers()
            &&& layout.shows(PaneSlot::Parent) ==> n.parent.selecting() == m.parent.selecting()
                && n.parent.hovers() == m.parent.hovers()
            &&& n.side matches Some(side) ==> (!layout.shows(PaneSlot::Side) ==> !side.selecting()
                && !side.hovers())
            &&& n.parent.screen matches Some(screen) ==> screen.pane_area.width == 0
                && screen.conversation_area.width == 0 && screen.bottom_area.width == 0
            &&& n.side is Some <==> m.side is Some
        }),
{
}

/// Two panes that are drawn side by side come to what the focused one comes to, and go on scrolling
/// where either of them does.
pub proof fn law_focused_pane_speaks_for_both(
    parent: Option<RenderedOwnedScreen>,
    side: Option<RenderedOwnedScreen>,
    focused: PaneSlot,
)
    ensures
        ({
            let joined = app_frame::joined_result(parent, side, focused);
            let chosen = if focused is Parent {
                parent
            } else {
                side
            };
            &&& joined is Some <==> chosen is Some
            &&& joined matches Some(j) ==> (chosen matches Some(c) && j.conversation_area
                == c.conversation_area && j.bottom_area == c.bottom_area && j.show_newer_hint
                == c.show_newer_hint)
            &&& joined matches Some(j) ==> (j.selection_autoscroll_active <==> (
            parent matches Some(p) && p.selection_autoscroll_active) || (side matches Some(s)
                && s.selection_autoscroll_active))
        }),
{
}

} // verus!
