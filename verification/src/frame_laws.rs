//! Laws of frames: what a frame of a screen, of a pane and of a layout leaves behind, and what it
//! comes to.

use std::sync::Arc;

use vstd::prelude::*;

use crate::active_cell_selection;
use crate::active_cell_selection::ActiveCellSelectionHandle;
use crate::active_cell_selection::MarkdownSelectionRequest;
use crate::app;
use crate::app_frame;
use crate::app_frame::SessionFacts;
use crate::app_model;
use crate::app_model::AppModel;
use crate::app_model::OverlayModel;
use crate::app_model::OwnedScreenLayout;
use crate::compact_tool_groups;
use crate::compact_tool_groups::CompactToolGroupAnalysis;
use crate::compact_tool_groups::CompactToolGroupId;
use crate::compact_tool_groups::CompactToolGroupProjection;
use crate::compact_tool_groups::CompactToolGroupSourceRange;
use crate::compact_tool_groups::GroupModel;
use crate::conversation_viewport;
use crate::geometry::Rect;
use crate::history_cell::CellKind;
use crate::history_cell::HistoryCell;
use crate::lifecycle;
use crate::lifecycle::BackgroundTerminalLifecycleCell;
use crate::lifecycle::TerminalEvent;
use crate::owned_screen;
use crate::pager_content;
use crate::pager_content::ActiveCellDisplaySnapshot;
use crate::pane;
use crate::pane::PaneModel;
use crate::quiet_bench;
use crate::quiet_bench::OwnedFrameFixture;
use crate::quiet_metrics::RangeReplacementReason;
use crate::screen_model::FrameModel;
use crate::screen_model::ScreenModel;
use crate::text;
use crate::tool_run_projection::ToolRunLifecycle;
use crate::tool_run_projection::ToolRunSealCell;
use crate::viewport_model::ActiveCellRenderKey;
use crate::viewport_model::LiveModel;
use crate::viewport_model::ViewportModel;

verus! {

/// The groups that wait are tried in order, each as a seal would fold it; those that are still
/// guarded go on waiting.
pub proof fn law_waiting_groups_are_tried_in_order(
    m: ScreenModel,
    pending: Seq<CompactToolGroupId>,
    id: CompactToolGroupId,
)
    ensures
        m.seals_resolved(Seq::empty()).screen == m,
        ({
            let before = m.seals_resolved(pending);
            let tried = before.screen.group_projected(
                id,
                false,
                true,
                RangeReplacementReason::Seal,
            );
            let after = m.seals_resolved(pending.push(id));
            &&& after.screen == tried.screen
            &&& after.bumps == before.bumps + tried.bumps
        }),
        m.seals_resolved(pending).screen.sources == m.sources,
        m.seals_resolved(pending).screen.expanded == m.expanded,
        m.seals_resolved(pending).screen.hover == m.hover,
    decreases pending.len(),
{
    reveal(ScreenModel::group_projected);
    assert(pending.push(id).drop_last() =~= pending);
    if pending.len() > 0 {
        law_waiting_groups_are_tried_in_order(m, pending.drop_last(), pending.last());
        assert(pending.drop_last().push(pending.last()) =~= pending);
    }
}

/// A frame of a screen leaves the conversation and the composer in the areas of the frame, keeps
/// the sources, and holds nothing back for another frame. It goes on scrolling only while a pointer
/// drags a selection past the edge.
pub proof fn law_frame_leaves_its_areas_behind(m: ScreenModel, frame: FrameModel)
    ensures
        ({
            let step = m.framed(frame);
            let n = step.screen;
            &&& n.conversation_area == frame.conversation_area()
            &&& n.bottom_area == frame.bottom_area()
            &&& n.selection_area == Some(frame.conversation_area())
            &&& n.pane_area == m.pane_area
            &&& n.sources == m.sources && n.expanded == m.expanded
            &&& !n.view.frozen
            &&& !frame.scrolls ==> !step.done
            &&& !frame.popup_free ==> n.hover == 0
        }),
{
    reveal(ScreenModel::framed);
    reveal(ScreenModel::live_shown);
    reveal(ScreenModel::settled);
    reveal(ScreenModel::autoscrolls);
    reveal(ViewportModel::rendered);
    let laid = m.laid_out(frame);
    crate::screen_model::lemma_resolved_keeps_areas(laid, m.pending_seals);
    law_waiting_groups_are_tried_in_order(laid, m.pending_seals, CompactToolGroupId(0));
}

/// A frame goes on scrolling just where a pointer drags a selection, the host says that it scrolls,
/// and, where the conversation stands as in the last frame, the last step moved the view.
pub proof fn law_frame_scrolls_on_with_the_pointer(m: ScreenModel, frame: FrameModel)
    ensures
        m.autoscrolls(frame) ==> m.view.select.autoscroll.pointer is Some && frame.scrolls,
        m.view.select.autoscroll.pointer is Some && frame.scrolls && m.selection_area != Some(
            frame.conversation_area(),
        ) ==> m.autoscrolls(frame),
{
    reveal(ScreenModel::autoscrolls);
}

/// A pane is drawn in its area, below its header: there its screen stands from then on. What the
/// frame comes to says where, and hints at newer history just where the view does not follow the
/// end.
pub proof fn law_pane_is_drawn_in_its_area(
    pane: PaneModel,
    area: Rect,
    show_header: bool,
    frame: FrameModel,
)
    ensures
        ({
            let inner = app_frame::frame_in(frame, area, show_header);
            let step = pane.framed(area, inner);
            let result = pane.frame_result(area, inner);
            &&& inner.area == owned_screen::body_area(area, show_header)
            &&& inner.bottom_height == frame.bottom_height && inner.wrap_width == frame.wrap_width
                && inner.active == frame.active && inner.popup_free == frame.popup_free
            &&& pane.screen is None ==> step.pane == pane && result is None
            &&& step.pane.cells == pane.cells && step.pane.runs == pane.runs
            &&& pane.screen matches Some(before) ==> {
                &&& step.pane.screen matches Some(after) && after.pane_area == area
                    && after.conversation_area == inner.conversation_area() && after.bottom_area
                    == inner.bottom_area() && after.sources == before.sources
                &&& result matches Some(shown) && shown.conversation_area
                    == inner.conversation_area() && shown.bottom_area == inner.bottom_area()
                    && shown.show_newer_hint == !step.pane.screen->0.view.following
            }
        }),
{
    reveal(PaneModel::framed);
    reveal(PaneModel::frame_result);
    let inner = app_frame::frame_in(frame, area, show_header);
    if let Some(screen) = pane.screen {
        law_frame_leaves_its_areas_behind(ScreenModel { pane_area: area, ..screen }, inner);
    }
}

/// A layout draws the panes that it shows, each in its own area, and no other.
pub proof fn law_layout_draws_the_panes_it_shows(
    m: AppModel,
    layout: OwnedScreenLayout,
    parent_frame: FrameModel,
    side_frame: FrameModel,
)
    ensures
        ({
            let n = m.layout_shown(layout, parent_frame, side_frame).app;
            let ready = m.cleared_for(layout);
            let result = m.layout_result(layout, parent_frame, side_frame);
            &&& layout matches OwnedScreenLayout::Single { slot, area, show_header } ==> {
                &&& slot is Parent ==> n.parent == ready.parent.framed(
                    area,
                    app_frame::frame_in(parent_frame, area, show_header),
                ).pane && n.side == ready.side && result == ready.parent.frame_result(
                    area,
                    app_frame::frame_in(parent_frame, area, show_header),
                )
                &&& slot is Side ==> n.parent == ready.parent
                &&& slot is Side ==> (ready.side matches Some(side) ==> n.side == Some(
                    side.framed(area, app_frame::frame_in(side_frame, area, show_header)).pane,
                ) && result == side.frame_result(
                    area,
                    app_frame::frame_in(side_frame, area, show_header),
                ))
            }
            &&& layout matches OwnedScreenLayout::Split { area, parent, divider, side } ==> {
                let left = app_frame::frame_in(parent_frame, parent, true);
                let right = app_frame::frame_in(side_frame, side, true);
                &&& n.parent == ready.parent.framed(parent, left).pane
                &&& ready.side is None ==> n.side is None
                &&& ready.side matches Some(pane) ==> n.side == Some(
                    pane.framed(side, right).pane,
                ) && result == app_frame::joined_result(
                    ready.parent.frame_result(parent, left),
                    pane.frame_result(side, right),
                    m.focused,
                )
            }
            &&& n.focused == m.focused && n.effects == m.effects
        }),
{
    reveal(AppModel::layout_shown);
    reveal(AppModel::layout_result);
    reveal(AppModel::pane_framed);
    reveal(AppModel::pane_result);
}

/// A terminal that went to the background is in the transcript and in the transcript overlay, in
/// the place of its command, and the other pane stays as it is.
pub proof fn law_promoted_terminal_is_in_the_transcript(
    m: AppModel,
    call_id: Seq<char>,
    cell: Arc<HistoryCell>,
)
    requires
        m.focused is Side ==> m.side is Some,
    ensures
        ({
            let n = m.promoted(call_id, cell).app;
            let cells = app_model::promoted_cells(m.focus().cells, call_id, cell);
            &&& n.focus().cells == cells
            &&& m.overlay is Transcript ==> n.overlay == OverlayModel::Transcript(cells)
            &&& !(m.overlay is Transcript) ==> n.overlay == m.overlay
            &&& crate::app_laws::other_pane_kept(m, n)
            &&& m.parent.screen is None ==> n.focus().screen == m.focus().screen
            &&& n.effects == m.effects
        }),
{
    reveal(AppModel::record_shown);
    reveal(PaneModel::source_replaced);
    reveal(PaneModel::screen_synced);
}

/// A usage card that ends a run of calls stands behind the seal of the run, and only such a card
/// has a seal before it.
pub proof fn law_usage_cards_seal_a_run_once(
    m: AppModel,
    first: Option<Arc<HistoryCell>>,
    second: Option<Arc<HistoryCell>>,
    first_id: u64,
    second_id: u64,
)
    requires
        app::usage_seals(m, first, second, first_id, second_id),
        m.focused is Side ==> m.side is Some,
    ensures
        m.focus().token_activity is None ==> first is None,
        m.focus().rate_limit_hint is None ==> second is None,
        first matches Some(record) ==> record.kind is Seal && record.id == first_id
            && m.focus().runs.open is Some,
        second matches Some(record) ==> record.kind is Seal && record.id == second_id,
        m.focus().runs.open is None ==> first is None,
{
    let taken = m.with_focus(PaneModel { token_activity: None, ..m.focus() });
    if let Some(cell) = m.focus().token_activity {
        app_model::lemma_inserted_keeps(taken, cell, first);
    }
}

/// The record of a terminal after an event is the same record, with the card that the event made.
pub proof fn law_updated_record_is_the_same_record<
    F: Fn(&BackgroundTerminalLifecycleCell) -> app::RecordLines,
>(lay_out: F, before: Arc<HistoryCell>, event: TerminalEvent, record: Arc<HistoryCell>)
    requires
        app::is_updated_record(lay_out, before, event, record),
    ensures
        record.id == before.id,
        record.stream_continuation == before.stream_continuation,
        record.kind is BackgroundTerminal && before.kind is BackgroundTerminal,
        record.kind matches CellKind::BackgroundTerminal(card) ==> (
        before.kind matches CellKind::BackgroundTerminal(old_card) ==> card@
            == lifecycle::after_event(old_card@, event)),
        record.layouts@.len() == 0,
{
}

/// A record of a seal shows nothing, bears the number that it was given, and carries on no text;
/// there is one just where there is a seal.
pub proof fn law_seal_record_is_that_of_the_seal(
    record: Option<Arc<HistoryCell>>,
    seal: Option<ToolRunSealCell>,
    id: u64,
)
    requires
        app_model::records_seal(record, seal, id),
    ensures
        record is Some <==> seal is Some,
        record matches Some(r) ==> r.id == id && !r.stream_continuation && (seal matches Some(s)
            && r.kind == CellKind::Seal(s)),
{
}

/// The header says what the session is: its model and effort, whether it is fast, where it works,
/// whether it asks first, and the version.
pub proof fn law_header_says_what_the_session_is(
    header: app_frame::SessionHeader,
    session: SessionFacts,
    version: Seq<char>,
)
    requires
        app_frame::header_matches(header, session, version),
    ensures
        header.model@ == session.model@,
        header.reasoning_effort is Some <==> session.reasoning_effort is Some,
        header.reasoning_effort matches Some(a) ==> (session.reasoning_effort matches Some(b)
            && a@ == b@),
        header.show_fast_status == session.show_fast_status,
        header.cwd@ == session.cwd@,
        header.version@ == version,
        header.yolo_mode == session.yolo_mode,
{
}

/// The end of a turn closes the run that began in it, and no other.
pub proof fn law_turn_closes_its_own_run(runs: ToolRunLifecycle, turn: String)
    ensures
        ({
            let own = runs.open matches Some(run) && (run.turn_id matches Some(owner) && owner@
                == turn@);
            let after = pane::turn_sealed(runs, turn@);
            &&& own ==> after.open is None
            &&& !own ==> after == runs
            &&& after.next_source_id == runs.next_source_id && after.current_turn_id
                == runs.current_turn_id
        }),
        ({
            let same = runs.current_turn_id matches Some(current) && current@ == turn@;
            let after = pane::turn_begun(runs, turn);
            &&& same ==> after == runs
            &&& !same ==> after.open is None && after.current_turn_id == Some(turn)
            &&& after.next_source_id == runs.next_source_id && after.next_run_id
                == runs.next_run_id
        }),
{
}

/// A pane shows its screen in the mode of the pane.
pub proof fn law_screen_takes_the_mode_of_its_pane(pane: PaneModel)
    ensures
        pane.screen is None ==> pane.with_render_mode() == pane,
        pane.screen matches Some(screen) ==> {
            let n = pane.with_render_mode();
            &&& n.screen matches Some(shown) && shown.view == screen.view.with_mode(
                pane.facts.render_mode,
            ) && shown.sources == screen.sources
            &&& n.cells == pane.cells
        },
        pane.screen matches Some(screen) ==> (screen.view.wf() && !screen.view.selecting()
            ==> pane.with_render_mode().screen->0.view.mode == pane.facts.render_mode),
{
}

/// The rows of live cells, added up.
pub open spec fn rows_of_live(cells: Seq<Arc<ActiveCellDisplaySnapshot>>, width: u16) -> int
    decreases cells.len(),
{
    if cells.len() == 0 {
        0
    } else {
        rows_of_live(cells.drop_last(), width) + pager_content::rows_at(
            text::views(cells.last().lines@),
            width,
        )
    }
}

/// A live tail that is built anew records the rows that all its cells take together; one that is
/// kept records nothing.
pub proof fn law_live_tail_records_its_rows(
    view: ViewportModel,
    width: u16,
    active: Option<ActiveCellRenderKey>,
    fresh: LiveModel,
)
    ensures
        !view.live_rebuilds(width, active) ==> conversation_viewport::live_peak(
            view,
            width,
            active,
            fresh,
        ) is None && view.live_bumps(width, active).len() == 0,
        view.live_rebuilds(width, active) ==> {
            let live = view.with_live(width, active, fresh).live;
            let rows = rows_of_live(live.primary + live.token + live.rate_limit, width);
            conversation_viewport::live_peak(view, width, active, fresh) == Some(
                if rows <= u64::MAX {
                    rows as u64
                } else {
                    u64::MAX
                },
            )
        },
{
    let live = view.with_live(width, active, fresh).live;
    lemma_live_rows(live.primary + live.token + live.rate_limit, width);
}

proof fn lemma_live_rows(cells: Seq<Arc<ActiveCellDisplaySnapshot>>, width: u16)
    ensures
        0 <= rows_of_live(cells, width),
        conversation_viewport::live_rows(cells, width) == if rows_of_live(cells, width) <= u64::MAX {
            rows_of_live(cells, width) as u64
        } else {
            u64::MAX
        },
    decreases cells.len(),
{
    if cells.len() > 0 {
        lemma_live_rows(cells.drop_last(), width);
    }
}

/// What is handed out of a group is the group: its name, where it starts, how many cells it folds,
/// and one cell more for its seal.
pub proof fn law_found_group_is_handed_out_whole(
    cells: Seq<Arc<HistoryCell>>,
    g: GroupModel,
    range: CompactToolGroupSourceRange,
    analysis: CompactToolGroupAnalysis,
    projection: CompactToolGroupProjection,
    expanded: bool,
)
    ensures
        compact_tool_groups::range_matches(Some(range), Some(g)) ==> range.id == g.id
            && range.source_start == g.start && range.source_cells == g.sources
            && range.consumed_cells == range.source_cells + 1,
        !compact_tool_groups::range_matches(Some(range), None),
        !compact_tool_groups::range_matches(None, Some(g)),
        compact_tool_groups::analysis_matches(Some(analysis), Some(g)) ==> analysis.id == g.id
            && analysis.detail@ == g.detail && analysis.source_cells == g.sources
            && analysis.consumed_cells == analysis.source_cells + 1 && analysis.action_count
            == g.actions,
        !compact_tool_groups::analysis_matches(None, Some(g)),
        compact_tool_groups::projection_matches(Some(projection), cells, Some(g), expanded)
            ==> projection.id == g.id && projection.source_start == g.start
            && projection.source_cells == g.sources && compact_tool_groups::shown(
            projection.cells@,
        ) == compact_tool_groups::group_rows(cells, g, expanded),
        !compact_tool_groups::projection_matches(None, cells, Some(g), expanded),
{
}

/// The text of a message that is still being written is asked for by its source, where it works,
/// its widths and the lines that are shown, which stand two columns in.
pub proof fn law_message_text_is_asked_for_by_its_source(
    request: MarkdownSelectionRequest,
    handle: ActiveCellSelectionHandle,
    lines: Seq<Seq<char>>,
)
    requires
        active_cell_selection::request_matches(request, handle, lines),
    ensures
        handle matches ActiveCellSelectionHandle::AgentMarkdown {
            source,
            cwd,
            markdown_width,
            display_width,
        } && request.source@ == source@ && request.cwd@ == cwd@ && request.markdown_width
            == markdown_width && request.display_width == display_width,
        request.outer_prefix_columns == 2,
        text::views(request.display_lines@) == lines,
{
}

/// A page key goes up a page and down a page in turn, and stops at the ends.
pub proof fn law_page_keys_move_by_a_page(fixture: &OwnedFrameFixture)
    ensures
        ({
            let offset = fixture.viewport@.scroll;
            let rows = fixture.conversation_area.height;
            let target = fixture.page_target();
            &&& fixture.input_down && offset + rows <= usize::MAX ==> target == offset + rows
            &&& !fixture.input_down && rows <= offset ==> target == offset - rows
            &&& !fixture.input_down && rows > offset ==> target == 0
        }),
{
}

/// The rows of the benchmark are told apart by what they say and by four digits of their number.
pub proof fn law_bench_rows_are_numbered(index: nat)
    ensures
        quiet_bench::bench_line(index) == "  "@ + quiet_bench::marker_of(index) + " "@
            + quiet_bench::four_digits(index) + " · cache-stable retained row"@,
        index % 4 == 0 ==> quiet_bench::marker_of(index) == "read source"@,
        index % 4 == 1 ==> quiet_bench::marker_of(index) == "searched symbols"@,
        index % 4 == 2 ==> quiet_bench::marker_of(index) == "ran focused tests"@,
        index % 4 == 3 ==> quiet_bench::marker_of(index) == "updated projection"@,
        index < 10 ==> quiet_bench::four_digits(index) == text::decimal(0) + text::decimal(0)
            + text::decimal(0) + text::decimal(index),
{
}

} // verus!
