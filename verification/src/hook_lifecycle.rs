//! Hook run lifecycle handling: the active hook cell, its timer, and its completion output.

use vstd::prelude::*;

use crate::text;

verus! {

/// What is known of the hook cell that is being shown.
pub struct HookCell {
    /// The record under which the cell is committed.
    pub cell_id: u64,
    pub is_empty: bool,
    pub should_flush: bool,
    /// The record of the runs that have completed and stay in history.
    pub completed_persistent: Option<u64>,
    /// Whether the cell is empty once those are taken out.
    pub empty_without_completed: bool,
    pub running_status: Option<String>,
    /// When the cell changes next by itself, in milliseconds.
    pub next_deadline_ms: Option<u64>,
}

/// A cell that waits for its turn to be committed.
#[derive(Clone, Copy, Debug, PartialEq, Eq, Structural)]
pub struct PendingCommit {
    pub cell_id: u64,
    pub retained_stream: bool,
}

/// The part of a chat widget that deals with hooks.
pub struct ChatWidget {
    pub active_hook_cell: Option<HookCell>,
    /// The status line of the bottom pane.
    pub hook_status: Option<String>,
    pub needs_final_message_separator: bool,
    pub pending_commits: Vec<PendingCommit>,
    /// Whether the insertion of pending usage output was asked for.
    pub usage_insertion_requested: bool,
    pub redraw_requested: bool,
    /// Whether a text stream is open that a hook interrupts.
    pub answer_stream_flushed: bool,
}

/// The state as a mathematical value.
#[verifier::ext_equal]
pub struct HookModel {
    pub active: Option<HookCell>,
    pub status: Option<Seq<char>>,
    pub separator: bool,
    pub commits: Seq<PendingCommit>,
    pub usage: bool,
    pub redraw: bool,
    pub flushed: bool,
}

impl View for ChatWidget {
    type V = HookModel;

    open spec fn view(&self) -> HookModel {
        HookModel {
            active: self.active_hook_cell,
            status: text::option_view(self.hook_status),
            separator: self.needs_final_message_separator,
            commits: self.pending_commits@,
            usage: self.usage_insertion_requested,
            redraw: self.redraw_requested,
            flushed: self.answer_stream_flushed,
        }
    }
}

/// The state without the active cell, which is not committed.
pub open spec fn cleared(m: HookModel) -> HookModel {
    if m.active is Some {
        HookModel { active: None, status: None, usage: true, ..m }
    } else {
        m
    }
}

/// The state after the completed runs went to history.
pub open spec fn flushed_output(m: HookModel) -> HookModel {
    match m.active {
        Some(cell) => match cell.completed_persistent {
            Some(record) => HookModel {
                active: if cell.empty_without_completed {
                    None
                } else {
                    Some(HookCell { completed_persistent: None, is_empty: false, ..cell })
                },
                separator: true,
                commits: m.commits.push(PendingCommit { cell_id: record, retained_stream: false }),
                usage: true,
                ..m
            },
            None => m,
        },
        None => m,
    }
}

/// The state after an idle cell was dropped or committed.
pub open spec fn finished_if_idle(m: HookModel) -> HookModel {
    match m.active {
        Some(cell) => if cell.is_empty {
            HookModel { active: None, usage: true, ..m }
        } else if cell.should_flush {
            HookModel {
                active: None,
                separator: true,
                commits: m.commits.push(
                    PendingCommit { cell_id: cell.cell_id, retained_stream: false },
                ),
                usage: true,
                ..m
            }
        } else {
            m
        },
        None => m,
    }
}

/// The state with the status line of the active cell.
pub open spec fn synced_footer(m: HookModel) -> HookModel {
    HookModel {
        status: match m.active {
            Some(cell) => text::option_view(cell.running_status),
            None => None,
        },
        ..m
    }
}

/// The state after a hook has started, with the given cell active.
pub open spec fn started(m: HookModel, next: HookCell) -> HookModel {
    HookModel {
        redraw: true,
        ..synced_footer(
            HookModel { active: Some(next), ..flushed_output(HookModel { flushed: true, ..m }) },
        )
    }
}

/// The state after a hook has completed, with the given cell holding the result.
pub open spec fn completed(m: HookModel, next: HookCell) -> HookModel {
    let shown = if m.active is None && next.is_empty {
        m
    } else {
        HookModel { active: Some(next), ..m }
    };
    HookModel { redraw: true, ..synced_footer(finished_if_idle(flushed_output(shown))) }
}

/// The state after time has passed, with the active cell at the new time.
pub open spec fn aged(m: HookModel, advanced: HookCell) -> HookModel {
    if m.active is Some {
        synced_footer(finished_if_idle(HookModel { active: Some(advanced), ..m }))
    } else {
        m
    }
}

/// The delay after which a frame is due.
pub open spec fn frame_delay(m: HookModel, now_ms: u64) -> Option<u64> {
    match m.active {
        Some(cell) => match cell.next_deadline_ms {
            Some(deadline) => Some(
                if deadline >= now_ms {
                    (deadline - now_ms) as u64
                } else {
                    0
                },
            ),
            None => None,
        },
        None => None,
    }
}

impl ChatWidget {
    /// Drops the transient status without sending it to history.
    pub fn clear_active_hook_cell(&mut self)
        ensures
            final(self)@ == cleared(old(self)@),
    {
        if self.active_hook_cell.is_some() {
            self.active_hook_cell = None;
            self.hook_status = None;
            self.request_pending_usage_output_insertion();
        }
    }

    pub fn request_pending_usage_output_insertion(&mut self)
        ensures
            final(self)@ == (HookModel { usage: true, ..old(self)@ }),
    {
        self.usage_insertion_requested = true;
    }

    pub fn request_redraw(&mut self)
        ensures
            final(self)@ == (HookModel { redraw: true, ..old(self)@ }),
    {
        self.redraw_requested = true;
    }

    fn queue_pending_history_commit(&mut self, cell_id: u64, retained_stream: bool)
        ensures
            final(self)@ == (HookModel {
                commits: old(self)@.commits.push(PendingCommit { cell_id, retained_stream }),
                ..old(self)@
            }),
    {
        self.pending_commits.push(PendingCommit { cell_id, retained_stream });
    }

    /// A hook has started. `next` is the active cell with the run in it: the shown one, after its
    /// completed output went to history, or a new one.
    pub fn on_hook_started(&mut self, next: HookCell)
        ensures
            final(self)@ == started(old(self)@, next),
    {
        self.answer_stream_flushed = true;
        self.flush_completed_hook_output();
        self.active_hook_cell = Some(next);
        self.sync_active_hook_footer();
        self.request_redraw();
    }

    /// A hook has completed. `next` is the active cell with the result in it; a new cell that
    /// would be empty is not shown.
    pub fn on_hook_completed(&mut self, next: HookCell)
        ensures
            final(self)@ == completed(old(self)@, next),
    {
        if !(self.active_hook_cell.is_none() && next.is_empty) {
            self.active_hook_cell = Some(next);
        }
        self.flush_completed_hook_output();
        self.finish_active_hook_cell_if_idle();
        self.sync_active_hook_footer();
        self.request_redraw();
    }

    pub fn flush_completed_hook_output(&mut self)
        ensures
            final(self)@ == flushed_output(old(self)@),
    {
        let cell = match self.active_hook_cell.take() {
            None => {
                return;
            },
            Some(cell) => cell,
        };
        match cell.completed_persistent {
            None => {
                self.active_hook_cell = Some(cell);
            },
            Some(record) => {
                if !cell.empty_without_completed {
                    self.active_hook_cell = Some(
                        HookCell {
                            cell_id: cell.cell_id,
                            is_empty: false,
                            should_flush: cell.should_flush,
                            completed_persistent: None,
                            empty_without_completed: cell.empty_without_completed,
                            running_status: cell.running_status,
                            next_deadline_ms: cell.next_deadline_ms,
                        },
                    );
                }
                self.needs_final_message_separator = true;
                self.queue_pending_history_commit(record, false);
                self.request_pending_usage_output_insertion();
            },
        }
    }

    pub fn finish_active_hook_cell_if_idle(&mut self)
        ensures
            final(self)@ == finished_if_idle(old(self)@),
    {
        let (is_empty, should_flush, cell_id) = match &self.active_hook_cell {
            None => {
                return;
            },
            Some(cell) => (cell.is_empty, cell.should_flush, cell.cell_id),
        };
        if is_empty {
            self.active_hook_cell = None;
            self.request_pending_usage_output_insertion();
            return;
        }
        if should_flush {
            self.active_hook_cell = None;
            self.needs_final_message_separator = true;
            self.queue_pending_history_commit(cell_id, false);
            self.request_pending_usage_output_insertion();
        }
    }

    /// Time has passed. `advanced` is the active cell at the new time.
    pub fn update_due_hook_visibility(&mut self, advanced: HookCell)
        ensures
            final(self)@ == aged(old(self)@, advanced),
    {
        if self.active_hook_cell.is_none() {
            return;
        }
        self.active_hook_cell = Some(advanced);
        self.finish_active_hook_cell_if_idle();
        self.sync_active_hook_footer();
    }

    /// The delay after which a frame is due, if the active cell has a timer.
    pub fn schedule_hook_timer_if_needed(&self, now_ms: u64) -> (r: Option<u64>)
        ensures
            r == frame_delay(self@, now_ms),
    {
        match &self.active_hook_cell {
            Some(cell) => match cell.next_deadline_ms {
                Some(deadline) => Some(deadline.saturating_sub(now_ms)),
                None => None,
            },
            None => None,
        }
    }

    pub fn sync_active_hook_footer(&mut self)
        ensures
            final(self)@ == synced_footer(old(self)@),
    {
        self.hook_status = match &self.active_hook_cell {
            Some(cell) => text::copy_option(&cell.running_status),
            None => None,
        };
    }
}

/// What a step leaves alone: the commits that waited before it stay in front, what it appends is
/// no stream, and a separator and the usage output are asked for wherever something was appended.
pub open spec fn keeps_waiting_commits(before: HookModel, after: HookModel) -> bool {
    &&& before.commits.len() <= after.commits.len()
    &&& after.commits.take(before.commits.len() as int) == before.commits
    &&& forall|k: int|
        before.commits.len() <= k < after.commits.len() ==> !(
        #[trigger] after.commits[k]).retained_stream
    &&& after.commits.len() > before.commits.len() ==> after.separator && after.usage
    &&& after.commits.len() == before.commits.len() ==> after.separator == before.separator
    &&& before.usage ==> after.usage
}

/// The records that a step appended to the commits that waited before it.
pub open spec fn newly_committed(before: HookModel, after: HookModel) -> Seq<u64> {
    Seq::new(
        (after.commits.len() - before.commits.len()) as nat,
        |k: int| after.commits[before.commits.len() + k].cell_id,
    )
}

/// A dropped hook cell is never committed: it leaves the screen with its status line, and nothing
/// else changes.
pub proof fn law_cleared_cell_is_not_committed(m: HookModel)
    ensures
        cleared(m).commits == m.commits,
        cleared(m).active is None,
        m.active is Some ==> cleared(m).status is None && cleared(m).usage,
        m.active is None ==> cleared(m) == m,
        cleared(m).separator == m.separator,
        cleared(m).redraw == m.redraw,
        cleared(m).flushed == m.flushed,
{
}

/// Output of completed runs is committed exactly once.
pub proof fn law_output_is_flushed_once(m: HookModel)
    ensures
        flushed_output(flushed_output(m)) == flushed_output(m),
{
}

/// Committing completed output takes away only the completed runs. The record of the completed
/// runs, and nothing else, is appended to the commits. Where runs remain in the active cell it
/// stays active as it was but for that output; it is dropped only where nothing remains. Without
/// completed output nothing changes.
pub proof fn law_flush_takes_away_only_completed_runs(m: HookModel)
    ensures
        keeps_waiting_commits(m, flushed_output(m)),
        flushed_output(m).status == m.status,
        flushed_output(m).redraw == m.redraw,
        flushed_output(m).flushed == m.flushed,
        match m.active {
            Some(cell) => match cell.completed_persistent {
                Some(record) => {
                    &&& newly_committed(m, flushed_output(m)) == seq![record]
                    &&& flushed_output(m).active is None <==> cell.empty_without_completed
                    &&& flushed_output(m).active matches Some(left) ==> {
                        &&& left.completed_persistent is None
                        &&& !left.is_empty
                        &&& left.cell_id == cell.cell_id
                        &&& left.should_flush == cell.should_flush
                        &&& left.running_status == cell.running_status
                        &&& left.next_deadline_ms == cell.next_deadline_ms
                    }
                },
                None => flushed_output(m) == m,
            },
            None => flushed_output(m) == m,
        },
{
    assert(flushed_output(m).commits.take(m.commits.len() as int) =~= m.commits);
    if let Some(cell) = m.active {
        if let Some(record) = cell.completed_persistent {
            assert(newly_committed(m, flushed_output(m)) =~= seq![record]);
        }
    }
}

/// An idle cell leaves the screen, and no other does: an empty one without a commit, one that is
/// to be flushed as a commit of its own record.
pub proof fn law_only_an_idle_cell_is_finished(m: HookModel)
    ensures
        keeps_waiting_commits(m, finished_if_idle(m)),
        finished_if_idle(m).status == m.status,
        finished_if_idle(m).redraw == m.redraw,
        finished_if_idle(m).flushed == m.flushed,
        match m.active {
            Some(cell) => {
                &&& !cell.is_empty && !cell.should_flush ==> finished_if_idle(m) == m
                &&& cell.is_empty || cell.should_flush ==> finished_if_idle(m).active is None
                    && finished_if_idle(m).usage
                &&& newly_committed(m, finished_if_idle(m)) == (if cell.should_flush
                    && !cell.is_empty {
                    seq![cell.cell_id]
                } else {
                    Seq::empty()
                })
            },
            None => finished_if_idle(m) == m,
        },
{
    assert(finished_if_idle(m).commits.take(m.commits.len() as int) =~= m.commits);
    if let Some(cell) = m.active {
        assert(newly_committed(m, finished_if_idle(m)) =~= (if cell.should_flush
            && !cell.is_empty {
            seq![cell.cell_id]
        } else {
            Seq::empty()
        }));
    }
}

/// After every step the footer says what the active cell says, and nothing where no cell is
/// active.
pub proof fn law_footer_follows_the_active_cell(m: HookModel, next: HookCell)
    ensures
        started(m, next).status == text::option_view(next.running_status),
        completed(m, next).active matches Some(cell) ==> completed(m, next).status
            == text::option_view(cell.running_status),
        completed(m, next).active is None ==> completed(m, next).status is None,
        m.active is Some ==> (aged(m, next).active matches Some(cell) ==> aged(m, next).status
            == text::option_view(cell.running_status)),
        m.active is Some && aged(m, next).active is None ==> aged(m, next).status is None,
        m.active is None ==> aged(m, next) == m,
        synced_footer(m) == (HookModel { status: synced_footer(m).status, ..m }),
        m.active matches Some(cell) ==> synced_footer(m).status == text::option_view(
            cell.running_status,
        ),
        m.active is None ==> synced_footer(m).status is None,
{
}

/// A hook that starts becomes the active cell. What had completed in the cell before goes to
/// history, the open text is flushed, and a frame is asked for.
pub proof fn law_started_hook_is_shown(m: HookModel, next: HookCell)
    ensures
        started(m, next).active == Some(next),
        started(m, next).redraw,
        started(m, next).flushed,
        keeps_waiting_commits(m, started(m, next)),
        newly_committed(m, started(m, next)) == (match m.active {
            Some(cell) => match cell.completed_persistent {
                Some(record) => seq![record],
                None => Seq::empty(),
            },
            None => Seq::empty(),
        }),
{
    law_flush_takes_away_only_completed_runs(HookModel { flushed: true, ..m });
    let after = started(m, next);
    assert(after.commits.take(m.commits.len() as int) =~= m.commits);
    assert(newly_committed(m, after) =~= (match m.active {
        Some(cell) => match cell.completed_persistent {
            Some(record) => seq![record],
            None => Seq::empty(),
        },
        None => Seq::empty(),
    }));
}

/// A completed hook commits its output first, and then the cell itself where nothing runs in it
/// any more and it is to be flushed. The cell stays active exactly as long as runs remain in it
/// that are not to be flushed, and then keeps its status and its timer.
pub proof fn law_completed_hook_leaves_what_still_runs(m: HookModel, next: HookCell)
    requires
        m.active is Some || !next.is_empty,
    ensures
        ({
            let after = completed(m, next);
            let remains = if next.completed_persistent is Some {
                !next.empty_without_completed
            } else {
                !next.is_empty
            };
            &&& after.redraw
            &&& after.flushed == m.flushed
            &&& keeps_waiting_commits(m, after)
            &&& after.active is Some <==> remains && !next.should_flush
            &&& after.active matches Some(cell) ==> cell.cell_id == next.cell_id
                && cell.running_status == next.running_status && cell.next_deadline_ms
                == next.next_deadline_ms && cell.completed_persistent is None
            &&& newly_committed(m, after) == (match next.completed_persistent {
                Some(record) => seq![record],
                None => Seq::empty(),
            }) + (if remains && next.should_flush {
                seq![next.cell_id]
            } else {
                Seq::empty()
            })
        }),
{
    let after = completed(m, next);
    assert(after.commits.take(m.commits.len() as int) =~= m.commits);
    let remains = if next.completed_persistent is Some {
        !next.empty_without_completed
    } else {
        !next.is_empty
    };
    assert(newly_committed(m, after) =~= (match next.completed_persistent {
        Some(record) => seq![record],
        None => Seq::empty(),
    }) + (if remains && next.should_flush {
        seq![next.cell_id]
    } else {
        Seq::empty()
    }));
}

/// An empty result that belongs to no active cell changes nothing but that a frame is drawn.
pub proof fn law_empty_result_is_not_shown(m: HookModel, next: HookCell)
    requires
        m.active is None,
        next.is_empty,
    ensures
        completed(m, next).active is None,
        completed(m, next).commits == m.commits,
        completed(m, next).separator == m.separator,
        completed(m, next).usage == m.usage,
        completed(m, next).redraw,
{
}

/// Time alone commits no output: a cell that is not due stays, a due one goes as a whole.
pub proof fn law_time_finishes_due_cells(m: HookModel, advanced: HookCell)
    requires
        m.active is Some,
    ensures
        aged(m, advanced).active == (if advanced.is_empty || advanced.should_flush {
            None
        } else {
            Some(advanced)
        }),
        keeps_waiting_commits(m, aged(m, advanced)),
        newly_committed(m, aged(m, advanced)) == (if advanced.should_flush && !advanced.is_empty {
            seq![advanced.cell_id]
        } else {
            Seq::empty()
        }),
        aged(m, advanced).redraw == m.redraw,
        aged(m, advanced).flushed == m.flushed,
{
    let after = aged(m, advanced);
    assert(after.commits.take(m.commits.len() as int) =~= m.commits);
    assert(newly_committed(m, after) =~= (if advanced.should_flush && !advanced.is_empty {
        seq![advanced.cell_id]
    } else {
        Seq::empty()
    }));
}

/// A frame is due at the deadline of the active cell, at once where that has passed, and never
/// without one.
pub proof fn law_frame_is_due_at_the_deadline(m: HookModel, now_ms: u64)
    ensures
        frame_delay(m, now_ms) is Some <==> (m.active matches Some(cell) && cell.next_deadline_ms
            is Some),
        frame_delay(m, now_ms) matches Some(delay) ==> {
            let deadline = m.active->0.next_deadline_ms->0;
            &&& now_ms <= deadline ==> now_ms + delay == deadline
            &&& now_ms > deadline ==> delay == 0
        },
{
}

} // verus!
