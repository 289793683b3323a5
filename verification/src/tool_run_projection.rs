//! Semantic lifecycle markers for quiet tool-run projection.
//!
//! Completed tool calls remain ordinary chronological source cells while a run is open. A
//! zero-height seal records the first semantic boundary after the run. Renderers may replace
//! source rows with a Work summary only where that marker is present.

use vstd::prelude::*;

use crate::history_cell::CellKind;
use crate::history_cell::HistoryCell;
use crate::ledger;
use crate::ledger::QuietLedger;
use crate::tool_classification;

verus! {

#[derive(Clone, Copy, Debug, PartialEq, Eq, Structural)]
pub struct SourceCellId(pub u64);

#[derive(Clone, Copy, Debug, PartialEq, Eq, Structural)]
pub struct RunId(pub u64);

impl RunId {
    pub fn get(self) -> (r: u64)
        ensures
            r == self.0,
    {
        self.0
    }
}

/// The end of a run of tool calls.
#[derive(Clone, Copy, Debug, PartialEq, Eq, Structural)]
pub struct ToolRunSealCell {
    pub run_id: RunId,
    pub first_source_id: SourceCellId,
    pub last_source_id: SourceCellId,
    pub action_count: usize,
}

/// The number of sources from `first` to `last`, kept within the range of a counter.
pub open spec fn source_span(first: int, last: int) -> int {
    let distance = if last >= first {
        last - first
    } else {
        0
    };
    let count = if distance + 1 <= u64::MAX {
        distance + 1
    } else {
        u64::MAX as int
    };
    if count <= usize::MAX {
        count
    } else {
        usize::MAX as int
    }
}

impl ToolRunSealCell {
    pub open spec fn sources(&self) -> int {
        source_span(self.first_source_id.0 as int, self.last_source_id.0 as int)
    }

    pub fn run_id(&self) -> (r: RunId)
        ensures
            r == self.run_id,
    {
        self.run_id
    }

    pub fn action_count(&self) -> (r: usize)
        ensures
            r == self.action_count,
    {
        self.action_count
    }

    pub fn source_count(&self) -> (r: usize)
        ensures
            r == self.sources(),
    {
        let count: u64 = self.last_source_id.0.saturating_sub(
            self.first_source_id.0,
        ).saturating_add(1);
        if count <= usize::MAX as u64 {
            count as usize
        } else {
            usize::MAX
        }
    }

    pub fn source_range(&self) -> (r: (SourceCellId, SourceCellId))
        ensures
            r == (self.first_source_id, self.last_source_id),
    {
        (self.first_source_id, self.last_source_id)
    }

    pub fn with_test_counts(
        run_id: u64,
        first_source_id: u64,
        last_source_id: u64,
        action_count: usize,
    ) -> (r: Self)
        ensures
            r == (ToolRunSealCell {
                run_id: RunId(run_id),
                first_source_id: SourceCellId(first_source_id),
                last_source_id: SourceCellId(last_source_id),
                action_count,
            }),
    {
        ToolRunSealCell {
            run_id: RunId(run_id),
            first_source_id: SourceCellId(first_source_id),
            last_source_id: SourceCellId(last_source_id),
            action_count,
        }
    }
}

pub open spec fn seal_of(cell: HistoryCell) -> Option<ToolRunSealCell> {
    match cell.kind {
        CellKind::Seal(seal) => Some(seal),
        _ => None,
    }
}

pub fn seal_cell(cell: &HistoryCell) -> (r: Option<&ToolRunSealCell>)
    ensures
        match r {
            Some(seal) => seal_of(*cell) == Some(*seal),
            None => seal_of(*cell) is None,
        },
{
    match &cell.kind {
        CellKind::Seal(seal) => Some(seal),
        _ => None,
    }
}

/// A run of tool calls that has not met a boundary yet.
pub struct OpenToolRun {
    pub run_id: RunId,
    pub first_source_id: SourceCellId,
    pub last_source_id: SourceCellId,
    pub action_count: usize,
    pub turn_id: Option<String>,
}

/// What an appended source is to a run.
#[derive(Clone, Copy, Debug, PartialEq, Eq, Structural)]
pub enum SourceClass {
    Action(usize),
    Transparent,
    Barrier,
}

/// Numbers the sources and the runs of a conversation, and knows the open run.
pub struct ToolRunLifecycle {
    pub next_source_id: u64,
    pub next_run_id: u64,
    pub current_turn_id: Option<String>,
    pub open: Option<OpenToolRun>,
}

pub open spec fn sealed(run: OpenToolRun) -> ToolRunSealCell {
    ToolRunSealCell {
        run_id: run.run_id,
        first_source_id: run.first_source_id,
        last_source_id: run.last_source_id,
        action_count: run.action_count,
    }
}

pub open spec fn capped_add(a: usize, b: usize) -> usize {
    if a + b <= usize::MAX {
        (a + b) as usize
    } else {
        usize::MAX
    }
}

pub open spec fn class_of(cell: HistoryCell) -> SourceClass {
    match tool_classification::cell_item(cell) {
        Some(item) => SourceClass::Action(item.actions as usize),
        None => if tool_classification::transparent(cell) {
            SourceClass::Transparent
        } else {
            SourceClass::Barrier
        },
    }
}

impl ToolRunLifecycle {
    /// The run identifiers in use are positive and below the next one, and the sources of the
    /// open run lie in order below the next source.
    pub open spec fn wf(&self) -> bool {
        &&& self.next_run_id >= 1
        &&& self.open matches Some(run) ==> {
            &&& 1 <= run.run_id.0 < self.next_run_id
            &&& run.first_source_id.0 <= run.last_source_id.0 < self.next_source_id
        }
    }

    /// Whether identifiers are left for one more source of the given class.
    pub open spec fn can_append(&self, class: SourceClass) -> bool {
        &&& self.next_source_id != u64::MAX
        &&& class is Action && self.open is None ==> self.next_run_id != u64::MAX
    }

    /// The state after one more source.
    pub open spec fn appended(self, class: SourceClass) -> ToolRunLifecycle {
        let source_id = SourceCellId(self.next_source_id);
        let next_source_id = (self.next_source_id + 1) as u64;
        match class {
            SourceClass::Action(actions) => match self.open {
                Some(run) => ToolRunLifecycle {
                    next_source_id,
                    open: Some(
                        OpenToolRun {
                            last_source_id: source_id,
                            action_count: capped_add(run.action_count, actions),
                            ..run
                        },
                    ),
                    ..self
                },
                None => ToolRunLifecycle {
                    next_source_id,
                    next_run_id: (self.next_run_id + 1) as u64,
                    current_turn_id: self.current_turn_id,
                    open: Some(
                        OpenToolRun {
                            run_id: RunId(self.next_run_id),
                            first_source_id: source_id,
                            last_source_id: source_id,
                            action_count: actions,
                            turn_id: self.current_turn_id,
                        },
                    ),
                },
            },
            SourceClass::Transparent => ToolRunLifecycle {
                next_source_id,
                open: match self.open {
                    Some(run) => Some(OpenToolRun { last_source_id: source_id, ..run }),
                    None => None,
                },
                ..self
            },
            SourceClass::Barrier => ToolRunLifecycle { next_source_id, open: None, ..self },
        }
    }

    /// The seal that closes the open run.
    pub open spec fn pending_seal(self) -> Option<ToolRunSealCell> {
        match self.open {
            Some(run) => Some(sealed(run)),
            None => None,
        }
    }

    /// The seal that one more source puts before itself.
    pub open spec fn seal_before(self, class: SourceClass) -> Option<ToolRunSealCell> {
        if class is Barrier {
            self.pending_seal()
        } else {
            None
        }
    }

    pub open spec fn closed_run(self) -> ToolRunLifecycle {
        ToolRunLifecycle { open: None, ..self }
    }

    pub open spec fn in_turn(self, turn_id: Seq<char>) -> bool {
        self.current_turn_id matches Some(current) && current@ == turn_id
    }

    /// The seal that the start of a turn gives.
    pub open spec fn seal_at_turn(self, turn_id: Seq<char>) -> Option<ToolRunSealCell> {
        if self.in_turn(turn_id) {
            None
        } else {
            self.pending_seal()
        }
    }

    /// The state in a turn.
    pub open spec fn turn_begun(self, turn_id: String) -> ToolRunLifecycle {
        if self.in_turn(turn_id@) {
            self
        } else {
            ToolRunLifecycle { open: None, current_turn_id: Some(turn_id), ..self }
        }
    }

    /// The state without an open run and without a turn. The numbering goes on.
    pub open spec fn forgotten(self) -> ToolRunLifecycle {
        ToolRunLifecycle { open: None, current_turn_id: None, ..self }
    }

    /// Whether the open run was started in the given turn.
    pub open spec fn run_belongs_to(self, turn_id: Seq<char>) -> bool {
        self.open matches Some(run) && run.turn_id matches Some(owner) && owner@ == turn_id
    }

    /// Records one source append and returns the seal that must be inserted before it, if any.
    pub fn before_source_append(&mut self, metrics: &mut QuietLedger, cell: &HistoryCell) -> (r:
        Option<ToolRunSealCell>)
        requires
            old(self).can_append(class_of(*cell)),
        ensures
            *final(self) == old(self).appended(class_of(*cell)),
            r == old(self).seal_before(class_of(*cell)),
            ledger::counted(
                *old(metrics),
                *final(metrics),
                tool_classification::item_scans(*cell),
            ),
    {
        let class = match tool_classification::tool_group_item(metrics, cell) {
            Some(item) => SourceClass::Action(item.summary.actions),
            None => if tool_classification::is_transparent_tool_group_cell(cell) {
                SourceClass::Transparent
            } else {
                SourceClass::Barrier
            },
        };
        self.before_classified_source_append(class)
    }

    pub fn before_classified_source_append(&mut self, class: SourceClass) -> (r: Option<
        ToolRunSealCell,
    >)
        requires
            old(self).can_append(class),
        ensures
            *final(self) == old(self).appended(class),
            r == old(self).seal_before(class),
    {
        let source_id = SourceCellId(self.next_source_id);
        self.next_source_id = self.next_source_id + 1;
        match class {
            SourceClass::Action(actions) => {
                match self.open.take() {
                    Some(run) => {
                        self.open = Some(
                            OpenToolRun {
                                run_id: run.run_id,
                                first_source_id: run.first_source_id,
                                last_source_id: source_id,
                                action_count: run.action_count.saturating_add(actions),
                                turn_id: run.turn_id,
                            },
                        );
                    },
                    None => {
                        let run_id = RunId(self.next_run_id);
                        self.next_run_id = self.next_run_id + 1;
                        let turn_id = match &self.current_turn_id {
                            Some(turn_id) => Some(turn_id.clone()),
                            None => None,
                        };
                        self.open = Some(
                            OpenToolRun {
                                run_id,
                                first_source_id: source_id,
                                last_source_id: source_id,
                                action_count: actions,
                                turn_id,
                            },
                        );
                    },
                }
                None
            },
            SourceClass::Transparent => {
                if let Some(run) = self.open.take() {
                    self.open = Some(
                        OpenToolRun {
                            run_id: run.run_id,
                            first_source_id: run.first_source_id,
                            last_source_id: source_id,
                            action_count: run.action_count,
                            turn_id: run.turn_id,
                        },
                    );
                }
                None
            },
            SourceClass::Barrier => self.seal_open_run(),
        }
    }

    pub fn seal_open_run(&mut self) -> (r: Option<ToolRunSealCell>)
        ensures
            *final(self) == old(self).closed_run(),
            r == old(self).pending_seal(),
    {
        match self.open.take() {
            Some(run) => Some(
                ToolRunSealCell {
                    run_id: run.run_id,
                    first_source_id: run.first_source_id,
                    last_source_id: run.last_source_id,
                    action_count: run.action_count,
                },
            ),
            None => None,
        }
    }

    pub fn is_active(&self) -> (r: bool)
        ensures
            r == (self.open is Some),
    {
        self.open.is_some()
    }

    /// Starts a protocol turn, sealing any stale run from an earlier turn first.
    pub fn begin_turn(&mut self, turn_id: String) -> (r: Option<ToolRunSealCell>)
        ensures
            r == old(self).seal_at_turn(turn_id@),
            *final(self) == old(self).turn_begun(turn_id),
    {
        let same = match &self.current_turn_id {
            Some(current) => crate::text::text_is(current.as_str(), turn_id.as_str()),
            None => false,
        };
        if same {
            return None;
        }
        let seal = self.seal_open_run();
        self.current_turn_id = Some(turn_id);
        seal
    }

    /// Seals only the run that belongs to the turn; a late completion cannot close a newer run.
    pub fn seal_turn(&mut self, turn_id: &str) -> (r: Option<ToolRunSealCell>)
        ensures
            old(self).run_belongs_to(turn_id@) ==> r == old(self).pending_seal() && *final(self)
                == old(self).closed_run(),
            !old(self).run_belongs_to(turn_id@) ==> r is None && *final(self) == *old(self),
    {
        let owned = match &self.open {
            Some(run) => match &run.turn_id {
                Some(owner) => crate::text::text_is(owner.as_str(), turn_id),
                None => false,
            },
            None => false,
        };
        if !owned {
            return None;
        }
        self.seal_open_run()
    }

    /// Forgets the open run and the turn. The numbering goes on.
    pub fn reset_open_run(&mut self)
        ensures
            *final(self) == old(self).forgotten(),
    {
        self.open = None;
        self.current_turn_id = None;
    }
}

impl Default for ToolRunLifecycle {
    fn default() -> (r: Self)
        ensures
            r == (ToolRunLifecycle {
                next_source_id: 0,
                next_run_id: 1,
                current_turn_id: None,
                open: None,
            }),
            r.wf(),
    {
        // Zero is the explicit "no hover" value of a hover state.
        ToolRunLifecycle { next_source_id: 0, next_run_id: 1, current_turn_id: None, open: None }
    }
}

/// Appending a source keeps a lifecycle well formed, and the seal that it gives names a run that
/// was open: its identifier is positive and below all later ones, and its sources are in order.
pub proof fn law_append_keeps_ids_ordered(state: ToolRunLifecycle, class: SourceClass)
    requires
        state.wf(),
        state.can_append(class),
    ensures
        state.appended(class).wf(),
        state.appended(class).next_source_id == state.next_source_id + 1,
        state.appended(class).next_run_id >= state.next_run_id,
        state.seal_before(class) matches Some(seal) ==> {
            &&& 1 <= seal.run_id.0 < state.appended(class).next_run_id
            &&& seal.first_source_id.0 <= seal.last_source_id.0 < state.next_source_id
        },
{
}

/// A run that starts gets an identifier that no earlier run had, and the identifier after it is
/// larger still: no run identifier is ever used twice.
pub proof fn law_new_run_id_is_fresh(state: ToolRunLifecycle, actions: usize)
    requires
        state.wf(),
        state.open is None,
        state.can_append(SourceClass::Action(actions)),
    ensures
        state.appended(SourceClass::Action(actions)).open matches Some(run) && run.run_id
            == RunId(state.next_run_id) && run.run_id.0 != 0,
        state.appended(SourceClass::Action(actions)).next_run_id > state.next_run_id,
{
}

/// Sealing is idempotent: once a run is sealed there is nothing left to seal.
pub proof fn law_sealing_is_idempotent(state: ToolRunLifecycle)
    ensures
        state.closed_run().pending_seal() is None,
        state.closed_run().closed_run() == state.closed_run(),
{
}

/// A transparent source neither opens a run nor seals one.
pub proof fn law_transparent_source_keeps_the_run(state: ToolRunLifecycle)
    requires
        state.wf(),
        state.can_append(SourceClass::Transparent),
    ensures
        state.seal_before(SourceClass::Transparent) is None,
        state.appended(SourceClass::Transparent).open is Some <==> state.open is Some,
{
}

/// The state after a sequence of sources.
pub open spec fn appended_all(
    state: ToolRunLifecycle,
    classes: Seq<SourceClass>,
) -> ToolRunLifecycle
    decreases classes.len(),
{
    if classes.len() == 0 {
        state
    } else {
        appended_all(state, classes.drop_last()).appended(classes.last())
    }
}

/// The actions of a sequence of sources, kept within the range of a counter.
pub open spec fn actions_in(classes: Seq<SourceClass>) -> usize
    decreases classes.len(),
{
    if classes.len() == 0 {
        0
    } else {
        match classes.last() {
            SourceClass::Action(n) => capped_add(actions_in(classes.drop_last()), n),
            _ => actions_in(classes.drop_last()),
        }
    }
}

/// A run that starts with an action and meets no barrier covers every source appended since, and
/// counts their actions.
pub proof fn law_open_run_covers_its_sources(
    state: ToolRunLifecycle,
    classes: Seq<SourceClass>,
)
    requires
        state.open is None,
        classes.len() > 0,
        classes[0] is Action,
        forall|i: int| 0 <= i < classes.len() ==> !((#[trigger] classes[i]) is Barrier),
        state.next_source_id + classes.len() <= u64::MAX,
        state.next_run_id < u64::MAX,
    ensures
        appended_all(state, classes).open matches Some(run) && {
            &&& run.run_id == RunId(state.next_run_id)
            &&& run.first_source_id == SourceCellId(state.next_source_id)
            &&& run.last_source_id.0 == state.next_source_id + classes.len() - 1
            &&& run.action_count == actions_in(classes)
            &&& run.turn_id == state.current_turn_id
        },
        appended_all(state, classes).next_source_id == state.next_source_id + classes.len(),
        appended_all(state, classes).current_turn_id == state.current_turn_id,
    decreases classes.len(),
{
    let shorter = classes.drop_last();
    if classes.len() == 1 {
        assert(appended_all(state, shorter) == state);
        assert(actions_in(shorter) == 0);
    } else {
        assert(shorter[0] == classes[0]);
        assert forall|i: int| 0 <= i < shorter.len() implies !((#[trigger] shorter[i]) is Barrier) by {
            assert(shorter[i] == classes[i]);
        }
        law_open_run_covers_its_sources(state, shorter);
        assert(!(classes[classes.len() - 1] is Barrier));
    }
}

/// Something that happens to the runs of a conversation.
pub enum RunEvent {
    BeginTurn(String),
    Append(SourceClass),
    SealTurn(Seq<char>),
    SealOpenRun,
    Reset,
}

/// The runs after an event.
pub open spec fn after_event(state: ToolRunLifecycle, event: RunEvent) -> ToolRunLifecycle {
    match event {
        RunEvent::BeginTurn(turn_id) => state.turn_begun(turn_id),
        RunEvent::Append(class) => state.appended(class),
        RunEvent::SealTurn(turn_id) => if state.run_belongs_to(turn_id) {
            state.closed_run()
        } else {
            state
        },
        RunEvent::SealOpenRun => state.closed_run(),
        RunEvent::Reset => state.forgotten(),
    }
}

/// The seal that an event gives.
pub open spec fn seal_by(state: ToolRunLifecycle, event: RunEvent) -> Option<ToolRunSealCell> {
    match event {
        RunEvent::BeginTurn(turn_id) => state.seal_at_turn(turn_id@),
        RunEvent::Append(class) => state.seal_before(class),
        RunEvent::SealTurn(turn_id) => if state.run_belongs_to(turn_id) {
            state.pending_seal()
        } else {
            None
        },
        RunEvent::SealOpenRun => state.pending_seal(),
        RunEvent::Reset => None,
    }
}

pub open spec fn after_events(state: ToolRunLifecycle, events: Seq<RunEvent>) -> ToolRunLifecycle
    decreases events.len(),
{
    if events.len() == 0 {
        state
    } else {
        after_event(after_events(state, events.drop_last()), events.last())
    }
}

/// All seals that a sequence of events gives, in order.
pub open spec fn seals_by(state: ToolRunLifecycle, events: Seq<RunEvent>) -> Seq<ToolRunSealCell>
    decreases events.len(),
{
    if events.len() == 0 {
        Seq::empty()
    } else {
        let before = seals_by(state, events.drop_last());
        match seal_by(after_events(state, events.drop_last()), events.last()) {
            Some(seal) => before.push(seal),
            None => before,
        }
    }
}

/// Whether identifiers are left for every source that is appended.
pub open spec fn room_for(state: ToolRunLifecycle, events: Seq<RunEvent>) -> bool
    decreases events.len(),
{
    events.len() > 0 ==> {
        &&& room_for(state, events.drop_last())
        &&& events.last() matches RunEvent::Append(class) ==> after_events(
            state,
            events.drop_last(),
        ).can_append(class)
    }
}

/// Whether a run, and every run that is still to come, lies behind a seal.
pub open spec fn lies_behind(state: ToolRunLifecycle, seal: ToolRunSealCell) -> bool {
    &&& seal.run_id.0 < state.next_run_id
    &&& seal.last_source_id.0 < state.next_source_id
    &&& state.open matches Some(run) ==> {
        &&& seal.run_id.0 < run.run_id.0
        &&& seal.last_source_id.0 < run.first_source_id.0
    }
}

/// Over a whole conversation, however its turns, sources, seals and resets follow each other: the
/// runs that are sealed have positive identifiers that grow, so that none is ever used twice, and
/// the sources of each sealed run lie wholly before those of the next.
pub proof fn law_seals_grow(state: ToolRunLifecycle, events: Seq<RunEvent>)
    requires
        state.wf(),
        room_for(state, events),
    ensures
        after_events(state, events).wf(),
        forall|i: int|
            0 <= i < seals_by(state, events).len() ==> {
                let seal = #[trigger] seals_by(state, events)[i];
                &&& seal.run_id.0 >= 1
                &&& seal.first_source_id.0 <= seal.last_source_id.0
                &&& lies_behind(after_events(state, events), seal)
            },
        forall|i: int, j: int|
            0 <= i < j < seals_by(state, events).len() ==> {
                let first = #[trigger] seals_by(state, events)[i];
                let second = #[trigger] seals_by(state, events)[j];
                &&& first.run_id.0 < second.run_id.0
                &&& first.last_source_id.0 < second.first_source_id.0
            },
    decreases events.len(),
{
    if events.len() > 0 {
        let earlier = events.drop_last();
        law_seals_grow(state, earlier);
        let before = after_events(state, earlier);
        let seals = seals_by(state, earlier);
        let all = seals_by(state, events);
        assert forall|i: int| 0 <= i < all.len() implies {
            let seal = #[trigger] all[i];
            &&& seal.run_id.0 >= 1
            &&& seal.first_source_id.0 <= seal.last_source_id.0
            &&& lies_behind(after_events(state, events), seal)
        } by {
            if i < seals.len() {
                assert(all[i] == seals[i]);
            }
        }
        assert forall|i: int, j: int| 0 <= i < j < all.len() implies {
            let first = #[trigger] all[i];
            let second = #[trigger] all[j];
            &&& first.run_id.0 < second.run_id.0
            &&& first.last_source_id.0 < second.first_source_id.0
        } by {
            assert(all[i] == seals[i]);
            assert(lies_behind(before, seals[i]));
            if j < seals.len() {
                assert(all[j] == seals[j]);
            }
        }
    }
}

} // verus!
