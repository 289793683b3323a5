//! Laws of the card of a fleet: which agents it counts as running, done, failed or paused.

use vstd::prelude::*;

use crate::agent_fleet;
use crate::agent_fleet::AgentFleetLifecycleCell;
use crate::agent_fleet::AgentModel;
use crate::agent_fleet::CollabAgentState;
use crate::agent_fleet::CollabAgentStatus;
use crate::agent_fleet::CollabAgentTool;
use crate::agent_fleet::CollabAgentToolCallStatus;
use crate::agent_fleet::CollabToolCall;
use crate::agent_fleet::FleetAgentStatus;
use crate::agent_fleet::FleetClass;
use crate::agent_fleet::FleetModel;
use crate::agent_fleet::SpawnModel;
use crate::agent_fleet::SubAgentActivity;
use crate::agent_fleet::SubAgentActivityKind;
use crate::card::SpanStyle;
use crate::lifecycle;
use crate::text;

verus! {

/// Whether a fleet shows an agent under a thread identifier.
pub open spec fn shows(
    agents: Seq<(Seq<char>, AgentModel)>,
    id: Seq<char>,
    agent: AgentModel,
) -> bool {
    exists|i: int| 0 <= i < agents.len() && (#[trigger] agents[i]) == (id, agent)
}

/// Whether a fleet shows any agent under a thread identifier.
pub open spec fn names(agents: Seq<(Seq<char>, AgentModel)>, id: Seq<char>) -> bool {
    exists|i: int| 0 <= i < agents.len() && (#[trigger] agents[i]).0 == id
}

/// What the card says of an agent whose state was last reported so.
pub open spec fn says_of(shown: FleetAgentStatus, reported: CollabAgentStatus) -> bool {
    &&& shown == FleetAgentStatus::Pending <==> reported == CollabAgentStatus::PendingInit
    &&& shown == FleetAgentStatus::Running <==> reported == CollabAgentStatus::Running
    &&& shown == FleetAgentStatus::Interrupted <==> reported == CollabAgentStatus::Interrupted
    &&& shown == FleetAgentStatus::Completed <==> reported == CollabAgentStatus::Completed
    &&& shown == FleetAgentStatus::Shutdown <==> reported == CollabAgentStatus::Shutdown
    &&& shown == FleetAgentStatus::Failed <==> reported == CollabAgentStatus::Errored || reported
        == CollabAgentStatus::NotFound
}

pub open spec fn counts_as_running(status: FleetAgentStatus) -> bool {
    status == FleetAgentStatus::Pending || status == FleetAgentStatus::Running
}

pub open spec fn counts_as_done(status: FleetAgentStatus) -> bool {
    status == FleetAgentStatus::Completed || status == FleetAgentStatus::Shutdown
}

proof fn lemma_not_before_itself(a: Seq<char>)
    ensures
        !text::comes_before(a, a),
    decreases a.len(),
{
    if a.len() > 0 {
        lemma_not_before_itself(a.skip(1));
    }
}

/// In an ordered fleet an agent is found where it stands.
proof fn lemma_found(agents: Seq<(Seq<char>, AgentModel)>, i: int)
    requires
        agent_fleet::in_order(agents),
        0 <= i < agents.len(),
    ensures
        agent_fleet::agent_index(agents, agents[i].0) == i,
        agent_fleet::knows_agent(agents, agents[i].0),
{
    let id = agents[i].0;
    let at = agent_fleet::agent_index(agents, id);
    agent_fleet::lemma_agent_index_bounds(agents, id);
    lemma_not_before_itself(id);
    if i < at {
        assert(text::comes_before(agents[i].0, id));
    } else if at < i {
        assert(text::comes_before(agents[at].0, agents[i].0));
    }
}

/// The agents with another entry for one of them.
pub open spec fn noted(
    agents: Seq<(Seq<char>, AgentModel)>,
    id: Seq<char>,
    label: Seq<char>,
    clip: Option<usize>,
    agent: AgentModel,
) -> Seq<(Seq<char>, AgentModel)> {
    agent_fleet::with_agent(agents, id, label, clip).update(
        agent_fleet::agent_index(agents, id),
        (id, agent),
    )
}

/// Noting something of one agent changes that agent and no other.
proof fn lemma_noted(
    agents: Seq<(Seq<char>, AgentModel)>,
    id: Seq<char>,
    label: Seq<char>,
    clip: Option<usize>,
    agent: AgentModel,
)
    requires
        agent_fleet::in_order(agents),
    ensures
        agent_fleet::in_order(noted(agents, id, label, clip, agent)),
        shows(noted(agents, id, label, clip, agent), id, agent),
        forall|other: Seq<char>, a: AgentModel|
            other != id ==> (#[trigger] shows(noted(agents, id, label, clip, agent), other, a)
                <==> shows(agents, other, a)),
{
    let known = agent_fleet::with_agent(agents, id, label, clip);
    let at = agent_fleet::agent_index(agents, id);
    let after = noted(agents, id, label, clip, agent);
    agent_fleet::law_agents_stay_in_order(agents, id, label, clip);
    agent_fleet::lemma_agent_index_bounds(agents, id);
    assert forall|i: int, j: int| 0 <= i < j < after.len() implies text::comes_before(
        (#[trigger] after[i]).0,
        (#[trigger] after[j]).0,
    ) by {
        assert(known[i].0 == after[i].0);
        assert(known[j].0 == after[j].0);
    }
    assert(after[at] == (id, agent));
    assert forall|other: Seq<char>, a: AgentModel| other != id implies (#[trigger] shows(
        after,
        other,
        a,
    ) <==> shows(agents, other, a)) by {
        if shows(after, other, a) {
            let i = choose|i: int| 0 <= i < after.len() && (#[trigger] after[i]) == (other, a);
            assert(known[i] == after[i]);
            if agent_fleet::knows_agent(agents, id) {
                assert(agents[i] == (other, a));
            } else if i < at {
                assert(agents[i] == (other, a));
            } else {
                assert(agents[i - 1] == (other, a));
            }
        }
        if shows(agents, other, a) {
            let i = choose|i: int| 0 <= i < agents.len() && (#[trigger] agents[i]) == (other, a);
            if agent_fleet::knows_agent(agents, id) {
                assert(after[i] == (other, a));
            } else if i < at {
                assert(after[i] == (other, a));
            } else {
                assert(after[i + 1] == (other, a));
            }
        }
    }
}

/// What was known of an agent before something is noted of it: its entry, or a new one.
proof fn lemma_known(
    agents: Seq<(Seq<char>, AgentModel)>,
    id: Seq<char>,
    label: Seq<char>,
    clip: Option<usize>,
)
    requires
        agent_fleet::in_order(agents),
    ensures
        ({
            let known = agent_fleet::with_agent(agents, id, label, clip);
            let found = known[agent_fleet::agent_index(agents, id)].1;
            &&& names(agents, id) ==> shows(agents, id, found)
            &&& !names(agents, id) ==> found == (AgentModel {
                label,
                label_clip: clip,
                task: None,
                configuration: None,
                status: FleetAgentStatus::Pending,
                message: None,
            })
        }),
{
    agent_fleet::lemma_agent_index_bounds(agents, id);
    let at = agent_fleet::agent_index(agents, id);
    let known = agent_fleet::with_agent(agents, id, label, clip);
    if names(agents, id) {
        let i = choose|i: int| 0 <= i < agents.len() && (#[trigger] agents[i]).0 == id;
        lemma_found(agents, i);
        assert(agents[at] == (id, known[at].1));
    } else if agent_fleet::knows_agent(agents, id) {
        assert(agents[at].0 == id);
    }
}

proof fn lemma_reports(
    agents: Seq<(Seq<char>, AgentModel)>,
    reports: Seq<(String, CollabAgentState)>,
    labels: Seq<(String, String)>,
)
    requires
        agent_fleet::in_order(agents),
    ensures
        agent_fleet::in_order(agent_fleet::with_reports(agents, reports, labels)),
        forall|id: Seq<char>, a: AgentModel|
            (forall|k: int| 0 <= k < reports.len() ==> (#[trigger] reports[k]).0@ != id) ==> (
            #[trigger] shows(agent_fleet::with_reports(agents, reports, labels), id, a) <==> shows(
                agents,
                id,
                a,
            )),
    decreases reports.len(),
{
    if reports.len() > 0 {
        let shorter = reports.drop_last();
        let report = reports.last();
        let before = agent_fleet::with_reports(agents, shorter, labels);
        let id = report.0@;
        let (label, clip) = agent_fleet::label_for(labels, id);
        lemma_reports(agents, shorter, labels);
        let known = agent_fleet::with_agent(before, id, label, clip);
        let found = known[agent_fleet::agent_index(before, id)].1;
        lemma_noted(before, id, label, clip, agent_fleet::reported(found, report.1));
        let after = agent_fleet::with_reports(agents, reports, labels);
        assert(after == noted(
            before,
            id,
            label,
            clip,
            agent_fleet::reported(found, report.1),
        ));
        assert forall|other: Seq<char>, a: AgentModel|
            (forall|k: int| 0 <= k < reports.len() ==> (#[trigger] reports[k]).0@
                != other) implies (#[trigger] shows(after, other, a) <==> shows(agents, other, a)) by {
            assert(reports[reports.len() - 1].0@ != other);
            assert forall|k: int| 0 <= k < shorter.len() implies (#[trigger] shorter[k]).0@
                != other by {
                assert(reports[k].0@ != other);
            }
            assert(shows(before, other, a) <==> shows(agents, other, a));
        }
    }
}

proof fn lemma_receivers(
    agents: Seq<(Seq<char>, AgentModel)>,
    ids: Seq<Seq<char>>,
    labels: Seq<(String, String)>,
    detail: Option<SpawnModel>,
    status: CollabAgentToolCallStatus,
)
    requires
        agent_fleet::in_order(agents),
    ensures
        agent_fleet::in_order(
            agent_fleet::with_receivers(agents, ids, labels, detail, status),
        ),
        forall|id: Seq<char>, a: AgentModel|
            !ids.contains(id) ==> (#[trigger] shows(
                agent_fleet::with_receivers(agents, ids, labels, detail, status),
                id,
                a,
            ) <==> shows(agents, id, a)),
        forall|id: Seq<char>|
            ids.contains(id) ==> #[trigger] names(
                agent_fleet::with_receivers(agents, ids, labels, detail, status),
                id,
            ),
        detail is None ==> forall|id: Seq<char>, a: AgentModel|
            shows(agents, id, a) ==> #[trigger] shows(
                agent_fleet::with_receivers(agents, ids, labels, detail, status),
                id,
                a,
            ),
    decreases ids.len(),
{
    if ids.len() > 0 {
        let shorter = ids.drop_last();
        let id = ids.last();
        let before = agent_fleet::with_receivers(agents, shorter, labels, detail, status);
        let (label, clip) = agent_fleet::label_for(labels, id);
        lemma_receivers(agents, shorter, labels, detail, status);
        let known = agent_fleet::with_agent(before, id, label, clip);
        let found = known[agent_fleet::agent_index(before, id)].1;
        let agent = agent_fleet::received(found, detail, status);
        lemma_noted(before, id, label, clip, agent);
        lemma_known(before, id, label, clip);
        let after = agent_fleet::with_receivers(agents, ids, labels, detail, status);
        assert(after == noted(before, id, label, clip, agent));
        assert(shows(after, id, agent));
        assert forall|other: Seq<char>, a: AgentModel| !ids.contains(other) implies (
        #[trigger] shows(after, other, a) <==> shows(agents, other, a)) by {
            assert(ids[ids.len() - 1] != other);
            assert(!shorter.contains(other)) by {
                if shorter.contains(other) {
                    let k = choose|k: int| 0 <= k < shorter.len() && shorter[k] == other;
                    assert(ids[k] == other);
                }
            }
            assert(shows(before, other, a) <==> shows(agents, other, a));
        }
        assert forall|other: Seq<char>| ids.contains(other) implies #[trigger] names(
            after,
            other,
        ) by {
            if other == id {
                let i = choose|i: int| 0 <= i < after.len() && (#[trigger] after[i]) == (id, agent);
                assert(after[i].0 == id);
            } else {
                let k = choose|k: int| 0 <= k < ids.len() && ids[k] == other;
                assert(shorter[k] == other);
                assert(names(before, other));
                let i = choose|i: int| 0 <= i < before.len() && (#[trigger] before[i]).0 == other;
                assert(shows(before, other, before[i].1));
                assert(shows(after, other, before[i].1));
                let j = choose|j: int|
                    0 <= j < after.len() && (#[trigger] after[j]) == (other, before[i].1);
                assert(after[j].0 == other);
            }
        }
        if detail is None {
            assert(agent == found);
            assert forall|other: Seq<char>, a: AgentModel| shows(agents, other, a) implies
                #[trigger] shows(after, other, a) by {
                assert(shows(before, other, a));
                if other == id {
                    let i = choose|i: int|
                        0 <= i < before.len() && (#[trigger] before[i]) == (other, a);
                    assert(before[i].0 == id);
                    lemma_found(before, i);
                    assert(found == a);
                }
            }
        }
    }
}

proof fn lemma_last_report(
    agents: Seq<(Seq<char>, AgentModel)>,
    reports: Seq<(String, CollabAgentState)>,
    labels: Seq<(String, String)>,
    k: int,
) -> (agent: AgentModel)
    requires
        agent_fleet::in_order(agents),
        0 <= k < reports.len(),
        forall|j: int| k < j < reports.len() ==> (#[trigger] reports[j]).0@ != reports[k].0@,
    ensures
        shows(agent_fleet::with_reports(agents, reports, labels), reports[k].0@, agent),
        says_of(agent.status, reports[k].1.status),
        reports[k].1.message matches Some(message) ==> agent.message == Some(message@),
    decreases reports.len(),
{
    let shorter = reports.drop_last();
    let report = reports.last();
    let before = agent_fleet::with_reports(agents, shorter, labels);
    let id = report.0@;
    let (label, clip) = agent_fleet::label_for(labels, id);
    lemma_reports(agents, shorter, labels);
    let known = agent_fleet::with_agent(before, id, label, clip);
    let found = known[agent_fleet::agent_index(before, id)].1;
    let agent = agent_fleet::reported(found, report.1);
    lemma_noted(before, id, label, clip, agent);
    assert(agent_fleet::with_reports(agents, reports, labels) == noted(
        before,
        id,
        label,
        clip,
        agent,
    ));
    if k == reports.len() - 1 {
        agent
    } else {
        assert(reports[reports.len() - 1].0@ != reports[k].0@);
        assert forall|j: int| k < j < shorter.len() implies (#[trigger] shorter[j]).0@
            != shorter[k].0@ by {
            assert(reports[j].0@ != reports[k].0@);
        }
        let earlier = lemma_last_report(agents, shorter, labels, k);
        assert(shows(before, reports[k].0@, earlier));
        earlier
    }
}

/// The last report of a call decides how an agent is shown: as done only where it completed or
/// shut down, as running only where it starts or runs, as failed where it errored or was not
/// found, as paused where it was interrupted.
pub proof fn law_last_report_decides(
    fleet: FleetModel,
    call: CollabToolCall,
    labels: Seq<(String, String)>,
    k: int,
)
    requires
        agent_fleet::in_order(fleet.agents),
        0 <= k < call.agents_states@.len(),
        forall|j: int|
            k < j < call.agents_states@.len() ==> (#[trigger] call.agents_states@[j]).0@
                != call.agents_states@[k].0@,
    ensures
        exists|agent: AgentModel|
            #[trigger] shows(
                agent_fleet::after_tool_call(fleet, call, labels).agents,
                call.agents_states@[k].0@,
                agent,
            ) && says_of(agent.status, call.agents_states@[k].1.status) && (
            call.agents_states@[k].1.message matches Some(message) ==> agent.message == Some(
                message@,
            )),
{
    let ids = text::views(call.receiver_thread_ids@);
    let detail = agent_fleet::spawn_detail(fleet.spawns, call);
    lemma_receivers(fleet.agents, ids, labels, detail, call.status);
    let agent = lemma_last_report(
        agent_fleet::with_receivers(fleet.agents, ids, labels, detail, call.status),
        call.agents_states@,
        labels,
        k,
    );
    assert(shows(
        agent_fleet::after_tool_call(fleet, call, labels).agents,
        call.agents_states@[k].0@,
        agent,
    ));
}

/// A report changes the state of an agent and, where it brings one, its message; the name, the
/// task and the configuration stay.
pub proof fn law_report_changes_state_and_message(agent: AgentModel, state: CollabAgentState)
    ensures
        ({
            let after = agent_fleet::reported(agent, state);
            &&& says_of(after.status, state.status)
            &&& after.label == agent.label && after.label_clip == agent.label_clip
            &&& after.task == agent.task && after.configuration == agent.configuration
            &&& state.message is None ==> after.message == agent.message
            &&& state.message matches Some(message) ==> after.message == Some(message@)
        }),
{
}

/// A call leaves alone every agent that it neither names nor reports.
pub proof fn law_call_leaves_other_agents_alone(
    fleet: FleetModel,
    call: CollabToolCall,
    labels: Seq<(String, String)>,
    id: Seq<char>,
    agent: AgentModel,
)
    requires
        agent_fleet::in_order(fleet.agents),
        !text::views(call.receiver_thread_ids@).contains(id),
        forall|k: int|
            0 <= k < call.agents_states@.len() ==> (#[trigger] call.agents_states@[k]).0@ != id,
    ensures
        shows(agent_fleet::after_tool_call(fleet, call, labels).agents, id, agent) <==> shows(
            fleet.agents,
            id,
            agent,
        ),
        agent_fleet::in_order(agent_fleet::after_tool_call(fleet, call, labels).agents),
{
    let ids = text::views(call.receiver_thread_ids@);
    let detail = agent_fleet::spawn_detail(fleet.spawns, call);
    lemma_receivers(fleet.agents, ids, labels, detail, call.status);
    let between = agent_fleet::with_receivers(fleet.agents, ids, labels, detail, call.status);
    lemma_reports(between, call.agents_states@, labels);
    assert(shows(between, id, agent) <==> shows(fleet.agents, id, agent));
}

/// Every receiver of a call is on the card, and a call that spawns nothing changes no receiver
/// that it does not report: what was known of it, how it stood included, stays.
pub proof fn law_receivers_are_on_the_card(
    fleet: FleetModel,
    call: CollabToolCall,
    labels: Seq<(String, String)>,
    id: Seq<char>,
)
    requires
        agent_fleet::in_order(fleet.agents),
        text::views(call.receiver_thread_ids@).contains(id),
        forall|k: int|
            0 <= k < call.agents_states@.len() ==> (#[trigger] call.agents_states@[k]).0@ != id,
    ensures
        names(agent_fleet::after_tool_call(fleet, call, labels).agents, id),
        call.tool != CollabAgentTool::SpawnAgent ==> forall|agent: AgentModel|
            shows(fleet.agents, id, agent) ==> #[trigger] shows(
                agent_fleet::after_tool_call(fleet, call, labels).agents,
                id,
                agent,
            ),
{
    let ids = text::views(call.receiver_thread_ids@);
    let detail = agent_fleet::spawn_detail(fleet.spawns, call);
    lemma_receivers(fleet.agents, ids, labels, detail, call.status);
    let between = agent_fleet::with_receivers(fleet.agents, ids, labels, detail, call.status);
    let after = agent_fleet::after_tool_call(fleet, call, labels).agents;
    lemma_reports(between, call.agents_states@, labels);
    assert(names(between, id));
    let i = choose|i: int| 0 <= i < between.len() && (#[trigger] between[i]).0 == id;
    assert(shows(between, id, between[i].1));
    assert(shows(after, id, between[i].1));
    let j = choose|j: int| 0 <= j < after.len() && (#[trigger] after[j]) == (id, between[i].1);
    assert(after[j].0 == id);
    if call.tool != CollabAgentTool::SpawnAgent {
        assert forall|agent: AgentModel| shows(fleet.agents, id, agent) implies #[trigger] shows(
            after,
            id,
            agent,
        ) by {
            assert(shows(between, id, agent));
        }
    }
}

/// A spawn gives its agent the task and the configuration that it names, and sets a waiting agent
/// to work once it has succeeded; an agent that is further along is not set back.
pub proof fn law_spawn_sets_a_waiting_agent_to_work(
    agent: AgentModel,
    detail: SpawnModel,
    status: CollabAgentToolCallStatus,
)
    ensures
        ({
            let after = agent_fleet::received(agent, Some(detail), status);
            &&& detail.task is Some ==> after.task == detail.task
            &&& detail.task is None ==> after.task == agent.task
            &&& detail.configuration is Some ==> after.configuration == detail.configuration
            &&& detail.configuration is None ==> after.configuration == agent.configuration
            &&& after.label == agent.label && after.message == agent.message
            &&& agent.status != FleetAgentStatus::Pending ==> after.status == agent.status
            &&& agent.status == FleetAgentStatus::Pending ==> (after.status
                == FleetAgentStatus::Running <==> status == CollabAgentToolCallStatus::Completed)
            &&& after.status == agent.status || after.status == FleetAgentStatus::Running
        }),
{
}

proof fn lemma_spawn_place(spawns: Seq<(Seq<char>, SpawnModel)>, id: Seq<char>)
    ensures
        0 <= agent_fleet::spawn_index(spawns, id) <= spawns.len(),
        agent_fleet::spawn_index(spawns, id) < spawns.len() ==> spawns[agent_fleet::spawn_index(
            spawns,
            id,
        )].0 == id,
        forall|k: int|
            0 <= k < agent_fleet::spawn_index(spawns, id) ==> (#[trigger] spawns[k]).0 != id,
    decreases spawns.len(),
{
    if spawns.len() > 0 && spawns[0].0 != id {
        let rest = spawns.skip(1);
        lemma_spawn_place(rest, id);
        assert forall|k: int| 0 <= k < agent_fleet::spawn_index(spawns, id) implies (
        #[trigger] spawns[k]).0 != id by {
            if k > 0 {
                assert(rest[k - 1] == spawns[k]);
            }
        }
    }
}

proof fn lemma_spawn_at(spawns: Seq<(Seq<char>, SpawnModel)>, id: Seq<char>, i: int)
    requires
        0 <= i < spawns.len(),
        spawns[i].0 == id,
        forall|k: int| 0 <= k < i ==> (#[trigger] spawns[k]).0 != id,
    ensures
        agent_fleet::spawn_index(spawns, id) == i,
{
    lemma_spawn_place(spawns, id);
    let at = agent_fleet::spawn_index(spawns, id);
    if i < at {
        assert(spawns[i].0 != id);
    } else if at < i {
        assert(spawns[at].0 != id);
    }
}

/// What a spawn said when it started is what its agent gets when it ends, whatever the end says
/// of it.
pub proof fn law_spawn_keeps_what_it_started_with(
    spawns: Seq<(Seq<char>, SpawnModel)>,
    start: CollabToolCall,
    end: CollabToolCall,
)
    requires
        start.tool == CollabAgentTool::SpawnAgent,
        end.tool == CollabAgentTool::SpawnAgent,
        start.status == CollabAgentToolCallStatus::InProgress,
        end.status != CollabAgentToolCallStatus::InProgress,
        start.id@ == end.id@,
    ensures
        agent_fleet::spawn_detail(agent_fleet::spawns_after(spawns, start), end)
            == agent_fleet::spawn_detail(spawns, start),
        agent_fleet::spawn_detail(spawns, start) is Some,
{
    let id = start.id@;
    lemma_spawn_place(spawns, id);
    let at = agent_fleet::spawn_index(spawns, id);
    let after = agent_fleet::spawns_after(spawns, start);
    assert(after[at] == (id, agent_fleet::spawn_of(start)));
    assert forall|k: int| 0 <= k < at implies (#[trigger] after[k]).0 != id by {
        assert(after[k] == spawns[k]);
    }
    lemma_spawn_at(after, id, at);
}

/// Each call is written down once, counts as an interaction exactly where it has ended and spawned
/// nothing, and leaves an error exactly where it failed.
pub proof fn law_calls_are_written_down(
    fleet: FleetModel,
    call: CollabToolCall,
    labels: Seq<(String, String)>,
)
    requires
        0 <= fleet.interactions < usize::MAX,
    ensures
        ({
            let after = agent_fleet::after_tool_call(fleet, call, labels);
            &&& after.events.len() == fleet.events.len() + 1
            &&& after.events.drop_last() == fleet.events
            &&& after.interactions - fleet.interactions == (if call.tool
                != CollabAgentTool::SpawnAgent && call.status
                != CollabAgentToolCallStatus::InProgress {
                1int
            } else {
                0int
            })
            &&& call.status == CollabAgentToolCallStatus::Failed ==> after.errors.len()
                == fleet.errors.len() + 1 && after.errors.drop_last() == fleet.errors
            &&& call.status != CollabAgentToolCallStatus::Failed ==> after.errors == fleet.errors
        }),
{
    let after = agent_fleet::after_tool_call(fleet, call, labels);
    assert(after.events.drop_last() =~= fleet.events);
    if call.status == CollabAgentToolCallStatus::Failed {
        assert(after.errors.drop_last() =~= fleet.errors);
    }
}

/// An agent that was seen at work is shown under its path and as running, an interrupted one as
/// paused; nothing else of it changes, and no other agent does.
pub proof fn law_activity_shows_the_agent(
    fleet: FleetModel,
    activity: SubAgentActivity,
    other: Seq<char>,
    a: AgentModel,
)
    requires
        agent_fleet::in_order(fleet.agents),
    ensures
        exists|agent: AgentModel|
            #[trigger] shows(
                agent_fleet::after_activity(fleet, activity).agents,
                activity.agent_thread_id@,
                agent,
            ) && agent.label == activity.agent_path@ && agent.label_clip is None && (agent.status
                == FleetAgentStatus::Interrupted <==> activity.kind
                == SubAgentActivityKind::Interrupted) && (agent.status == FleetAgentStatus::Running
                <==> activity.kind != SubAgentActivityKind::Interrupted) && (shows(
                fleet.agents,
                activity.agent_thread_id@,
                a,
            ) ==> agent.task == a.task && agent.configuration == a.configuration && agent.message
                == a.message),
        other != activity.agent_thread_id@ ==> (shows(
            agent_fleet::after_activity(fleet, activity).agents,
            other,
            a,
        ) <==> shows(fleet.agents, other, a)),
        agent_fleet::after_activity(fleet, activity).interactions == fleet.interactions,
        agent_fleet::after_activity(fleet, activity).errors == fleet.errors,
        agent_fleet::after_activity(fleet, activity).spawns == fleet.spawns,
        agent_fleet::after_activity(fleet, activity).events.drop_last() == fleet.events,
        agent_fleet::after_activity(fleet, activity).events.len() == fleet.events.len() + 1,
{
    let id = activity.agent_thread_id@;
    let path = activity.agent_path@;
    let after = agent_fleet::after_activity(fleet, activity);
    let known = agent_fleet::with_agent(fleet.agents, id, path, None);
    let at = agent_fleet::agent_index(fleet.agents, id);
    agent_fleet::law_agents_stay_in_order(fleet.agents, id, path, None);
    let agent = after.agents[at].1;
    lemma_noted(fleet.agents, id, path, None, agent);
    lemma_known(fleet.agents, id, path, None);
    assert(after.agents =~= noted(fleet.agents, id, path, None, agent));
    assert(shows(after.agents, id, agent));
    if shows(fleet.agents, id, a) {
        let i = choose|i: int|
            0 <= i < fleet.agents.len() && (#[trigger] fleet.agents[i]) == (id, a);
        lemma_found(fleet.agents, i);
    }
    assert(after.events.drop_last() =~= fleet.events);
}

proof fn lemma_count(agents: Seq<(Seq<char>, AgentModel)>)
    ensures
        agent_fleet::count_class(agents, FleetClass::Running) == agents.filter(
            |e: (Seq<char>, AgentModel)| counts_as_running(e.1.status),
        ).len(),
        agent_fleet::count_class(agents, FleetClass::Completed) == agents.filter(
            |e: (Seq<char>, AgentModel)| counts_as_done(e.1.status),
        ).len(),
        agent_fleet::count_class(agents, FleetClass::Failed) == agents.filter(
            |e: (Seq<char>, AgentModel)| e.1.status == FleetAgentStatus::Failed,
        ).len(),
        agent_fleet::count_class(agents, FleetClass::Paused) == agents.filter(
            |e: (Seq<char>, AgentModel)| e.1.status == FleetAgentStatus::Interrupted,
        ).len(),
        agent_fleet::count_class(agents, FleetClass::Running) + agent_fleet::count_class(
            agents,
            FleetClass::Completed,
        ) + agent_fleet::count_class(agents, FleetClass::Failed) + agent_fleet::count_class(
            agents,
            FleetClass::Paused,
        ) == agents.len(),
    decreases agents.len(),
{
    reveal(Seq::filter);
    if agents.len() > 0 {
        lemma_count(agents.drop_last());
    }
}

/// The counts of a fleet are those of its agents: running are those that start or run, done those
/// that completed or shut down, failed those that failed, and paused those that were interrupted.
/// Every agent is counted once.
pub proof fn law_counts_are_those_of_the_agents(agents: Seq<(Seq<char>, AgentModel)>)
    ensures
        agent_fleet::count_class(agents, FleetClass::Running) == agents.filter(
            |e: (Seq<char>, AgentModel)| counts_as_running(e.1.status),
        ).len(),
        agent_fleet::count_class(agents, FleetClass::Completed) == agents.filter(
            |e: (Seq<char>, AgentModel)| counts_as_done(e.1.status),
        ).len(),
        agent_fleet::count_class(agents, FleetClass::Failed) == agents.filter(
            |e: (Seq<char>, AgentModel)| e.1.status == FleetAgentStatus::Failed,
        ).len(),
        agent_fleet::count_class(agents, FleetClass::Paused) == agents.filter(
            |e: (Seq<char>, AgentModel)| e.1.status == FleetAgentStatus::Interrupted,
        ).len(),
        agent_fleet::count_class(agents, FleetClass::Running) + agent_fleet::count_class(
            agents,
            FleetClass::Completed,
        ) + agent_fleet::count_class(agents, FleetClass::Failed) + agent_fleet::count_class(
            agents,
            FleetClass::Paused,
        ) == agents.len(),
{
    lemma_count(agents);
}

pub open spec fn one_if(condition: bool) -> int {
    if condition {
        1
    } else {
        0
    }
}

/// The card says how many agents run, are done, failed and paused, in this order and each only
/// where there are any; without agents it says that they are being spawned.
pub proof fn law_card_says_how_many(agents: Seq<(Seq<char>, AgentModel)>)
    ensures
        ({
            let running = agents.filter(
                |e: (Seq<char>, AgentModel)| counts_as_running(e.1.status),
            ).len();
            let done = agents.filter(
                |e: (Seq<char>, AgentModel)| counts_as_done(e.1.status),
            ).len();
            let failed = agents.filter(
                |e: (Seq<char>, AgentModel)| e.1.status == FleetAgentStatus::Failed,
            ).len();
            let paused = agents.filter(
                |e: (Seq<char>, AgentModel)| e.1.status == FleetAgentStatus::Interrupted,
            ).len();
            let parts = agent_fleet::fleet_parts(agents);
            &&& running > 0 ==> parts[0] == text::decimal(running) + " running"@
            &&& done > 0 ==> parts[one_if(running > 0)] == text::decimal(done) + " done"@
            &&& failed > 0 ==> parts[one_if(running > 0) + one_if(done > 0)] == text::decimal(
                failed,
            ) + " failed"@
            &&& paused > 0 ==> parts[one_if(running > 0) + one_if(done > 0) + one_if(failed > 0)]
                == text::decimal(paused) + " paused"@
            &&& agents.len() > 0 ==> parts.len() == one_if(running > 0) + one_if(done > 0)
                + one_if(failed > 0) + one_if(paused > 0)
            &&& agents.len() == 0 ==> parts == seq!["spawning"@]
        }),
{
    lemma_count(agents);
    let parts = agent_fleet::fleet_parts(agents);
    if agents.len() == 0 {
        assert(parts =~= seq!["spawning"@]);
    }
}

/// The header names the number of agents and what they do.
pub proof fn law_header_counts_the_agents(fleet: FleetModel, elapsed_seconds: nat)
    ensures
        ({
            let header = agent_fleet::fleet_card(fleet, elapsed_seconds).header;
            let n = header.len() as int;
            &&& header[1].text == "Agents"@
            &&& header[3].text == text::decimal(fleet.agents.len())
            &&& header[5].text == text::joined(agent_fleet::fleet_parts(fleet.agents), " · "@)
            &&& header[n - 3].text == lifecycle::coarse_elapsed(elapsed_seconds)
            &&& fleet.interactions <= 0 ==> n == 10
            &&& fleet.interactions > 0 ==> n == 12 && header[7].text
                == lifecycle::interactions_label(fleet.interactions as nat)
        }),
{
}

proof fn lemma_results(agents: Seq<(Seq<char>, AgentModel)>, status: FleetAgentStatus)
    ensures
        agent_fleet::results(agents, status).len() == agents.filter(
            |e: (Seq<char>, AgentModel)| e.1.status == status && says_something(e.1.message),
        ).len(),
        forall|k: int|
            0 <= k < agent_fleet::results(agents, status).len() ==> {
                let agent = #[trigger] agent_fleet::results(agents, status)[k];
                &&& agent.status == status
                &&& says_something(agent.message)
                &&& exists|i: int| 0 <= i < agents.len() && (#[trigger] agents[i]).1 == agent
            },
    decreases agents.len(),
{
    reveal(Seq::filter);
    if agents.len() > 0 {
        let shorter = agents.drop_last();
        lemma_results(shorter, status);
        let all = agent_fleet::results(agents, status);
        let before = agent_fleet::results(shorter, status);
        assert forall|k: int| 0 <= k < all.len() implies {
            let agent = #[trigger] all[k];
            &&& agent.status == status
            &&& says_something(agent.message)
            &&& exists|i: int| 0 <= i < agents.len() && (#[trigger] agents[i]).1 == agent
        } by {
            if k < before.len() {
                let agent = before[k];
                let i = choose|i: int| 0 <= i < shorter.len() && (#[trigger] shorter[i]).1 == agent;
                assert(agents[i].1 == agent);
            } else {
                assert(agents[agents.len() - 1].1 == all[k]);
            }
        }
    }
}

/// Whether there is a message with something in it.
pub open spec fn says_something(message: Option<Seq<char>>) -> bool {
    message matches Some(m) && text::trimmed(m).len() > 0
}

/// The rows of a card that show results are those of agents that failed or completed and left a
/// message: a failure is marked as one and a success as one, each with the name of the agent and
/// what it said. No more than three are shown.
pub proof fn law_results_are_marked_as_they_are(fleet: FleetModel, elapsed_seconds: nat, k: int)
    requires
        0 <= k < agent_fleet::shown_results(fleet.agents).len(),
    ensures
        agent_fleet::shown_results(fleet.agents).len() <= 3,
        ({
            let agent = agent_fleet::shown_results(fleet.agents)[k];
            let row = agent_fleet::fleet_card(fleet, elapsed_seconds).details[k];
            &&& exists|i: int|
                0 <= i < fleet.agents.len() && (#[trigger] fleet.agents[i]).1 == agent
            &&& says_something(agent.message)
            &&& agent.status == FleetAgentStatus::Failed || agent.status
                == FleetAgentStatus::Completed
            &&& agent.status == FleetAgentStatus::Failed ==> row[1].text == "✗"@ && row[1].style
                == SpanStyle::Red
            &&& agent.status == FleetAgentStatus::Completed ==> row[1].text == "✓"@ && row[1].style
                == SpanStyle::Green
            &&& row[3].text == agent.label && row[3].clip == agent.label_clip
            &&& row[5].text == text::collapsed(agent.message->0)
            &&& row.len() == 6
        }),
{
    lemma_results(fleet.agents, FleetAgentStatus::Failed);
    lemma_results(fleet.agents, FleetAgentStatus::Completed);
    let failed = agent_fleet::results(fleet.agents, FleetAgentStatus::Failed);
    let done = agent_fleet::results(fleet.agents, FleetAgentStatus::Completed);
    let agent = agent_fleet::shown_results(fleet.agents)[k];
    if k < failed.len() {
        assert(failed[k] == agent);
    } else {
        assert(done[k - failed.len()] == agent);
    }
}

/// Every result is shown as long as there is room for three rows.
pub proof fn law_results_are_shown_while_there_is_room(agents: Seq<(Seq<char>, AgentModel)>)
    ensures
        ({
            let failed = agents.filter(
                |e: (Seq<char>, AgentModel)|
                    e.1.status == FleetAgentStatus::Failed && says_something(e.1.message),
            ).len();
            let done = agents.filter(
                |e: (Seq<char>, AgentModel)|
                    e.1.status == FleetAgentStatus::Completed && says_something(e.1.message),
            ).len();
            &&& failed + done <= 3 ==> agent_fleet::shown_results(agents).len() == failed + done
            &&& failed + done > 3 ==> agent_fleet::shown_results(agents).len() == 3
        }),
{
    lemma_results(agents, FleetAgentStatus::Failed);
    lemma_results(agents, FleetAgentStatus::Completed);
}

proof fn lemma_tasks(agents: Seq<(Seq<char>, AgentModel)>)
    ensures
        agent_fleet::tasks(agents).len() == agents.filter(
            |e: (Seq<char>, AgentModel)| counts_as_running(e.1.status) && e.1.task is Some,
        ).len(),
        forall|k: int|
            0 <= k < agent_fleet::tasks(agents).len() ==> {
                let agent = #[trigger] agent_fleet::tasks(agents)[k];
                &&& counts_as_running(agent.status)
                &&& agent.task is Some
                &&& exists|i: int| 0 <= i < agents.len() && (#[trigger] agents[i]).1 == agent
            },
    decreases agents.len(),
{
    reveal(Seq::filter);
    if agents.len() > 0 {
        let shorter = agents.drop_last();
        lemma_tasks(shorter);
        let all = agent_fleet::tasks(agents);
        let before = agent_fleet::tasks(shorter);
        assert forall|k: int| 0 <= k < all.len() implies {
            let agent = #[trigger] all[k];
            &&& counts_as_running(agent.status)
            &&& agent.task is Some
            &&& exists|i: int| 0 <= i < agents.len() && (#[trigger] agents[i]).1 == agent
        } by {
            if k < before.len() {
                let agent = before[k];
                let i = choose|i: int| 0 <= i < shorter.len() && (#[trigger] shorter[i]).1 == agent;
                assert(agents[i].1 == agent);
            } else {
                assert(agents[agents.len() - 1].1 == all[k]);
            }
        }
    }
}

/// Behind the results the card shows the tasks of agents that are at work, in the room that is
/// left of three rows, each with the name of the agent and its task.
pub proof fn law_tasks_are_those_of_agents_at_work(fleet: FleetModel, elapsed_seconds: nat, k: int)
    requires
        0 <= k < agent_fleet::shown_tasks(fleet.agents).len(),
    ensures
        agent_fleet::shown_results(fleet.agents).len() + agent_fleet::shown_tasks(
            fleet.agents,
        ).len() <= 3,
        ({
            let agent = agent_fleet::shown_tasks(fleet.agents)[k];
            let row = agent_fleet::fleet_card(
                fleet,
                elapsed_seconds,
            ).details[agent_fleet::shown_results(fleet.agents).len() + k];
            &&& exists|i: int|
                0 <= i < fleet.agents.len() && (#[trigger] fleet.agents[i]).1 == agent
            &&& counts_as_running(agent.status)
            &&& row[2].text == agent.label && row[2].clip == agent.label_clip
            &&& agent.task == Some(row[5].text)
            &&& agent.configuration matches Some(c) ==> row[3].text == " ("@ + c + ")"@
            &&& agent.configuration is None ==> row[3].text.len() == 0
            &&& row.len() == 6
        }),
{
    lemma_tasks(fleet.agents);
    let agent = agent_fleet::shown_tasks(fleet.agents)[k];
    assert(agent_fleet::tasks(fleet.agents)[k] == agent);
}

/// The record of an agent says how it stands, in a word of its own for each state.
pub proof fn law_record_says_how_an_agent_stands(agent: AgentModel)
    ensures
        ({
            let line = AgentFleetLifecycleCell::agent_record(agent)[0];
            &&& line.len() == 3
            &&& line[1].text == agent.label && line[1].clip == agent.label_clip
            &&& agent.status == FleetAgentStatus::Pending ==> line[2].text == ": "@ + "pending"@
            &&& agent.status == FleetAgentStatus::Running ==> line[2].text == ": "@ + "running"@
            &&& agent.status == FleetAgentStatus::Interrupted ==> line[2].text == ": "@
                + "interrupted"@
            &&& agent.status == FleetAgentStatus::Completed ==> line[2].text == ": "@
                + "completed"@
            &&& agent.status == FleetAgentStatus::Failed ==> line[2].text == ": "@ + "failed"@
            &&& agent.status == FleetAgentStatus::Shutdown ==> line[2].text == ": "@ + "shutdown"@
        }),
{
}

/// An agent is named by the label that is given for its thread, and by the first twelve graphemes
/// of its identifier where none is given.
pub proof fn law_agents_are_named_by_their_labels(
    labels: Seq<(String, String)>,
    id: Seq<char>,
    i: int,
)
    ensures
        (forall|k: int| 0 <= k < labels.len() ==> (#[trigger] labels[k]).0@ != id)
            ==> agent_fleet::label_for(labels, id) == (id, Some(12usize)),
        0 <= i < labels.len() && labels[i].0@ == id && (forall|k: int|
            0 <= k < i ==> (#[trigger] labels[k]).0@ != id) ==> agent_fleet::label_for(labels, id)
            == (labels[i].1@, None::<usize>),
    decreases labels.len(),
{
    if labels.len() > 0 && labels[0].0@ != id {
        let rest = labels.skip(1);
        law_agents_are_named_by_their_labels(rest, id, i - 1);
        if forall|k: int| 0 <= k < labels.len() ==> (#[trigger] labels[k]).0@ != id {
            assert forall|k: int| 0 <= k < rest.len() implies (#[trigger] rest[k]).0@ != id by {
                assert(labels[k + 1].0@ != id);
            }
        }
        if 0 <= i < labels.len() && labels[i].0@ == id && (forall|k: int|
            0 <= k < i ==> (#[trigger] labels[k]).0@ != id) {
            assert forall|k: int| 0 <= k < i - 1 implies (#[trigger] rest[k]).0@ != id by {
                assert(labels[k + 1].0@ != id);
            }
            assert(rest[i - 1] == labels[i]);
        }
    } else if labels.len() > 0 {
        if i > 0 {
            assert(labels[0].0@ == id);
        }
    }
}

/// The word for a tool.
pub open spec fn tool_word(tool: CollabAgentTool) -> Seq<char> {
    match tool {
        CollabAgentTool::SpawnAgent => "spawn"@,
        CollabAgentTool::SendInput => "send"@,
        CollabAgentTool::ResumeAgent => "resume"@,
        CollabAgentTool::Wait => "wait"@,
        CollabAgentTool::CloseAgent => "close"@,
    }
}

/// A call is written down by its tool, how it went and its name, then to whom it went, then the
/// words of its prompt, each where there is one. A failed call leaves its tool as an error.
pub proof fn law_call_is_written_down_in_words(
    fleet: FleetModel,
    call: CollabToolCall,
    labels: Seq<(String, String)>,
)
    ensures
        ({
            let after = agent_fleet::after_tool_call(fleet, call, labels);
            let went = match call.status {
                CollabAgentToolCallStatus::InProgress => "started"@,
                CollabAgentToolCallStatus::Completed => "completed"@,
                CollabAgentToolCallStatus::Failed => "failed"@,
            };
            let head = tool_word(call.tool) + " "@ + went + " ("@ + call.id@ + ")"@;
            let to = text::views(call.receiver_thread_ids@);
            let sent = head + " -> "@ + text::joined(to, ", "@);
            let quiet = call.prompt is None || (call.prompt matches Some(p) && text::trimmed(
                p@,
            ).len() == 0);
            &&& quiet && to.len() == 0 ==> after.events.last() == head
            &&& quiet && to.len() > 0 ==> after.events.last() == sent
            &&& !quiet && to.len() == 0 ==> after.events.last() == head + " | "@
                + text::joined(text::words_of(call.prompt->0@), " "@)
            &&& !quiet && to.len() > 0 ==> after.events.last() == sent + " | "@
                + text::joined(text::words_of(call.prompt->0@), " "@)
            &&& call.status is Failed ==> after.errors.last() == tool_word(call.tool) + " failed"@
        }),
{
    let after = agent_fleet::after_tool_call(fleet, call, labels);
    let went = match call.status {
        CollabAgentToolCallStatus::InProgress => "started"@,
        CollabAgentToolCallStatus::Completed => "completed"@,
        CollabAgentToolCallStatus::Failed => "failed"@,
    };
    let head = tool_word(call.tool) + " "@ + went + " ("@ + call.id@ + ")"@;
    let to = text::views(call.receiver_thread_ids@);
    let arrow = " -> "@ + text::joined(to, ", "@);
    let nothing = Seq::<char>::empty();
    assert(head + nothing + nothing =~= head);
    assert(head + arrow + nothing =~= head + " -> "@ + text::joined(to, ", "@));
    if let Some(p) = call.prompt {
        let said = " | "@ + text::joined(text::words_of(p@), " "@);
        assert(head + nothing + said =~= head + " | "@ + text::joined(text::words_of(p@), " "@));
        assert(head + arrow + said =~= head + " -> "@ + text::joined(to, ", "@) + " | "@
            + text::joined(text::words_of(p@), " "@));
    }
}

/// What an agent was seen to do is written down with its path.
pub proof fn law_activity_is_written_down_in_words(fleet: FleetModel, activity: SubAgentActivity)
    ensures
        ({
            let said = agent_fleet::after_activity(fleet, activity).events.last();
            &&& activity.kind is Started ==> said == "started"@ + " "@ + activity.agent_path@
            &&& activity.kind is Interacted ==> said == "interacted with"@ + " "@
                + activity.agent_path@
            &&& activity.kind is Interrupted ==> said == "interrupted"@ + " "@
                + activity.agent_path@
        }),
{
}

/// A spawned agent is at work on the words of its prompt, unless that is blank, with the model and
/// the effort that it was given.
pub proof fn law_spawned_agent_has_its_task(call: CollabToolCall)
    ensures
        ({
            let spawn = agent_fleet::spawn_of(call);
            let model = match call.model {
                Some(m) => text::trimmed(m@),
                None => Seq::empty(),
            };
            &&& call.prompt is None ==> spawn.task is None
            &&& call.prompt matches Some(p) ==> spawn.task == if text::trimmed(p@).len() == 0 {
                None
            } else {
                Some(text::joined(text::words_of(p@), " "@))
            }
            &&& model.len() == 0 && call.reasoning_effort is None ==> spawn.configuration is None
            &&& model.len() > 0 && call.reasoning_effort is None ==> spawn.configuration == Some(
                model,
            )
            &&& call.reasoning_effort matches Some(effort) ==> spawn.configuration == Some(
                if model.len() == 0 {
                    effort@
                } else {
                    model + " "@ + effort@
                },
            )
        }),
{
}

/// The parts of the header are set apart by dots, behind a mark and its name, and nothing of it is
/// cut short.
pub proof fn law_header_sets_its_parts_apart(fleet: FleetModel, elapsed_seconds: nat, k: int)
    ensures
        ({
            let header = agent_fleet::fleet_card(fleet, elapsed_seconds).header;
            let n = header.len() as int;
            &&& header[0].text == "▸ "@ && header[0].style == SpanStyle::Dim
            &&& header[1].style == SpanStyle::Bold
            &&& header[2].text == ": "@ && header[2].style == SpanStyle::Dim
            &&& header[3].style == SpanStyle::Plain && header[5].style == SpanStyle::Plain
            &&& header[4].text == " · "@ && header[4].style == SpanStyle::Dim
            &&& header[n - 4].text == " · "@ && header[n - 4].style == SpanStyle::Dim
            &&& header[n - 3].style == SpanStyle::Dim
            &&& header[n - 2].text == " · "@ && header[n - 2].style == SpanStyle::Dim
            &&& header[n - 1].text == "/agent details"@ && header[n - 1].style == SpanStyle::Dim
            &&& fleet.interactions > 0 ==> header[6].text == " · "@ && header[6].style
                == SpanStyle::Dim && header[7].style == SpanStyle::Dim
            &&& 0 <= k < n ==> header[k].clip is None
        }),
{
}

/// A row of a result shows how it went, who left it and what it says; a row of a task shows who is
/// at work, with what, on what. Both cut what is said short.
pub proof fn law_rows_say_who_and_what(agent: AgentModel)
    ensures
        ({
            let row = agent_fleet::result_row(agent);
            &&& row.len() == 6
            &&& row[0].text == "  └ "@ && row[0].style == SpanStyle::Dim
            &&& agent.status is Failed ==> row[1].text == "✗"@ && row[1].style == SpanStyle::Red
            &&& !(agent.status is Failed) ==> row[1].text == "✓"@ && row[1].style
                == SpanStyle::Green
            &&& row[2].text == " "@
            &&& row[3].text == agent.label && row[3].clip == agent.label_clip && row[3].style
                == SpanStyle::Cyan
            &&& row[4].text == ": "@ && row[4].style == SpanStyle::Dim
            &&& agent.message matches Some(message) ==> row[5].text == text::collapsed(message)
            &&& row[5].clip == Some(lifecycle::AGENT_MESSAGE_PREVIEW_GRAPHEMES)
        }),
        ({
            let row = agent_fleet::task_row(agent);
            &&& row.len() == 6
            &&& row[0].text == "  └ "@ && row[0].style == SpanStyle::Dim
            &&& row[1].text == "… "@ && row[1].style == SpanStyle::Cyan
            &&& row[2].text == agent.label && row[2].clip == agent.label_clip && row[2].style
                == SpanStyle::Cyan
            &&& agent.configuration matches Some(with) ==> row[3].text == " ("@ + with + ")"@
            &&& agent.configuration is None ==> row[3].text.len() == 0
            &&& row[3].style == SpanStyle::Magenta
            &&& row[4].text == ": "@ && row[4].style == SpanStyle::Dim
            &&& agent.task matches Some(task) ==> row[5].text == task
            &&& row[5].clip == Some(lifecycle::AGENT_MESSAGE_PREVIEW_GRAPHEMES)
        }),
{
}

/// An agent stands behind those whose identifiers come before its own.
pub proof fn law_agent_stands_behind_smaller_ones(
    agents: Seq<(Seq<char>, AgentModel)>,
    id: Seq<char>,
)
    ensures
        ({
            let at = agent_fleet::agent_index(agents, id);
            &&& 0 <= at <= agents.len()
            &&& at < agents.len() ==> !text::comes_before(agents[at].0, id)
            &&& forall|k: int| 0 <= k < at ==> text::comes_before((#[trigger] agents[k]).0, id)
        }),
    decreases agents.len(),
{
    if agents.len() > 0 && text::comes_before(agents[0].0, id) {
        let rest = agents.skip(1);
        law_agent_stands_behind_smaller_ones(rest, id);
        assert forall|k: int| 0 <= k < agent_fleet::agent_index(agents, id) implies text::comes_before(
            (#[trigger] agents[k]).0,
            id,
        ) by {
            if k > 0 {
                assert(rest[k - 1] == agents[k]);
            }
        }
    }
}

} // verus!
