//! The lifecycle card of a fleet of collaborating agents.

use vstd::prelude::*;

use crate::card;
use crate::card::Card;
use crate::card::CardModel;
use crate::card::Span;
use crate::card::SpanModel;
use crate::card::SpanStyle;
use crate::lifecycle;
use crate::text;

verus! {

#[derive(Clone, Copy, Debug, PartialEq, Eq, Structural)]
pub enum CollabAgentTool {
    SpawnAgent,
    SendInput,
    ResumeAgent,
    Wait,
    CloseAgent,
}

#[derive(Clone, Copy, Debug, PartialEq, Eq, Structural)]
pub enum CollabAgentToolCallStatus {
    InProgress,
    Completed,
    Failed,
}

#[derive(Clone, Copy, Debug, PartialEq, Eq, Structural)]
pub enum CollabAgentStatus {
    PendingInit,
    Running,
    Interrupted,
    Completed,
    Errored,
    Shutdown,
    NotFound,
}

pub struct CollabAgentState {
    pub status: CollabAgentStatus,
    pub message: Option<String>,
}

/// A call of one of the collaboration tools.
pub struct CollabToolCall {
    pub id: String,
    pub tool: CollabAgentTool,
    pub status: CollabAgentToolCallStatus,
    pub receiver_thread_ids: Vec<String>,
    pub prompt: Option<String>,
    pub model: Option<String>,
    /// The reasoning effort as it is shown.
    pub reasoning_effort: Option<String>,
    pub agents_states: Vec<(String, CollabAgentState)>,
}

#[derive(Clone, Copy, Debug, PartialEq, Eq, Structural)]
pub enum SubAgentActivityKind {
    Started,
    Interacted,
    Interrupted,
}

pub struct SubAgentActivity {
    pub kind: SubAgentActivityKind,
    pub agent_thread_id: String,
    pub agent_path: String,
}

#[derive(Clone, Copy, Debug, PartialEq, Eq, Structural)]
pub enum FleetAgentStatus {
    Pending,
    Running,
    Interrupted,
    Completed,
    Failed,
    Shutdown,
}

/// How an agent is named; an identifier in place of a name is cut short.
pub struct AgentLabel {
    pub text: String,
    pub clip: Option<usize>,
}

pub struct FleetAgent {
    pub label: AgentLabel,
    pub task: Option<String>,
    pub configuration: Option<String>,
    pub status: FleetAgentStatus,
    pub message: Option<String>,
}

pub struct AgentModel {
    pub label: Seq<char>,
    pub label_clip: Option<usize>,
    pub task: Option<Seq<char>>,
    pub configuration: Option<Seq<char>>,
    pub status: FleetAgentStatus,
    pub message: Option<Seq<char>>,
}

impl View for FleetAgent {
    type V = AgentModel;

    open spec fn view(&self) -> AgentModel {
        AgentModel {
            label: self.label.text@,
            label_clip: self.label.clip,
            task: text::option_view(self.task),
            configuration: text::option_view(self.configuration),
            status: self.status,
            message: text::option_view(self.message),
        }
    }
}

pub struct PendingSpawn {
    pub task: Option<String>,
    pub configuration: Option<String>,
}

pub struct SpawnModel {
    pub task: Option<Seq<char>>,
    pub configuration: Option<Seq<char>>,
}

impl View for PendingSpawn {
    type V = SpawnModel;

    open spec fn view(&self) -> SpawnModel {
        SpawnModel {
            task: text::option_view(self.task),
            configuration: text::option_view(self.configuration),
        }
    }
}

/// The card of a fleet. The agents are kept in the order of their thread identifiers.
pub struct AgentFleetLifecycleCell {
    pub agents: Vec<(String, FleetAgent)>,
    pub interactions: usize,
    pub raw_events: Vec<String>,
    pub operation_errors: Vec<String>,
    pub pending_spawns: Vec<(String, PendingSpawn)>,
}

pub struct FleetModel {
    pub agents: Seq<(Seq<char>, AgentModel)>,
    pub interactions: int,
    pub events: Seq<Seq<char>>,
    pub errors: Seq<Seq<char>>,
    pub spawns: Seq<(Seq<char>, SpawnModel)>,
}

pub open spec fn agents_model(v: Seq<(String, FleetAgent)>) -> Seq<(Seq<char>, AgentModel)> {
    Seq::new(v.len(), |i: int| (v[i].0@, v[i].1@))
}

pub open spec fn spawns_model(v: Seq<(String, PendingSpawn)>) -> Seq<(Seq<char>, SpawnModel)> {
    Seq::new(v.len(), |i: int| (v[i].0@, v[i].1@))
}

impl View for AgentFleetLifecycleCell {
    type V = FleetModel;

    open spec fn view(&self) -> FleetModel {
        FleetModel {
            agents: agents_model(self.agents@),
            interactions: self.interactions as int,
            events: text::views(self.raw_events@),
            errors: text::views(self.operation_errors@),
            spawns: spawns_model(self.pending_spawns@),
        }
    }
}

/// The number of leading agents whose identifiers come before `id`.
pub open spec fn agent_index(agents: Seq<(Seq<char>, AgentModel)>, id: Seq<char>) -> int
    decreases agents.len(),
{
    if agents.len() > 0 && text::comes_before(agents[0].0, id) {
        1 + agent_index(agents.skip(1), id)
    } else {
        0
    }
}

pub open spec fn knows_agent(agents: Seq<(Seq<char>, AgentModel)>, id: Seq<char>) -> bool {
    let i = agent_index(agents, id);
    0 <= i < agents.len() && agents[i].0 == id
}

pub open spec fn new_agent(label: Seq<char>, label_clip: Option<usize>) -> AgentModel {
    AgentModel {
        label,
        label_clip,
        task: None,
        configuration: None,
        status: FleetAgentStatus::Pending,
        message: None,
    }
}

/// The agents with an entry for `id`, made with the given label where there was none.
pub open spec fn with_agent(
    agents: Seq<(Seq<char>, AgentModel)>,
    id: Seq<char>,
    label: Seq<char>,
    label_clip: Option<usize>,
) -> Seq<(Seq<char>, AgentModel)> {
    if knows_agent(agents, id) {
        agents
    } else {
        agents.insert(agent_index(agents, id), (id, new_agent(label, label_clip)))
    }
}

pub proof fn lemma_agent_index_bounds(agents: Seq<(Seq<char>, AgentModel)>, id: Seq<char>)
    ensures
        0 <= agent_index(agents, id) <= agents.len(),
        forall|k: int|
            0 <= k < agent_index(agents, id) ==> text::comes_before((#[trigger] agents[k]).0, id),
        agent_index(agents, id) < agents.len() ==> !text::comes_before(
            agents[agent_index(agents, id)].0,
            id,
        ),
    decreases agents.len(),
{
    if agents.len() > 0 && text::comes_before(agents[0].0, id) {
        let rest = agents.skip(1);
        lemma_agent_index_bounds(rest, id);
        assert forall|k: int| 0 <= k < agent_index(agents, id) implies text::comes_before(
            (#[trigger] agents[k]).0,
            id,
        ) by {
            if k > 0 {
                assert(rest[k - 1] == agents[k]);
            }
        }
    }
}

fn find_agent(agents: &Vec<(String, FleetAgent)>, id: &str) -> (r: usize)
    ensures
        r == agent_index(agents_model(agents@), id@),
        r <= agents@.len(),
{
    let ghost all = agents_model(agents@);
    let mut i: usize = 0;
    proof {
        assert(all.skip(0) =~= all);
    }
    while i < agents.len() && text::text_before(agents[i].0.as_str(), id)
        invariant
            i <= agents@.len(),
            all == agents_model(agents@),
            i + agent_index(all.skip(i as int), id@) == agent_index(all, id@),
        decreases agents@.len() - i,
    {
        proof {
            assert(all.skip(i as int)[0] == all[i as int]);
            assert(all.skip(i as int).skip(1) =~= all.skip(i + 1));
        }
        i += 1;
    }
    proof {
        if i < agents@.len() {
            assert(all.skip(i as int)[0] == all[i as int]);
        }
    }
    i
}

/// Makes sure that there is an entry for `id`, and says where it stands.
fn ensure_agent(agents: &mut Vec<(String, FleetAgent)>, id: &str, label: AgentLabel) -> (r: usize)
    ensures
        agents_model(final(agents)@) == with_agent(
            agents_model(old(agents)@),
            id@,
            label.text@,
            label.clip,
        ),
        r == agent_index(agents_model(old(agents)@), id@),
        r < final(agents)@.len(),
        final(agents)@[r as int].0@ == id@,
{
    let i = find_agent(agents, id);
    if i < agents.len() && text::text_is(agents[i].0.as_str(), id) {
        return i;
    }
    let ghost before = agents@;
    let agent = FleetAgent {
        label,
        task: None,
        configuration: None,
        status: FleetAgentStatus::Pending,
        message: None,
    };
    agents.insert(i, (text::owned(id), agent));
    proof {
        assert(agents_model(agents@) =~= with_agent(
            agents_model(before),
            id@,
            label.text@,
            label.clip,
        ));
    }
    i
}

/// Puts an agent in the place of the one at `i`.
fn replace_agent(agents: &mut Vec<(String, FleetAgent)>, i: usize, agent: FleetAgent)
    requires
        i < old(agents)@.len(),
    ensures
        agents_model(final(agents)@) == agents_model(old(agents)@).update(
            i as int,
            (old(agents)@[i as int].0@, agent@),
        ),
{
    let ghost before = agents@;
    let id = agents[i].0.clone();
    agents.set(i, (id, agent));
    proof {
        assert(agents_model(agents@) =~= agents_model(before).update(
            i as int,
            (before[i as int].0@, agent@),
        ));
    }
}

/// The label that is given for a thread, or else its identifier, cut short.
pub open spec fn label_for(labels: Seq<(String, String)>, id: Seq<char>) -> (
    Seq<char>,
    Option<usize>,
)
    decreases labels.len(),
{
    if labels.len() == 0 {
        (id, Some(lifecycle::SHORT_AGENT_ID_GRAPHEMES))
    } else if labels[0].0@ == id {
        (labels[0].1@, None)
    } else {
        label_for(labels.skip(1), id)
    }
}

fn find_label(labels: &Vec<(String, String)>, id: &str) -> (r: AgentLabel)
    ensures
        (r.text@, r.clip) == label_for(labels@, id@),
{
    let mut i: usize = 0;
    proof {
        assert(labels@.skip(0) =~= labels@);
    }
    while i < labels.len()
        invariant
            i <= labels@.len(),
            label_for(labels@.skip(i as int), id@) == label_for(labels@, id@),
        decreases labels@.len() - i,
    {
        proof {
            assert(labels@.skip(i as int)[0] == labels@[i as int]);
            assert(labels@.skip(i as int).skip(1) =~= labels@.skip(i + 1));
        }
        if text::text_is(labels[i].0.as_str(), id) {
            return AgentLabel { text: labels[i].1.clone(), clip: None };
        }
        i += 1;
    }
    AgentLabel { text: text::owned(id), clip: Some(lifecycle::SHORT_AGENT_ID_GRAPHEMES) }
}

pub open spec fn nonblank_prompt(prompt: Option<Seq<char>>) -> Option<Seq<char>> {
    match prompt {
        Some(p) => if text::trimmed(p).len() > 0 {
            Some(text::collapsed(p))
        } else {
            None
        },
        None => None,
    }
}

fn collapse_prompt(prompt: &Option<String>) -> (r: Option<String>)
    ensures
        text::option_view(r) == nonblank_prompt(text::option_view(*prompt)),
{
    match prompt {
        Some(p) => if text::trim(text::chars_of(p.as_str()).as_slice()).len() > 0 {
            Some(text::collapse_whitespace(p.as_str()))
        } else {
            None
        },
        None => None,
    }
}

pub open spec fn configuration_text(model: Option<Seq<char>>, effort: Option<Seq<char>>) -> Option<
    Seq<char>,
> {
    let name = match model {
        Some(m) => text::trimmed(m),
        None => Seq::empty(),
    };
    match effort {
        Some(e) => if name.len() > 0 {
            Some(name + " "@ + e)
        } else {
            Some(e)
        },
        None => if name.len() > 0 {
            Some(name)
        } else {
            None
        },
    }
}

pub fn spawn_configuration(model: &Option<String>, reasoning_effort: &Option<String>) -> (r: Option<
    String,
>)
    ensures
        text::option_view(r) == configuration_text(
            text::option_view(*model),
            text::option_view(*reasoning_effort),
        ),
{
    let name = match model {
        Some(m) => text::string_of(text::trim(text::chars_of(m.as_str()).as_slice())),
        None => String::new(),
    };
    match reasoning_effort {
        Some(effort) => if !name.as_str().is_empty() {
            let mut out = name;
            out.append(" ");
            out.append(effort.as_str());
            Some(out)
        } else {
            Some(effort.clone())
        },
        None => if !name.as_str().is_empty() {
            Some(name)
        } else {
            None
        },
    }
}

pub open spec fn tool_label(tool: CollabAgentTool) -> Seq<char> {
    match tool {
        CollabAgentTool::SpawnAgent => "spawn"@,
        CollabAgentTool::SendInput => "send"@,
        CollabAgentTool::ResumeAgent => "resume"@,
        CollabAgentTool::Wait => "wait"@,
        CollabAgentTool::CloseAgent => "close"@,
    }
}

pub fn collab_tool_label(tool: CollabAgentTool) -> (r: &'static str)
    ensures
        r@ == tool_label(tool),
{
    match tool {
        CollabAgentTool::SpawnAgent => "spawn",
        CollabAgentTool::SendInput => "send",
        CollabAgentTool::ResumeAgent => "resume",
        CollabAgentTool::Wait => "wait",
        CollabAgentTool::CloseAgent => "close",
    }
}

/// How a tool call is written down.
pub open spec fn event_text(
    id: Seq<char>,
    tool: CollabAgentTool,
    status: CollabAgentToolCallStatus,
    receivers: Seq<Seq<char>>,
    prompt: Option<Seq<char>>,
) -> Seq<char> {
    tool_label(tool) + " "@ + (match status {
        CollabAgentToolCallStatus::InProgress => "started"@,
        CollabAgentToolCallStatus::Completed => "completed"@,
        CollabAgentToolCallStatus::Failed => "failed"@,
    }) + " ("@ + id + ")"@ + (if receivers.len() == 0 {
        Seq::empty()
    } else {
        " -> "@ + text::joined(receivers, ", "@)
    }) + (match nonblank_prompt(prompt) {
        Some(p) => " | "@ + p,
        None => Seq::empty(),
    })
}

pub fn collab_raw_event(
    id: &str,
    tool: CollabAgentTool,
    status: CollabAgentToolCallStatus,
    receiver_thread_ids: &Vec<String>,
    prompt: &Option<String>,
) -> (r: String)
    ensures
        r@ == event_text(
            id@,
            tool,
            status,
            text::views(receiver_thread_ids@),
            text::option_view(*prompt),
        ),
{
    let mut out = text::owned(collab_tool_label(tool));
    out.append(" ");
    out.append(
        match status {
            CollabAgentToolCallStatus::InProgress => "started",
            CollabAgentToolCallStatus::Completed => "completed",
            CollabAgentToolCallStatus::Failed => "failed",
        },
    );
    out.append(" (");
    out.append(id);
    out.append(")");
    let ghost head = out@;
    if receiver_thread_ids.len() > 0 {
        let mut receivers = text::owned(" -> ");
        receivers.append(text::join(receiver_thread_ids, ", ").as_str());
        out.append(receivers.as_str());
    } else {
        proof {
            assert(head + Seq::<char>::empty() =~= head);
        }
    }
    let ghost middle = out@;
    match collapse_prompt(prompt) {
        Some(p) => {
            let mut tail = text::owned(" | ");
            tail.append(p.as_str());
            out.append(tail.as_str());
        },
        None => {
            proof {
                assert(middle + Seq::<char>::empty() =~= middle);
            }
        },
    }
    out
}

/// The first position of a spawn, or the number of spawns.
pub open spec fn spawn_index(spawns: Seq<(Seq<char>, SpawnModel)>, id: Seq<char>) -> int
    decreases spawns.len(),
{
    if spawns.len() == 0 || spawns[0].0 == id {
        0
    } else {
        1 + spawn_index(spawns.skip(1), id)
    }
}

fn find_spawn(spawns: &Vec<(String, PendingSpawn)>, id: &str) -> (r: usize)
    ensures
        r == spawn_index(spawns_model(spawns@), id@),
        r <= spawns@.len(),
{
    let ghost all = spawns_model(spawns@);
    let mut i: usize = 0;
    proof {
        assert(all.skip(0) =~= all);
    }
    while i < spawns.len() && !text::text_is(spawns[i].0.as_str(), id)
        invariant
            i <= spawns@.len(),
            all == spawns_model(spawns@),
            i + spawn_index(all.skip(i as int), id@) == spawn_index(all, id@),
        decreases spawns@.len() - i,
    {
        proof {
            assert(all.skip(i as int)[0] == all[i as int]);
            assert(all.skip(i as int).skip(1) =~= all.skip(i + 1));
        }
        i += 1;
    }
    proof {
        if i < spawns@.len() {
            assert(all.skip(i as int)[0] == all[i as int]);
        }
    }
    i
}

/// The spawns with one noted under `id`.
pub open spec fn with_spawn(
    spawns: Seq<(Seq<char>, SpawnModel)>,
    id: Seq<char>,
    spawn: SpawnModel,
) -> Seq<(Seq<char>, SpawnModel)> {
    let i = spawn_index(spawns, id);
    if 0 <= i < spawns.len() {
        spawns.update(i, (id, spawn))
    } else {
        spawns.push((id, spawn))
    }
}

/// What a spawning call says of the agent that it spawns.
pub open spec fn spawn_of(call: CollabToolCall) -> SpawnModel {
    SpawnModel {
        task: nonblank_prompt(text::option_view(call.prompt)),
        configuration: configuration_text(
            text::option_view(call.model),
            text::option_view(call.reasoning_effort),
        ),
    }
}

/// The detail that a call gives to its receivers: that of the spawning call itself, or the one
/// that was noted when the call started.
pub open spec fn spawn_detail(
    spawns: Seq<(Seq<char>, SpawnModel)>,
    call: CollabToolCall,
) -> Option<SpawnModel> {
    let i = spawn_index(spawns, call.id@);
    if call.tool != CollabAgentTool::SpawnAgent {
        None
    } else if call.status != CollabAgentToolCallStatus::InProgress && 0 <= i < spawns.len() {
        Some(spawns[i].1)
    } else {
        Some(spawn_of(call))
    }
}

pub open spec fn spawns_after(
    spawns: Seq<(Seq<char>, SpawnModel)>,
    call: CollabToolCall,
) -> Seq<(Seq<char>, SpawnModel)> {
    let i = spawn_index(spawns, call.id@);
    if call.tool != CollabAgentTool::SpawnAgent {
        spawns
    } else if call.status == CollabAgentToolCallStatus::InProgress {
        with_spawn(spawns, call.id@, spawn_of(call))
    } else if 0 <= i < spawns.len() {
        spawns.remove(i)
    } else {
        spawns
    }
}

/// An agent that a call names as a receiver.
pub open spec fn received(
    agent: AgentModel,
    detail: Option<SpawnModel>,
    status: CollabAgentToolCallStatus,
) -> AgentModel {
    match detail {
        Some(spawn) => AgentModel {
            task: if spawn.task is Some {
                spawn.task
            } else {
                agent.task
            },
            configuration: if spawn.configuration is Some {
                spawn.configuration
            } else {
                agent.configuration
            },
            status: if status == CollabAgentToolCallStatus::Completed && agent.status
                == FleetAgentStatus::Pending {
                FleetAgentStatus::Running
            } else {
                agent.status
            },
            ..agent
        },
        None => agent,
    }
}

pub open spec fn with_receiver(
    agents: Seq<(Seq<char>, AgentModel)>,
    id: Seq<char>,
    labels: Seq<(String, String)>,
    detail: Option<SpawnModel>,
    status: CollabAgentToolCallStatus,
) -> Seq<(Seq<char>, AgentModel)> {
    let known = with_agent(agents, id, label_for(labels, id).0, label_for(labels, id).1);
    let i = agent_index(agents, id);
    known.update(i, (id, received(known[i].1, detail, status)))
}

pub open spec fn with_receivers(
    agents: Seq<(Seq<char>, AgentModel)>,
    ids: Seq<Seq<char>>,
    labels: Seq<(String, String)>,
    detail: Option<SpawnModel>,
    status: CollabAgentToolCallStatus,
) -> Seq<(Seq<char>, AgentModel)>
    decreases ids.len(),
{
    if ids.len() == 0 {
        agents
    } else {
        with_receiver(
            with_receivers(agents, ids.drop_last(), labels, detail, status),
            ids.last(),
            labels,
            detail,
            status,
        )
    }
}

pub open spec fn fleet_status(status: CollabAgentStatus) -> FleetAgentStatus {
    match status {
        CollabAgentStatus::PendingInit => FleetAgentStatus::Pending,
        CollabAgentStatus::Running => FleetAgentStatus::Running,
        CollabAgentStatus::Interrupted => FleetAgentStatus::Interrupted,
        CollabAgentStatus::Completed => FleetAgentStatus::Completed,
        CollabAgentStatus::Errored | CollabAgentStatus::NotFound => FleetAgentStatus::Failed,
        CollabAgentStatus::Shutdown => FleetAgentStatus::Shutdown,
    }
}

/// An agent whose state was reported. A report without a message keeps the last message.
pub open spec fn reported(agent: AgentModel, state: CollabAgentState) -> AgentModel {
    AgentModel {
        status: fleet_status(state.status),
        message: if state.message is Some {
            text::option_view(state.message)
        } else {
            agent.message
        },
        ..agent
    }
}

pub fn apply_agent_state(agent: &mut FleetAgent, state: &CollabAgentState)
    ensures
        final(agent)@ == reported(old(agent)@, *state),
{
    agent.status = match state.status {
        CollabAgentStatus::PendingInit => FleetAgentStatus::Pending,
        CollabAgentStatus::Running => FleetAgentStatus::Running,
        CollabAgentStatus::Interrupted => FleetAgentStatus::Interrupted,
        CollabAgentStatus::Completed => FleetAgentStatus::Completed,
        CollabAgentStatus::Errored | CollabAgentStatus::NotFound => FleetAgentStatus::Failed,
        CollabAgentStatus::Shutdown => FleetAgentStatus::Shutdown,
    };
    if state.message.is_some() {
        agent.message = text::copy_option(&state.message);
    }
}

pub open spec fn with_report(
    agents: Seq<(Seq<char>, AgentModel)>,
    report: (String, CollabAgentState),
    labels: Seq<(String, String)>,
) -> Seq<(Seq<char>, AgentModel)> {
    let id = report.0@;
    let known = with_agent(agents, id, label_for(labels, id).0, label_for(labels, id).1);
    let i = agent_index(agents, id);
    known.update(i, (id, reported(known[i].1, report.1)))
}

pub open spec fn with_reports(
    agents: Seq<(Seq<char>, AgentModel)>,
    reports: Seq<(String, CollabAgentState)>,
    labels: Seq<(String, String)>,
) -> Seq<(Seq<char>, AgentModel)>
    decreases reports.len(),
{
    if reports.len() == 0 {
        agents
    } else {
        with_report(with_reports(agents, reports.drop_last(), labels), reports.last(), labels)
    }
}

/// The fleet after a tool call.
pub open spec fn after_tool_call(
    fleet: FleetModel,
    call: CollabToolCall,
    labels: Seq<(String, String)>,
) -> FleetModel {
    let detail = spawn_detail(fleet.spawns, call);
    let counts = call.tool != CollabAgentTool::SpawnAgent && call.status
        != CollabAgentToolCallStatus::InProgress;
    FleetModel {
        agents: with_reports(
            with_receivers(
                fleet.agents,
                text::views(call.receiver_thread_ids@),
                labels,
                detail,
                call.status,
            ),
            call.agents_states@,
            labels,
        ),
        interactions: if counts && fleet.interactions < usize::MAX {
            fleet.interactions + 1
        } else {
            fleet.interactions
        },
        events: fleet.events.push(
            event_text(
                call.id@,
                call.tool,
                call.status,
                text::views(call.receiver_thread_ids@),
                text::option_view(call.prompt),
            ),
        ),
        errors: if call.status == CollabAgentToolCallStatus::Failed {
            fleet.errors.push(tool_label(call.tool) + " failed"@)
        } else {
            fleet.errors
        },
        spawns: spawns_after(fleet.spawns, call),
    }
}

pub open spec fn activity_verb(kind: SubAgentActivityKind) -> Seq<char> {
    match kind {
        SubAgentActivityKind::Started => "started"@,
        SubAgentActivityKind::Interacted => "interacted with"@,
        SubAgentActivityKind::Interrupted => "interrupted"@,
    }
}

/// The fleet after an agent was seen to do something.
pub open spec fn after_activity(fleet: FleetModel, activity: SubAgentActivity) -> FleetModel {
    let id = activity.agent_thread_id@;
    let path = activity.agent_path@;
    let known = with_agent(fleet.agents, id, path, None);
    let i = agent_index(fleet.agents, id);
    FleetModel {
        agents: known.update(
            i,
            (
                id,
                AgentModel {
                    label: path,
                    label_clip: None,
                    status: if activity.kind == SubAgentActivityKind::Interrupted {
                        FleetAgentStatus::Interrupted
                    } else {
                        FleetAgentStatus::Running
                    },
                    ..known[i].1
                },
            ),
        ),
        events: fleet.events.push(activity_verb(activity.kind) + " "@ + path),
        ..fleet
    }
}

impl AgentFleetLifecycleCell {
    pub fn new() -> (r: Self)
        ensures
            r@ == (FleetModel {
                agents: Seq::empty(),
                interactions: 0,
                events: Seq::empty(),
                errors: Seq::empty(),
                spawns: Seq::empty(),
            }),
    {
        let r = AgentFleetLifecycleCell {
            agents: Vec::new(),
            interactions: 0,
            raw_events: Vec::new(),
            operation_errors: Vec::new(),
            pending_spawns: Vec::new(),
        };
        proof {
            assert(r@.agents =~= Seq::empty());
            assert(r@.events =~= Seq::empty());
            assert(r@.errors =~= Seq::empty());
            assert(r@.spawns =~= Seq::empty());
        }
        r
    }

    /// Notes or takes the detail of a spawning call.
    fn take_spawn_detail(&mut self, call: &CollabToolCall) -> (r: Option<PendingSpawn>)
        ensures
            match r {
                Some(spawn) => spawn_detail(old(self)@.spawns, *call) == Some(spawn@),
                None => spawn_detail(old(self)@.spawns, *call) is None,
            },
            final(self)@ == (FleetModel {
                spawns: spawns_after(old(self)@.spawns, *call),
                ..old(self)@
            }),
    {
        if call.tool != CollabAgentTool::SpawnAgent {
            return None;
        }
        let ghost before = self.pending_spawns@;
        let task = collapse_prompt(&call.prompt);
        let configuration = spawn_configuration(&call.model, &call.reasoning_effort);
        let i = find_spawn(&self.pending_spawns, call.id.as_str());
        if call.status == CollabAgentToolCallStatus::InProgress {
            let copy = PendingSpawn {
                task: text::copy_option(&task),
                configuration: text::copy_option(&configuration),
            };
            if i < self.pending_spawns.len() {
                self.pending_spawns.set(i, (call.id.clone(), copy));
            } else {
                self.pending_spawns.push((call.id.clone(), copy));
            }
            proof {
                assert(spawns_model(self.pending_spawns@) =~= spawns_after(
                    spawns_model(before),
                    *call,
                ));
            }
            return Some(PendingSpawn { task, configuration });
        }
        if i < self.pending_spawns.len() {
            let (_, spawn) = self.pending_spawns.remove(i);
            proof {
                assert(spawns_model(self.pending_spawns@) =~= spawns_after(
                    spawns_model(before),
                    *call,
                ));
            }
            return Some(spawn);
        }
        Some(PendingSpawn { task, configuration })
    }

    fn note_receiver(
        &mut self,
        id: &str,
        labels: &Vec<(String, String)>,
        detail: &Option<PendingSpawn>,
        status: CollabAgentToolCallStatus,
    )
        ensures
            final(self)@ == (FleetModel {
                agents: with_receiver(
                    old(self)@.agents,
                    id@,
                    labels@,
                    match *detail {
                        Some(spawn) => Some(spawn@),
                        None => None,
                    },
                    status,
                ),
                ..old(self)@
            }),
    {
        let i = ensure_agent(&mut self.agents, id, find_label(labels, id));
        let ghost known = agents_model(self.agents@);
        if let Some(spawn) = detail {
            let entry = &self.agents[i].1;
            let agent = FleetAgent {
                label: AgentLabel { text: entry.label.text.clone(), clip: entry.label.clip },
                task: if spawn.task.is_some() {
                    text::copy_option(&spawn.task)
                } else {
                    text::copy_option(&entry.task)
                },
                configuration: if spawn.configuration.is_some() {
                    text::copy_option(&spawn.configuration)
                } else {
                    text::copy_option(&entry.configuration)
                },
                status: if status == CollabAgentToolCallStatus::Completed && entry.status
                    == FleetAgentStatus::Pending {
                    FleetAgentStatus::Running
                } else {
                    entry.status
                },
                message: text::copy_option(&entry.message),
            };
            replace_agent(&mut self.agents, i, agent);
        } else {
            proof {
                assert(known.update(i as int, known[i as int]) =~= known);
            }
        }
    }

    fn note_report(
        &mut self,
        report: &(String, CollabAgentState),
        labels: &Vec<(String, String)>,
    )
        ensures
            final(self)@ == (FleetModel {
                agents: with_report(old(self)@.agents, *report, labels@),
                ..old(self)@
            }),
    {
        let id = report.0.as_str();
        let i = ensure_agent(&mut self.agents, id, find_label(labels, id));
        let entry = &self.agents[i].1;
        let mut agent = FleetAgent {
            label: AgentLabel { text: entry.label.text.clone(), clip: entry.label.clip },
            task: text::copy_option(&entry.task),
            configuration: text::copy_option(&entry.configuration),
            status: entry.status,
            message: text::copy_option(&entry.message),
        };
        apply_agent_state(&mut agent, &report.1);
        replace_agent(&mut self.agents, i, agent);
    }

    pub fn update_tool_call(&mut self, call: &CollabToolCall, labels: &Vec<(String, String)>)
        ensures
            final(self)@ == after_tool_call(old(self)@, *call, labels@),
    {
        let ghost start = self@;
        let detail = self.take_spawn_detail(call);
        let ghost detail_model = spawn_detail(start.spawns, *call);
        if call.tool != CollabAgentTool::SpawnAgent && call.status
            != CollabAgentToolCallStatus::InProgress {
            self.interactions = self.interactions.saturating_add(1);
        }
        text::push_text(
            &mut self.raw_events,
            collab_raw_event(
                call.id.as_str(),
                call.tool,
                call.status,
                &call.receiver_thread_ids,
                &call.prompt,
            ),
        );
        let ghost noted = self@;
        let ghost ids = text::views(call.receiver_thread_ids@);
        let mut i: usize = 0;
        while i < call.receiver_thread_ids.len()
            invariant
                i <= call.receiver_thread_ids@.len(),
                ids == text::views(call.receiver_thread_ids@),
                detail_model == (match detail {
                    Some(spawn) => Some(spawn@),
                    None => None,
                }),
                self@ == (FleetModel {
                    agents: with_receivers(
                        noted.agents,
                        ids.take(i as int),
                        labels@,
                        detail_model,
                        call.status,
                    ),
                    ..noted
                }),
            decreases call.receiver_thread_ids@.len() - i,
        {
            proof {
                assert(ids.take(i + 1).drop_last() =~= ids.take(i as int));
            }
            self.note_receiver(
                call.receiver_thread_ids[i].as_str(),
                labels,
                &detail,
                call.status,
            );
            i += 1;
        }
        proof {
            assert(ids.take(ids.len() as int) =~= ids);
        }
        let ghost received_all = self@;
        let mut k: usize = 0;
        while k < call.agents_states.len()
            invariant
                k <= call.agents_states@.len(),
                self@ == (FleetModel {
                    agents: with_reports(
                        received_all.agents,
                        call.agents_states@.take(k as int),
                        labels@,
                    ),
                    ..received_all
                }),
            decreases call.agents_states@.len() - k,
        {
            proof {
                assert(call.agents_states@.take(k + 1).drop_last() =~= call.agents_states@.take(
                    k as int,
                ));
            }
            self.note_report(&call.agents_states[k], labels);
            k += 1;
        }
        proof {
            assert(call.agents_states@.take(call.agents_states@.len() as int)
                =~= call.agents_states@);
        }
        if call.status == CollabAgentToolCallStatus::Failed {
            let mut error = text::owned(collab_tool_label(call.tool));
            error.append(" failed");
            text::push_text(&mut self.operation_errors, error);
        }
    }

    pub fn update_activity(&mut self, activity: &SubAgentActivity)
        ensures
            final(self)@ == after_activity(old(self)@, *activity),
    {
        let mut event = text::owned(
            match activity.kind {
                SubAgentActivityKind::Started => "started",
                SubAgentActivityKind::Interacted => "interacted with",
                SubAgentActivityKind::Interrupted => "interrupted",
            },
        );
        event.append(" ");
        event.append(activity.agent_path.as_str());
        text::push_text(&mut self.raw_events, event);
        let label = AgentLabel { text: activity.agent_path.clone(), clip: None };
        let i = ensure_agent(&mut self.agents, activity.agent_thread_id.as_str(), label);
        let entry = &self.agents[i].1;
        let agent = FleetAgent {
            label: AgentLabel { text: activity.agent_path.clone(), clip: None },
            task: text::copy_option(&entry.task),
            configuration: text::copy_option(&entry.configuration),
            status: if activity.kind == SubAgentActivityKind::Interrupted {
                FleetAgentStatus::Interrupted
            } else {
                FleetAgentStatus::Running
            },
            message: text::copy_option(&entry.message),
        };
        replace_agent(&mut self.agents, i, agent);
    }
}

/// How many agents are at work, done, failed and paused.
#[derive(Clone, Copy, Debug, PartialEq, Eq, Structural)]
pub struct FleetCounts {
    pub running: usize,
    pub completed: usize,
    pub failed: usize,
    pub other: usize,
}

/// The classes in which agents are counted.
#[derive(Clone, Copy, Debug, PartialEq, Eq, Structural)]
pub enum FleetClass {
    Running,
    Completed,
    Failed,
    Paused,
}

pub open spec fn class_of(status: FleetAgentStatus) -> FleetClass {
    match status {
        FleetAgentStatus::Pending | FleetAgentStatus::Running => FleetClass::Running,
        FleetAgentStatus::Completed | FleetAgentStatus::Shutdown => FleetClass::Completed,
        FleetAgentStatus::Failed => FleetClass::Failed,
        FleetAgentStatus::Interrupted => FleetClass::Paused,
    }
}

/// The number of agents of one class.
pub open spec fn count_class(agents: Seq<(Seq<char>, AgentModel)>, class: FleetClass) -> nat
    decreases agents.len(),
{
    if agents.len() == 0 {
        0
    } else {
        count_class(agents.drop_last(), class) + (if class_of(agents.last().1.status) == class {
            1nat
        } else {
            0nat
        })
    }
}

impl FleetCounts {
    pub fn from_state(state: &AgentFleetLifecycleCell) -> (r: Self)
        ensures
            r.running == count_class(state@.agents, FleetClass::Running),
            r.completed == count_class(state@.agents, FleetClass::Completed),
            r.failed == count_class(state@.agents, FleetClass::Failed),
            r.other == count_class(state@.agents, FleetClass::Paused),
    {
        let ghost all = state@.agents;
        let mut counts = FleetCounts { running: 0, completed: 0, failed: 0, other: 0 };
        let mut i: usize = 0;
        while i < state.agents.len()
            invariant
                i <= state.agents@.len(),
                all == state@.agents,
                counts.running <= i,
                counts.completed <= i,
                counts.failed <= i,
                counts.other <= i,
                counts.running == count_class(all.take(i as int), FleetClass::Running),
                counts.completed == count_class(all.take(i as int), FleetClass::Completed),
                counts.failed == count_class(all.take(i as int), FleetClass::Failed),
                counts.other == count_class(all.take(i as int), FleetClass::Paused),
            decreases state.agents@.len() - i,
        {
            proof {
                assert(all.take(i + 1).drop_last() =~= all.take(i as int));
                assert(all.take(i + 1).last() == all[i as int]);
            }
            match state.agents[i].1.status {
                FleetAgentStatus::Pending | FleetAgentStatus::Running => {
                    counts.running = counts.running + 1;
                },
                FleetAgentStatus::Completed | FleetAgentStatus::Shutdown => {
                    counts.completed = counts.completed + 1;
                },
                FleetAgentStatus::Failed => {
                    counts.failed = counts.failed + 1;
                },
                FleetAgentStatus::Interrupted => {
                    counts.other = counts.other + 1;
                },
            }
            i += 1;
        }
        proof {
            assert(all.take(state.agents@.len() as int) =~= all);
        }
        counts
    }
}

pub open spec fn count_text(count: nat, word: Seq<char>) -> Seq<Seq<char>> {
    if count == 0 {
        Seq::empty()
    } else {
        seq![text::decimal(count) + word]
    }
}

fn push_count(parts: &mut Vec<String>, count: usize, word: &str)
    ensures
        text::views(final(parts)@) == text::views(old(parts)@) + count_text(count as nat, word@),
{
    let ghost before = parts@;
    if count > 0 {
        let mut part = text::decimal_string(count as u64);
        part.append(word);
        text::push_text(parts, part);
    }
    proof {
        assert(text::views(parts@) =~= text::views(before) + count_text(count as nat, word@));
    }
}

/// The summary of a fleet.
pub open spec fn fleet_parts(agents: Seq<(Seq<char>, AgentModel)>) -> Seq<Seq<char>> {
    count_text(count_class(agents, FleetClass::Running), " running"@) + count_text(
        count_class(agents, FleetClass::Completed),
        " done"@,
    ) + count_text(count_class(agents, FleetClass::Failed), " failed"@) + count_text(
        count_class(agents, FleetClass::Paused),
        " paused"@,
    ) + (if agents.len() == 0 {
        seq!["spawning"@]
    } else {
        Seq::empty()
    })
}

/// Whether an agent has ended in the given way and left something to read.
pub open spec fn has_result(agent: AgentModel, status: FleetAgentStatus) -> bool {
    agent.status == status && (agent.message matches Some(message) && text::trimmed(message).len()
        > 0)
}

/// The agents with a result of one kind, in order.
pub open spec fn results(
    agents: Seq<(Seq<char>, AgentModel)>,
    status: FleetAgentStatus,
) -> Seq<AgentModel>
    decreases agents.len(),
{
    if agents.len() == 0 {
        Seq::empty()
    } else if has_result(agents.last().1, status) {
        results(agents.drop_last(), status).push(agents.last().1)
    } else {
        results(agents.drop_last(), status)
    }
}

/// The results that are shown: failures first, and not too many.
pub open spec fn shown_results(agents: Seq<(Seq<char>, AgentModel)>) -> Seq<AgentModel> {
    let all = results(agents, FleetAgentStatus::Failed) + results(
        agents,
        FleetAgentStatus::Completed,
    );
    if all.len() > lifecycle::RESULT_PREVIEW_ITEMS {
        all.take(lifecycle::RESULT_PREVIEW_ITEMS as int)
    } else {
        all
    }
}

pub open spec fn label_span(agent: AgentModel) -> SpanModel {
    SpanModel { style: SpanStyle::Cyan, text: agent.label, clip: agent.label_clip }
}

pub open spec fn result_row(agent: AgentModel) -> Seq<SpanModel> {
    seq![
        card::span(SpanStyle::Dim, "  └ "@),
        if agent.status == FleetAgentStatus::Failed {
            card::span(SpanStyle::Red, "✗"@)
        } else {
            card::span(SpanStyle::Green, "✓"@)
        },
        card::span(SpanStyle::Plain, " "@),
        label_span(agent),
        card::span(SpanStyle::Dim, ": "@),
        card::clipped(
            SpanStyle::Plain,
            text::collapsed(
                match agent.message {
                    Some(message) => message,
                    None => Seq::empty(),
                },
            ),
            lifecycle::AGENT_MESSAGE_PREVIEW_GRAPHEMES,
        ),
    ]
}

/// Whether an agent is at work on a known task.
pub open spec fn has_task(agent: AgentModel) -> bool {
    class_of(agent.status) == FleetClass::Running && agent.task is Some
}

pub open spec fn tasks(agents: Seq<(Seq<char>, AgentModel)>) -> Seq<AgentModel>
    decreases agents.len(),
{
    if agents.len() == 0 {
        Seq::empty()
    } else if has_task(agents.last().1) {
        tasks(agents.drop_last()).push(agents.last().1)
    } else {
        tasks(agents.drop_last())
    }
}

pub open spec fn shown_tasks(agents: Seq<(Seq<char>, AgentModel)>) -> Seq<AgentModel> {
    let room = lifecycle::RESULT_PREVIEW_ITEMS - shown_results(agents).len();
    if tasks(agents).len() > room {
        tasks(agents).take(room)
    } else {
        tasks(agents)
    }
}

pub open spec fn task_row(agent: AgentModel) -> Seq<SpanModel> {
    seq![
        card::span(SpanStyle::Dim, "  └ "@),
        card::span(SpanStyle::Cyan, "… "@),
        label_span(agent),
        card::span(
            SpanStyle::Magenta,
            match agent.configuration {
                Some(configuration) => " ("@ + configuration + ")"@,
                None => Seq::empty(),
            },
        ),
        card::span(SpanStyle::Dim, ": "@),
        card::clipped(
            SpanStyle::Plain,
            match agent.task {
                Some(task) => task,
                None => Seq::empty(),
            },
            lifecycle::AGENT_MESSAGE_PREVIEW_GRAPHEMES,
        ),
    ]
}

pub open spec fn error_row(error: Seq<char>) -> Seq<SpanModel> {
    seq![card::span(SpanStyle::Red, "  └ ✗ "@), card::span(SpanStyle::Red, error)]
}

pub open spec fn fleet_header(fleet: FleetModel, elapsed_seconds: nat) -> Seq<SpanModel> {
    seq![
        card::span(SpanStyle::Dim, "▸ "@),
        card::span(SpanStyle::Bold, "Agents"@),
        card::span(SpanStyle::Dim, ": "@),
        card::span(SpanStyle::Plain, text::decimal(fleet.agents.len())),
        card::span(SpanStyle::Dim, " · "@),
        card::span(SpanStyle::Plain, text::joined(fleet_parts(fleet.agents), " · "@)),
    ] + (if fleet.interactions > 0 {
        seq![
            card::span(SpanStyle::Dim, " · "@),
            card::span(
                SpanStyle::Dim,
                lifecycle::interactions_label(fleet.interactions as nat),
            ),
        ]
    } else {
        Seq::empty()
    }) + seq![
        card::span(SpanStyle::Dim, " · "@),
        card::span(SpanStyle::Dim, lifecycle::coarse_elapsed(elapsed_seconds)),
        card::span(SpanStyle::Dim, " · "@),
        card::span(SpanStyle::Dim, "/agent details"@),
    ]
}

/// The card of a fleet: results, then tasks in the room that is left, then every failed
/// operation.
pub open spec fn fleet_card(fleet: FleetModel, elapsed_seconds: nat) -> CardModel {
    CardModel {
        header: fleet_header(fleet, elapsed_seconds),
        details: shown_results(fleet.agents).map_values(|a: AgentModel| result_row(a))
            + shown_tasks(fleet.agents).map_values(|a: AgentModel| task_row(a))
            + fleet.errors.map_values(|e: Seq<char>| error_row(e)),
    }
}

fn make_label_span(agent: &FleetAgent) -> (r: Span)
    ensures
        r@ == label_span(agent@),
{
    Span { style: SpanStyle::Cyan, text: agent.label.text.clone(), clip: agent.label.clip }
}

fn make_result_row(agent: &FleetAgent) -> (r: Vec<Span>)
    ensures
        card::spans(r@) == result_row(agent@),
{
    let mut row = card::no_spans();
    card::push_span(&mut row, card::make_span(SpanStyle::Dim, "  └ "));
    card::push_span(
        &mut row,
        if agent.status == FleetAgentStatus::Failed {
            card::make_span(SpanStyle::Red, "✗")
        } else {
            card::make_span(SpanStyle::Green, "✓")
        },
    );
    card::push_span(&mut row, card::make_span(SpanStyle::Plain, " "));
    card::push_span(&mut row, make_label_span(agent));
    card::push_span(&mut row, card::make_span(SpanStyle::Dim, ": "));
    let message = match &agent.message {
        Some(message) => text::collapse_whitespace(message.as_str()),
        None => text::collapse_whitespace(String::new().as_str()),
    };
    card::push_span(
        &mut row,
        card::make_clipped(
            SpanStyle::Plain,
            message.as_str(),
            lifecycle::AGENT_MESSAGE_PREVIEW_GRAPHEMES,
        ),
    );
    proof {
        assert(card::spans(row@) =~= result_row(agent@));
    }
    row
}

fn make_task_row(agent: &FleetAgent) -> (r: Vec<Span>)
    ensures
        card::spans(r@) == task_row(agent@),
{
    let mut row = card::no_spans();
    card::push_span(&mut row, card::make_span(SpanStyle::Dim, "  └ "));
    card::push_span(&mut row, card::make_span(SpanStyle::Cyan, "… "));
    card::push_span(&mut row, make_label_span(agent));
    let configuration = match &agent.configuration {
        Some(configuration) => {
            let mut label = text::owned(" (");
            label.append(configuration.as_str());
            label.append(")");
            label
        },
        None => String::new(),
    };
    card::push_span(&mut row, card::make_span(SpanStyle::Magenta, configuration.as_str()));
    card::push_span(&mut row, card::make_span(SpanStyle::Dim, ": "));
    let task = match &agent.task {
        Some(task) => task.clone(),
        None => String::new(),
    };
    card::push_span(
        &mut row,
        card::make_clipped(
            SpanStyle::Plain,
            task.as_str(),
            lifecycle::AGENT_MESSAGE_PREVIEW_GRAPHEMES,
        ),
    );
    proof {
        assert(card::spans(row@) =~= task_row(agent@));
    }
    row
}

fn agent_has_result(agent: &FleetAgent, status: FleetAgentStatus) -> (r: bool)
    ensures
        r == has_result(agent@, status),
{
    agent.status == status && (match &agent.message {
        Some(message) => text::trim(text::chars_of(message.as_str()).as_slice()).len() > 0,
        None => false,
    })
}

proof fn lemma_results_take(
    agents: Seq<(Seq<char>, AgentModel)>,
    status: FleetAgentStatus,
    n: int,
)
    requires
        0 <= n <= agents.len(),
    ensures
        results(agents.take(n), status).len() <= results(agents, status).len(),
        forall|k: int|
            0 <= k < results(agents.take(n), status).len() ==> (#[trigger] results(
                agents.take(n),
                status,
            )[k]) == results(agents, status)[k],
    decreases agents.len() - n,
{
    if n < agents.len() {
        assert(agents.take(n + 1).drop_last() =~= agents.take(n));
        lemma_results_take(agents, status, n + 1);
        let short = results(agents.take(n), status);
        let long = results(agents.take(n + 1), status);
        assert forall|k: int| 0 <= k < short.len() implies (#[trigger] short[k]) == results(
            agents,
            status,
        )[k] by {
            assert(long[k] == short[k]);
        }
    } else {
        assert(agents.take(n) =~= agents);
    }
}

proof fn lemma_tasks_take(agents: Seq<(Seq<char>, AgentModel)>, n: int)
    requires
        0 <= n <= agents.len(),
    ensures
        tasks(agents.take(n)).len() <= tasks(agents).len(),
        forall|k: int|
            0 <= k < tasks(agents.take(n)).len() ==> (#[trigger] tasks(agents.take(n))[k]) == tasks(
                agents,
            )[k],
    decreases agents.len() - n,
{
    if n < agents.len() {
        assert(agents.take(n + 1).drop_last() =~= agents.take(n));
        lemma_tasks_take(agents, n + 1);
        let short = tasks(agents.take(n));
        let long = tasks(agents.take(n + 1));
        assert forall|k: int| 0 <= k < short.len() implies (#[trigger] short[k]) == tasks(
            agents,
        )[k] by {
            assert(long[k] == short[k]);
        }
    } else {
        assert(agents.take(n) =~= agents);
    }
}

pub open spec fn result_rows(agents: Seq<AgentModel>) -> Seq<Seq<SpanModel>> {
    agents.map_values(|a: AgentModel| result_row(a))
}

/// The first so many of a list.
pub open spec fn at_most(agents: Seq<AgentModel>, room: int) -> Seq<AgentModel> {
    if agents.len() > room {
        agents.take(room)
    } else {
        agents
    }
}

impl AgentFleetLifecycleCell {
    /// Appends the rows of at most `room` results of one kind, and says how many there were.
    #[verifier::loop_isolation(false)]
    fn push_results(
        &self,
        rows: &mut Vec<Vec<Span>>,
        status: FleetAgentStatus,
        room: usize,
    ) -> (r: usize)
        ensures
            card::lines_model(final(rows)@) == card::lines_model(old(rows)@) + result_rows(
                at_most(results(self@.agents, status), room as int),
            ),
            r == at_most(results(self@.agents, status), room as int).len(),
    {
        let ghost all = self@.agents;
        let ghost wanted = results(all, status);
        let ghost before = card::lines_model(rows@);
        let mut shown: usize = 0;
        let mut i: usize = 0;
        proof {
            assert(before + result_rows(wanted.take(0)) =~= before);
        }
        while i < self.agents.len() && shown < room
            invariant
                i <= self.agents@.len(),
                shown <= room,
                shown == results(all.take(i as int), status).len(),
                shown <= wanted.len(),
                card::lines_model(rows@) == before + result_rows(wanted.take(shown as int)),
            decreases self.agents@.len() - i,
        {
            proof {
                assert(all.take(i + 1).drop_last() =~= all.take(i as int));
                assert(all.take(i + 1).last() == all[i as int]);
                lemma_results_take(all, status, i + 1);
            }
            let agent = &self.agents[i].1;
            if agent_has_result(agent, status) {
                let ghost prior = card::lines_model(rows@);
                card::push_line(rows, make_result_row(agent));
                proof {
                    let upto = results(all.take(i + 1), status);
                    assert(upto[shown as int] == agent@);
                    assert(wanted[shown as int] == agent@);
                    assert(result_rows(wanted.take(shown + 1)) =~= result_rows(
                        wanted.take(shown as int),
                    ).push(result_row(agent@)));
                    assert(card::lines_model(rows@) =~= before + result_rows(
                        wanted.take(shown + 1),
                    ));
                }
                shown += 1;
            }
            i += 1;
        }
        proof {
            if shown < room {
                assert(all.take(all.len() as int) =~= all);
                assert(wanted.take(shown as int) =~= wanted);
            } else {
                lemma_results_take(all, status, i as int);
                if wanted.len() == room {
                    assert(wanted.take(shown as int) =~= wanted);
                }
            }
        }
        shown
    }

    /// Appends the rows of at most `room` tasks.
    #[verifier::loop_isolation(false)]
    fn push_tasks(&self, rows: &mut Vec<Vec<Span>>, room: usize)
        ensures
            card::lines_model(final(rows)@) == card::lines_model(old(rows)@) + at_most(
                tasks(self@.agents),
                room as int,
            ).map_values(|a: AgentModel| task_row(a)),
    {
        let ghost all = self@.agents;
        let ghost wanted = tasks(all);
        let ghost before = card::lines_model(rows@);
        let mut shown: usize = 0;
        let mut i: usize = 0;
        proof {
            assert(before + wanted.take(0).map_values(|a: AgentModel| task_row(a)) =~= before);
        }
        while i < self.agents.len() && shown < room
            invariant
                i <= self.agents@.len(),
                shown <= room,
                shown == tasks(all.take(i as int)).len(),
                shown <= wanted.len(),
                card::lines_model(rows@) == before + wanted.take(shown as int).map_values(
                    |a: AgentModel| task_row(a),
                ),
            decreases self.agents@.len() - i,
        {
            proof {
                assert(all.take(i + 1).drop_last() =~= all.take(i as int));
                assert(all.take(i + 1).last() == all[i as int]);
                lemma_tasks_take(all, i + 1);
            }
            let agent = &self.agents[i].1;
            let at_work = agent.status == FleetAgentStatus::Pending || agent.status
                == FleetAgentStatus::Running;
            if at_work && agent.task.is_some() {
                card::push_line(rows, make_task_row(agent));
                proof {
                    let upto = tasks(all.take(i + 1));
                    assert(upto[shown as int] == agent@);
                    assert(wanted[shown as int] == agent@);
                    assert(wanted.take(shown + 1) =~= wanted.take(shown as int).push(agent@));
                    assert(card::lines_model(rows@) =~= before + wanted.take(shown + 1).map_values(
                        |a: AgentModel| task_row(a),
                    ));
                }
                shown += 1;
            }
            i += 1;
        }
        proof {
            if shown < room {
                assert(all.take(all.len() as int) =~= all);
                assert(wanted.take(shown as int) =~= wanted);
            } else {
                lemma_tasks_take(all, i as int);
                if wanted.len() == room {
                    assert(wanted.take(shown as int) =~= wanted);
                }
            }
        }
    }

    /// Appends a row for each failed operation.
    fn push_errors(&self, rows: &mut Vec<Vec<Span>>)
        ensures
            card::lines_model(final(rows)@) == card::lines_model(old(rows)@)
                + self@.errors.map_values(|e: Seq<char>| error_row(e)),
    {
        let ghost all = self@.errors.map_values(|e: Seq<char>| error_row(e));
        let ghost before = card::lines_model(rows@);
        let mut i: usize = 0;
        proof {
            assert(before + all.take(0) =~= before);
        }
        while i < self.operation_errors.len()
            invariant
                i <= self.operation_errors@.len(),
                all == self@.errors.map_values(|e: Seq<char>| error_row(e)),
                card::lines_model(rows@) == before + all.take(i as int),
            decreases self.operation_errors@.len() - i,
        {
            let mut row = card::no_spans();
            card::push_span(&mut row, card::make_span(SpanStyle::Red, "  └ ✗ "));
            card::push_span(
                &mut row,
                card::make_span(SpanStyle::Red, self.operation_errors[i].as_str()),
            );
            proof {
                assert(card::spans(row@) =~= all[i as int]);
                assert(all.take(i + 1) =~= all.take(i as int).push(all[i as int]));
            }
            card::push_line(rows, row);
            proof {
                assert(card::lines_model(rows@) =~= before + all.take(i + 1));
            }
            i += 1;
        }
        proof {
            assert(all.take(self.operation_errors@.len() as int) =~= all);
        }
    }

    fn make_header(&self, elapsed_seconds: u64) -> (r: Vec<Span>)
        ensures
            card::spans(r@) == fleet_header(self@, elapsed_seconds as nat),
    {
        let counts = FleetCounts::from_state(self);
        let mut parts: Vec<String> = Vec::new();
        proof {
            assert(text::views(parts@) =~= Seq::empty());
        }
        push_count(&mut parts, counts.running, " running");
        push_count(&mut parts, counts.completed, " done");
        push_count(&mut parts, counts.failed, " failed");
        push_count(&mut parts, counts.other, " paused");
        if self.agents.len() == 0 {
            text::push_text(&mut parts, text::owned("spawning"));
        }
        proof {
            assert(text::views(parts@) =~= fleet_parts(self@.agents));
        }
        let mut header = card::no_spans();
        card::push_span(&mut header, card::make_span(SpanStyle::Dim, "▸ "));
        card::push_span(&mut header, card::make_span(SpanStyle::Bold, "Agents"));
        card::push_span(&mut header, card::make_span(SpanStyle::Dim, ": "));
        card::push_span(
            &mut header,
            card::make_span(
                SpanStyle::Plain,
                text::decimal_string(self.agents.len() as u64).as_str(),
            ),
        );
        card::push_span(&mut header, card::make_span(SpanStyle::Dim, " · "));
        card::push_span(
            &mut header,
            card::make_span(SpanStyle::Plain, text::join(&parts, " · ").as_str()),
        );
        if self.interactions > 0 {
            card::push_span(&mut header, card::make_span(SpanStyle::Dim, " · "));
            card::push_span(
                &mut header,
                card::make_span(
                    SpanStyle::Dim,
                    lifecycle::make_interactions_label(self.interactions).as_str(),
                ),
            );
        }
        card::push_span(&mut header, card::make_span(SpanStyle::Dim, " · "));
        card::push_span(
            &mut header,
            card::make_span(
                SpanStyle::Dim,
                lifecycle::format_coarse_elapsed(elapsed_seconds).as_str(),
            ),
        );
        card::push_span(&mut header, card::make_span(SpanStyle::Dim, " · "));
        card::push_span(&mut header, card::make_span(SpanStyle::Dim, "/agent details"));
        proof {
            assert(card::spans(header@) =~= fleet_header(self@, elapsed_seconds as nat));
        }
        header
    }

    /// The card, unless it has no width.
    pub fn display_lines(&self, width: u16, elapsed_seconds: u64) -> (r: Option<Card>)
        ensures
            r is Some <==> width != 0,
            r matches Some(shown) ==> shown@ == fleet_card(self@, elapsed_seconds as nat),
    {
        if width == 0 {
            return None;
        }
        let header = self.make_header(elapsed_seconds);
        let mut details = card::no_lines();
        let limit: usize = lifecycle::RESULT_PREVIEW_ITEMS;
        let failed = self.push_results(&mut details, FleetAgentStatus::Failed, limit);
        let completed = self.push_results(
            &mut details,
            FleetAgentStatus::Completed,
            limit - failed,
        );
        proof {
            let f = results(self@.agents, FleetAgentStatus::Failed);
            let c = results(self@.agents, FleetAgentStatus::Completed);
            assert(at_most(f, limit as int) + at_most(c, limit - failed) =~= shown_results(
                self@.agents,
            ));
            assert(card::lines_model(details@) =~= shown_results(self@.agents).map_values(
                |a: AgentModel| result_row(a),
            ));
        }
        self.push_tasks(&mut details, limit - failed - completed);
        self.push_errors(&mut details);
        Some(Card { header, details })
    }

    pub open spec fn status_word(status: FleetAgentStatus) -> Seq<char> {
        match status {
            FleetAgentStatus::Pending => "pending"@,
            FleetAgentStatus::Running => "running"@,
            FleetAgentStatus::Interrupted => "interrupted"@,
            FleetAgentStatus::Completed => "completed"@,
            FleetAgentStatus::Failed => "failed"@,
            FleetAgentStatus::Shutdown => "shutdown"@,
        }
    }

    /// The plain record of one agent. The label of an agent without a name is cut short.
    pub open spec fn agent_record(agent: AgentModel) -> Seq<Seq<SpanModel>> {
        seq![
            seq![
                card::span(SpanStyle::Plain, "[agent] "@),
                SpanModel {
                    style: SpanStyle::Plain,
                    text: agent.label,
                    clip: agent.label_clip,
                },
                card::span(SpanStyle::Plain, ": "@ + Self::status_word(agent.status)),
            ],
        ] + (match agent.configuration {
            Some(configuration) => seq![card::plain_line("[configuration] "@ + configuration)],
            None => Seq::empty(),
        }) + (match agent.task {
            Some(task) => seq![card::plain_line("[task] "@ + task)],
            None => Seq::empty(),
        }) + (match agent.message {
            Some(message) => card::plain_lines(text::lines_of(message)),
            None => Seq::empty(),
        })
    }

    pub open spec fn agent_records(agents: Seq<(Seq<char>, AgentModel)>) -> Seq<Seq<SpanModel>>
        decreases agents.len(),
    {
        if agents.len() == 0 {
            Seq::empty()
        } else {
            Self::agent_records(agents.drop_last()) + Self::agent_record(agents.last().1)
        }
    }

    /// The plain record of everything that happened to the fleet.
    pub open spec fn record(fleet: FleetModel, elapsed_seconds: nat) -> Seq<Seq<SpanModel>> {
        seq![card::plain_line("Agent fleet after "@ + lifecycle::coarse_elapsed(elapsed_seconds))]
            + card::plain_lines(fleet.events.map_values(|e: Seq<char>| "[event] "@ + e))
            + Self::agent_records(fleet.agents) + card::plain_lines(
            fleet.errors.map_values(|e: Seq<char>| "[error] "@ + e),
        )
    }

    fn push_agent_record(lines: &mut Vec<Vec<Span>>, agent: &FleetAgent)
        ensures
            card::lines_model(final(lines)@) == card::lines_model(old(lines)@)
                + Self::agent_record(agent@),
    {
        let ghost before = card::lines_model(lines@);
        let mut word = text::owned(": ");
        word.append(
            match agent.status {
                FleetAgentStatus::Pending => "pending",
                FleetAgentStatus::Running => "running",
                FleetAgentStatus::Interrupted => "interrupted",
                FleetAgentStatus::Completed => "completed",
                FleetAgentStatus::Failed => "failed",
                FleetAgentStatus::Shutdown => "shutdown",
            },
        );
        let mut first = card::no_spans();
        card::push_span(&mut first, card::make_span(SpanStyle::Plain, "[agent] "));
        card::push_span(
            &mut first,
            Span {
                style: SpanStyle::Plain,
                text: agent.label.text.clone(),
                clip: agent.label.clip,
            },
        );
        card::push_span(&mut first, card::make_span(SpanStyle::Plain, word.as_str()));
        proof {
            assert(card::spans(first@) =~= Self::agent_record(agent@)[0]);
        }
        card::push_line(lines, first);
        if let Some(configuration) = &agent.configuration {
            let mut line = text::owned("[configuration] ");
            line.append(configuration.as_str());
            card::push_plain_line(lines, line.as_str());
        }
        if let Some(task) = &agent.task {
            let mut line = text::owned("[task] ");
            line.append(task.as_str());
            card::push_plain_line(lines, line.as_str());
        }
        if let Some(message) = &agent.message {
            let texts = text::lines(text::chars_of(message.as_str()).as_slice());
            card::push_plain_lines(lines, &texts);
        }
        proof {
            assert(card::lines_model(lines@) =~= before + Self::agent_record(agent@));
        }
    }

    fn push_prefixed(lines: &mut Vec<Vec<Span>>, prefix: &str, items: &Vec<String>)
        ensures
            card::lines_model(final(lines)@) == card::lines_model(old(lines)@) + card::plain_lines(
                text::views(items@).map_values(|e: Seq<char>| prefix@ + e),
            ),
    {
        let ghost before = card::lines_model(lines@);
        let ghost texts = text::views(items@).map_values(|e: Seq<char>| prefix@ + e);
        let ghost all = card::plain_lines(texts);
        let mut i: usize = 0;
        proof {
            assert(before + all.take(0) =~= before);
        }
        while i < items.len()
            invariant
                i <= items@.len(),
                texts == text::views(items@).map_values(|e: Seq<char>| prefix@ + e),
                all == card::plain_lines(texts),
                card::lines_model(lines@) == before + all.take(i as int),
            decreases items@.len() - i,
        {
            let mut line = text::owned(prefix);
            line.append(items[i].as_str());
            card::push_plain_line(lines, line.as_str());
            proof {
                assert(texts[i as int] == line@);
                assert(all[i as int] == card::plain_line(line@));
                assert(all.take(i + 1) =~= all.take(i as int).push(all[i as int]));
                assert(card::lines_model(lines@) =~= before + all.take(i + 1));
            }
            i += 1;
        }
        proof {
            assert(all.take(items@.len() as int) =~= all);
        }
    }

    pub fn raw_lines(&self, elapsed_seconds: u64) -> (r: Vec<Vec<Span>>)
        ensures
            card::lines_model(r@) == Self::record(self@, elapsed_seconds as nat),
    {
        let mut lines = card::no_lines();
        let mut first = text::owned("Agent fleet after ");
        first.append(lifecycle::format_coarse_elapsed(elapsed_seconds).as_str());
        card::push_plain_line(&mut lines, first.as_str());
        Self::push_prefixed(&mut lines, "[event] ", &self.raw_events);
        let ghost head = card::lines_model(lines@);
        let ghost all = self@.agents;
        let mut i: usize = 0;
        proof {
            assert(head + Self::agent_records(all.take(0)) =~= head);
        }
        while i < self.agents.len()
            invariant
                i <= self.agents@.len(),
                all == self@.agents,
                card::lines_model(lines@) == head + Self::agent_records(all.take(i as int)),
            decreases self.agents@.len() - i,
        {
            proof {
                assert(all.take(i + 1).drop_last() =~= all.take(i as int));
                assert(all.take(i + 1).last() == all[i as int]);
            }
            Self::push_agent_record(&mut lines, &self.agents[i].1);
            proof {
                assert(card::lines_model(lines@) =~= head + Self::agent_records(all.take(i + 1)));
            }
            i += 1;
        }
        proof {
            assert(all.take(self.agents@.len() as int) =~= all);
        }
        Self::push_prefixed(&mut lines, "[error] ", &self.operation_errors);
        proof {
            assert(card::lines_model(lines@) =~= Self::record(self@, elapsed_seconds as nat));
        }
        lines
    }
}

proof fn lemma_before_transitive(a: Seq<char>, b: Seq<char>, c: Seq<char>)
    requires
        text::comes_before(a, b),
        text::comes_before(b, c),
    ensures
        text::comes_before(a, c),
    decreases a.len(),
{
    if a.len() > 0 && a[0] == b[0] && b[0] == c[0] {
        lemma_before_transitive(a.skip(1), b.skip(1), c.skip(1));
    }
}

proof fn lemma_before_total(a: Seq<char>, b: Seq<char>)
    requires
        !text::comes_before(a, b),
        a != b,
    ensures
        text::comes_before(b, a),
    decreases a.len(),
{
    if a.len() > 0 && b.len() > 0 && a[0] == b[0] {
        if a.skip(1) == b.skip(1) {
            assert(a =~= seq![a[0]] + a.skip(1));
            assert(b =~= seq![b[0]] + b.skip(1));
        }
        lemma_before_total(a.skip(1), b.skip(1));
    } else if a.len() == 0 && b.len() == 0 {
        assert(a =~= b);
    }
}

/// The agents stand in the order of their identifiers, each once.
pub open spec fn in_order(agents: Seq<(Seq<char>, AgentModel)>) -> bool {
    forall|i: int, j: int|
        0 <= i < j < agents.len() ==> text::comes_before(
            (#[trigger] agents[i]).0,
            (#[trigger] agents[j]).0,
        )
}

/// Noting an agent keeps the agents in order and each of them once, and afterwards there is one.
pub proof fn law_agents_stay_in_order(
    agents: Seq<(Seq<char>, AgentModel)>,
    id: Seq<char>,
    label: Seq<char>,
    label_clip: Option<usize>,
)
    requires
        in_order(agents),
    ensures
        in_order(with_agent(agents, id, label, label_clip)),
        ({
            let after = with_agent(agents, id, label, label_clip);
            let i = agent_index(agents, id);
            0 <= i < after.len() && after[i].0 == id
        }),
{
    lemma_agent_index_bounds(agents, id);
    let at = agent_index(agents, id);
    if !knows_agent(agents, id) {
        let after = with_agent(agents, id, label, label_clip);
        assert forall|i: int, j: int| 0 <= i < j < after.len() implies text::comes_before(
            (#[trigger] after[i]).0,
            (#[trigger] after[j]).0,
        ) by {
            if j < at {
                assert(after[i] == agents[i] && after[j] == agents[j]);
            } else if j == at {
                assert(after[i] == agents[i]);
            } else {
                assert(after[j] == agents[j - 1]);
                lemma_before_total(agents[at].0, id);
                if j - 1 > at {
                    assert(text::comes_before(agents[at].0, agents[j - 1].0));
                    lemma_before_transitive(id, agents[at].0, agents[j - 1].0);
                }
                if i < at {
                    assert(after[i] == agents[i]);
                    assert(text::comes_before(agents[i].0, agents[j - 1].0));
                } else if i > at {
                    assert(after[i] == agents[i - 1]);
                    assert(text::comes_before(agents[i - 1].0, agents[j - 1].0));
                }
            }
        }
    }
}

/// Every failed operation is shown, whatever else the card shows.
pub proof fn law_failed_operations_are_shown(fleet: FleetModel, elapsed_seconds: nat, k: int)
    requires
        0 <= k < fleet.errors.len(),
    ensures
        fleet_card(fleet, elapsed_seconds).details.contains(error_row(fleet.errors[k])),
{
    let details = fleet_card(fleet, elapsed_seconds).details;
    let before = shown_results(fleet.agents).len() + shown_tasks(fleet.agents).len();
    assert(details[before + k] == error_row(fleet.errors[k]));
}

/// A failure with a message comes before every success, so that successes cannot push it out.
pub proof fn law_failures_come_first(fleet: FleetModel, k: int)
    requires
        0 <= k < results(fleet.agents, FleetAgentStatus::Failed).len(),
        k < lifecycle::RESULT_PREVIEW_ITEMS,
    ensures
        k < shown_results(fleet.agents).len(),
        shown_results(fleet.agents)[k] == results(fleet.agents, FleetAgentStatus::Failed)[k],
{
}

} // verus!
