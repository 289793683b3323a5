//! Remembers what finished tool calls were classified as.

use std::collections::HashMap;

use vstd::prelude::*;

use crate::compact_tool_group_item;
use crate::compact_tool_group_item::ToolGroupItem;
use crate::history_cell::CommandOutput;
use crate::history_cell::ExecCall;
use crate::history_cell::ExecCell;
use crate::history_cell::McpToolCallCell;
use crate::history_cell::ParsedCommand;
use crate::output_scan::ActionScan;
use crate::text;
use crate::tool_classification;

verus! {

broadcast use vstd::std_specs::hash::group_hash_axioms;

#[verifier::ext_equal]
pub enum ParsedModel {
    Read { cmd: Seq<char>, name: Seq<char>, path: Seq<char> },
    ListFiles { cmd: Seq<char> },
    Search { cmd: Seq<char> },
    Unknown { cmd: Seq<char> },
}

#[verifier::ext_equal]
pub struct OutputModel {
    pub exit_code: i32,
    pub lines: Seq<Seq<char>>,
    pub scan: ActionScan,
}

#[verifier::ext_equal]
pub struct CallModel {
    pub command: Seq<Seq<char>>,
    pub shell_line: Seq<char>,
    pub parsed: Seq<ParsedModel>,
    pub output: Option<OutputModel>,
    pub user_shell_command: bool,
}

/// What the classification of a tool call rests on. A call in flight is not classified.
#[verifier::ext_equal]
pub enum CellState {
    InFlight,
    Exec(Seq<CallModel>),
    Mcp { server: Seq<char>, tool: Seq<char>, success: bool, safe: bool },
}

pub open spec fn parsed_model(parsed: ParsedCommand) -> ParsedModel {
    match parsed {
        ParsedCommand::Read { cmd, name, path } => ParsedModel::Read {
            cmd: cmd@,
            name: name@,
            path: path@,
        },
        ParsedCommand::ListFiles { cmd } => ParsedModel::ListFiles { cmd: cmd@ },
        ParsedCommand::Search { cmd } => ParsedModel::Search { cmd: cmd@ },
        ParsedCommand::Unknown { cmd } => ParsedModel::Unknown { cmd: cmd@ },
    }
}

pub open spec fn parsed_models(parsed: Seq<ParsedCommand>) -> Seq<ParsedModel> {
    Seq::new(parsed.len(), |i: int| parsed_model(parsed[i]))
}

pub open spec fn output_model(output: CommandOutput) -> OutputModel {
    OutputModel {
        exit_code: output.exit_code,
        lines: text::views(output.lines@),
        scan: output.scan,
    }
}

pub open spec fn call_model(call: ExecCall) -> CallModel {
    CallModel {
        command: text::views(call.command@),
        shell_line: call.shell_line@,
        parsed: parsed_models(call.parsed@),
        output: match call.output {
            Some(output) => Some(output_model(output)),
            None => None,
        },
        user_shell_command: call.user_shell_command,
    }
}

pub open spec fn call_models(calls: Seq<ExecCall>) -> Seq<CallModel> {
    Seq::new(calls.len(), |i: int| call_model(calls[i]))
}

pub open spec fn exec_state(exec: ExecCell) -> CellState {
    if exec.active() {
        CellState::InFlight
    } else {
        CellState::Exec(call_models(exec.calls@))
    }
}

pub open spec fn mcp_state(mcp: McpToolCallCell) -> CellState {
    match mcp.completed {
        None => CellState::InFlight,
        Some(success) => CellState::Mcp {
            server: mcp.server@,
            tool: mcp.tool@,
            success,
            safe: mcp.safe_to_compact,
        },
    }
}

fn same_strings(a: &Vec<String>, b: &Vec<String>) -> (r: bool)
    ensures
        r == (text::views(a@) == text::views(b@)),
{
    let ghost left = text::views(a@);
    let ghost right = text::views(b@);
    if a.len() != b.len() {
        proof {
            assert(left.len() != right.len());
        }
        return false;
    }
    let mut i: usize = 0;
    while i < a.len()
        invariant
            i <= a@.len() == b@.len(),
            left == text::views(a@),
            right == text::views(b@),
            forall|j: int| 0 <= j < i ==> left[j] == right[j],
        decreases a@.len() - i,
    {
        if !text::text_is(a[i].as_str(), b[i].as_str()) {
            proof {
                assert(left[i as int] != right[i as int]);
            }
            return false;
        }
        i += 1;
    }
    proof {
        assert(left =~= right);
    }
    true
}

fn same_parsed(a: &ParsedCommand, b: &ParsedCommand) -> (r: bool)
    ensures
        r == (parsed_model(*a) == parsed_model(*b)),
{
    match (a, b) {
        (
            ParsedCommand::Read { cmd, name, path },
            ParsedCommand::Read { cmd: other_cmd, name: other_name, path: other_path },
        ) => text::text_is(cmd.as_str(), other_cmd.as_str()) && text::text_is(
            name.as_str(),
            other_name.as_str(),
        ) && text::text_is(path.as_str(), other_path.as_str()),
        (ParsedCommand::ListFiles { cmd }, ParsedCommand::ListFiles { cmd: other }) => {
            text::text_is(cmd.as_str(), other.as_str())
        },
        (ParsedCommand::Search { cmd }, ParsedCommand::Search { cmd: other }) => text::text_is(
            cmd.as_str(),
            other.as_str(),
        ),
        (ParsedCommand::Unknown { cmd }, ParsedCommand::Unknown { cmd: other }) => text::text_is(
            cmd.as_str(),
            other.as_str(),
        ),
        _ => false,
    }
}

fn same_all_parsed(a: &Vec<ParsedCommand>, b: &Vec<ParsedCommand>) -> (r: bool)
    ensures
        r == (parsed_models(a@) == parsed_models(b@)),
{
    let ghost left = parsed_models(a@);
    let ghost right = parsed_models(b@);
    if a.len() != b.len() {
        proof {
            assert(left.len() != right.len());
        }
        return false;
    }
    let mut i: usize = 0;
    while i < a.len()
        invariant
            i <= a@.len() == b@.len(),
            left == parsed_models(a@),
            right == parsed_models(b@),
            forall|j: int| 0 <= j < i ==> left[j] == right[j],
        decreases a@.len() - i,
    {
        if !same_parsed(&a[i], &b[i]) {
            proof {
                assert(left[i as int] != right[i as int]);
            }
            return false;
        }
        i += 1;
    }
    proof {
        assert(left =~= right);
    }
    true
}

fn same_output(a: &Option<CommandOutput>, b: &Option<CommandOutput>) -> (r: bool)
    ensures
        r == ((match *a {
            Some(output) => Some(output_model(output)),
            None => None,
        }) == (match *b {
            Some(output) => Some(output_model(output)),
            None => None,
        })),
{
    match (a, b) {
        (Some(a), Some(b)) => a.exit_code == b.exit_code && a.scan == b.scan && same_strings(
            &a.lines,
            &b.lines,
        ),
        (None, None) => true,
        _ => false,
    }
}

fn same_call(a: &ExecCall, b: &ExecCall) -> (r: bool)
    ensures
        r == (call_model(*a) == call_model(*b)),
{
    a.user_shell_command == b.user_shell_command && text::text_is(
        a.shell_line.as_str(),
        b.shell_line.as_str(),
    ) && same_strings(&a.command, &b.command) && same_all_parsed(&a.parsed, &b.parsed)
        && same_output(&a.output, &b.output)
}

fn same_calls(a: &Vec<ExecCall>, b: &Vec<ExecCall>) -> (r: bool)
    ensures
        r == (call_models(a@) == call_models(b@)),
{
    let ghost left = call_models(a@);
    let ghost right = call_models(b@);
    if a.len() != b.len() {
        proof {
            assert(left.len() != right.len());
        }
        return false;
    }
    let mut i: usize = 0;
    while i < a.len()
        invariant
            i <= a@.len() == b@.len(),
            left == call_models(a@),
            right == call_models(b@),
            forall|j: int| 0 <= j < i ==> left[j] == right[j],
        decreases a@.len() - i,
    {
        if !same_call(&a[i], &b[i]) {
            proof {
                assert(left[i as int] != right[i as int]);
            }
            return false;
        }
        i += 1;
    }
    proof {
        assert(left =~= right);
    }
    true
}

fn copy_parsed(parsed: &Vec<ParsedCommand>) -> (r: Vec<ParsedCommand>)
    ensures
        parsed_models(r@) == parsed_models(parsed@),
{
    let mut out: Vec<ParsedCommand> = Vec::new();
    let mut i: usize = 0;
    while i < parsed.len()
        invariant
            i <= parsed@.len(),
            out@.len() == i,
            forall|j: int|
                0 <= j < i ==> parsed_model(#[trigger] out@[j]) == parsed_model(parsed@[j]),
        decreases parsed@.len() - i,
    {
        let copy = match &parsed[i] {
            ParsedCommand::Read { cmd, name, path } => ParsedCommand::Read {
                cmd: cmd.clone(),
                name: name.clone(),
                path: path.clone(),
            },
            ParsedCommand::ListFiles { cmd } => ParsedCommand::ListFiles { cmd: cmd.clone() },
            ParsedCommand::Search { cmd } => ParsedCommand::Search { cmd: cmd.clone() },
            ParsedCommand::Unknown { cmd } => ParsedCommand::Unknown { cmd: cmd.clone() },
        };
        out.push(copy);
        i += 1;
    }
    proof {
        assert(parsed_models(out@) =~= parsed_models(parsed@));
    }
    out
}

fn copy_calls(calls: &Vec<ExecCall>) -> (r: Vec<ExecCall>)
    ensures
        call_models(r@) == call_models(calls@),
{
    let mut out: Vec<ExecCall> = Vec::new();
    let mut i: usize = 0;
    while i < calls.len()
        invariant
            i <= calls@.len(),
            out@.len() == i,
            forall|j: int| 0 <= j < i ==> call_model(#[trigger] out@[j]) == call_model(calls@[j]),
        decreases calls@.len() - i,
    {
        let call = &calls[i];
        let output = match &call.output {
            Some(output) => Some(
                CommandOutput {
                    exit_code: output.exit_code,
                    lines: text::copy_strings(&output.lines),
                    scan: output.scan,
                },
            ),
            None => None,
        };
        let copy = ExecCall {
            call_id: call.call_id.clone(),
            command: text::copy_strings(&call.command),
            shell_line: call.shell_line.clone(),
            parsed: copy_parsed(&call.parsed),
            output,
            user_shell_command: call.user_shell_command,
        };
        out.push(copy);
        i += 1;
    }
    proof {
        assert(call_models(out@) =~= call_models(calls@));
    }
    out
}

/// The state of a call when it was last looked at.
pub enum KeptState {
    InFlight,
    Exec(ExecCell),
    Mcp(McpToolCallCell),
}

/// What a call was classified as in the state in which it was last looked at.
pub struct MemoEntry {
    pub state: KeptState,
    pub item: Option<ToolGroupItem>,
}

impl MemoEntry {
    pub open spec fn model(&self) -> CellState {
        match self.state {
            KeptState::InFlight => CellState::InFlight,
            KeptState::Exec(exec) => CellState::Exec(call_models(exec.calls@)),
            KeptState::Mcp(mcp) => mcp_state(mcp),
        }
    }

    /// The kept item is that of the kept state.
    pub open spec fn wf(&self) -> bool {
        match self.state {
            KeptState::InFlight => self.item is None,
            KeptState::Exec(exec) => tool_classification::item_matches(
                self.item,
                tool_classification::exec_item(exec),
            ),
            KeptState::Mcp(mcp) => mcp.completed is Some && tool_classification::item_matches(
                self.item,
                tool_classification::mcp_item(mcp),
            ),
        }
    }

    pub fn of_exec(exec: &ExecCell, item: &Option<ToolGroupItem>) -> (r: Self)
        requires
            !exec.active(),
            tool_classification::item_matches(*item, tool_classification::exec_item(*exec)),
        ensures
            r.wf(),
            r.model() == exec_state(*exec),
    {
        let kept = ExecCell { calls: copy_calls(&exec.calls) };
        proof {
            tool_classification::lemma_same_exec(kept, *exec);
        }
        MemoEntry {
            state: KeptState::Exec(kept),
            item: compact_tool_group_item::copy_item(item),
        }
    }

    pub fn of_mcp(mcp: &McpToolCallCell, item: &Option<ToolGroupItem>) -> (r: Self)
        requires
            mcp.completed is Some,
            tool_classification::item_matches(*item, tool_classification::mcp_item(*mcp)),
        ensures
            r.wf(),
            r.model() == mcp_state(*mcp),
    {
        let kept = McpToolCallCell {
            server: mcp.server.clone(),
            tool: mcp.tool.clone(),
            completed: mcp.completed,
            safe_to_compact: mcp.safe_to_compact,
        };
        MemoEntry {
            state: KeptState::Mcp(kept),
            item: compact_tool_group_item::copy_item(item),
        }
    }

    pub fn in_flight() -> (r: Self)
        ensures
            r.wf(),
            r.model() == CellState::InFlight,
    {
        MemoEntry { state: KeptState::InFlight, item: None }
    }

    pub fn is_in_flight(&self) -> (r: bool)
        requires
            self.wf(),
        ensures
            r == (self.model() == CellState::InFlight),
    {
        match &self.state {
            KeptState::InFlight => true,
            _ => false,
        }
    }

    /// Whether the state of a finished cell is the kept one.
    pub fn keeps_exec(&self, exec: &ExecCell) -> (r: bool)
        requires
            self.wf(),
            !exec.active(),
        ensures
            r == (self.model() == exec_state(*exec)),
            r ==> tool_classification::item_matches(
                self.item,
                tool_classification::exec_item(*exec),
            ),
    {
        match &self.state {
            KeptState::Exec(kept) => {
                let same = same_calls(&kept.calls, &exec.calls);
                proof {
                    if same {
                        tool_classification::lemma_same_exec(*kept, *exec);
                    }
                }
                same
            },
            _ => false,
        }
    }

    /// Whether the state of a finished call is the kept one.
    pub fn keeps_mcp(&self, mcp: &McpToolCallCell) -> (r: bool)
        requires
            self.wf(),
            mcp.completed is Some,
        ensures
            r == (self.model() == mcp_state(*mcp)),
            r ==> tool_classification::item_matches(
                self.item,
                tool_classification::mcp_item(*mcp),
            ),
    {
        match &self.state {
            KeptState::Mcp(kept) => kept.completed == mcp.completed && kept.safe_to_compact
                == mcp.safe_to_compact && text::text_is(kept.server.as_str(), mcp.server.as_str())
                && text::text_is(kept.tool.as_str(), mcp.tool.as_str()),
            _ => false,
        }
    }
}

/// The classifications of the tool calls of a conversation, by their records.
pub struct ClassificationMemo {
    entries: HashMap<u64, MemoEntry>,
}

impl ClassificationMemo {
    #[verifier::type_invariant]
    spec fn exact(&self) -> bool {
        forall|id: u64| #[trigger] self.entries@.contains_key(id) ==> self.entries@[id].wf()
    }

    /// The states that calls were last looked at in.
    pub closed spec fn states(&self) -> Map<u64, CellState> {
        self.entries@.map_values(|entry: MemoEntry| entry.model())
    }

    pub fn new() -> (r: Self)
        ensures
            r.states() == Map::<u64, CellState>::empty(),
    {
        let entries: HashMap<u64, MemoEntry> = HashMap::new();
        let r = ClassificationMemo { entries };
        proof {
            assert(r.states() =~= Map::<u64, CellState>::empty());
        }
        r
    }

    /// What is kept of a call.
    pub fn get(&self, id: u64) -> (r: Option<&MemoEntry>)
        ensures
            match r {
                Some(entry) => entry.wf() && self.states().contains_key(id) && self.states()[id]
                    == entry.model(),
                None => !self.states().contains_key(id),
            },
    {
        proof {
            use_type_invariant(self);
        }
        self.entries.get(&id)
    }

    pub fn keep(&mut self, id: u64, entry: MemoEntry)
        requires
            entry.wf(),
        ensures
            final(self).states() == old(self).states().insert(id, entry.model()),
    {
        proof {
            use_type_invariant(&*self);
        }
        let mut entries: HashMap<u64, MemoEntry> = HashMap::new();
        std::mem::swap(&mut entries, &mut self.entries);
        entries.insert(id, entry);
        self.entries = entries;
        proof {
            assert(self.states() =~= old(self).states().insert(id, entry.model()));
        }
    }
}

} // verus!
