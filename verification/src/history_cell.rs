//! The records of which a conversation consists.

use std::sync::Arc;

use vstd::prelude::*;

use crate::dynamic_tool::DynamicToolCallCell;
use crate::lifecycle::BackgroundTerminalLifecycleCell;
use crate::output_scan;
use crate::output_scan::ActionScan;
use crate::text;
use crate::tool_classification;
use crate::tool_run_projection::ToolRunSealCell;
use crate::web_url;

verus! {

/// Another handle to the same shared value: `Arc::clone` hands out a pointer to the allocation
/// that it was given.
#[verifier::external_body]
pub(crate) fn share<T>(value: &Arc<T>) -> (r: Arc<T>)
    ensures
        r == *value,
{
    Arc::clone(value)
}

/// Whether cells show their laid-out form or their plain source.
#[derive(Clone, Copy, Debug, PartialEq, Eq, Structural)]
pub enum HistoryRenderMode {
    Rich,
    Raw,
}

/// What a parser recognised in a command.
pub enum ParsedCommand {
    Read { cmd: String, name: String, path: String },
    ListFiles { cmd: String },
    Search { cmd: String },
    Unknown { cmd: String },
}

/// The result of a finished command.
pub struct CommandOutput {
    pub exit_code: i32,
    /// The printed lines.
    pub lines: Vec<String>,
    /// What the host's scan says of the lines.
    pub scan: ActionScan,
}

impl CommandOutput {
    /// The result of a command. The host's scan is asked about the printed lines where they are
    /// few enough to be examined; more of them stay visible whatever they hold.
    pub fn new<F: Fn(&str) -> bool>(
        exit_code: i32,
        lines: Vec<String>,
        tool_result_requires_user_action: F,
    ) -> (r: Self)
        requires
            forall|t: &str| call_requires(tool_result_requires_user_action, (t,)),
        ensures
            r.exit_code == exit_code,
            r.lines == lines,
            match output_scan::bounded_transcript(text::views(lines@)) {
                Some(transcript) => {
                    &&& output_scan::answers(
                        tool_result_requires_user_action,
                        transcript,
                        r.scan.verbatim,
                    )
                    &&& output_scan::answers(
                        tool_result_requires_user_action,
                        web_url::stripped_from(transcript, 0),
                        r.scan.without_urls,
                    )
                },
                None => r.scan.verbatim && r.scan.without_urls,
            },
    {
        let unscanned = CommandOutput {
            exit_code,
            lines,
            scan: ActionScan { verbatim: true, without_urls: true },
        };
        match tool_classification::bounded_transcript_for_compaction(&unscanned) {
            Some(transcript) => {
                let scan = output_scan::scan_output(
                    transcript.as_str(),
                    tool_result_requires_user_action,
                );
                CommandOutput { scan, ..unscanned }
            },
            None => unscanned,
        }
    }
}

/// One command of an exec cell.
pub struct ExecCall {
    pub call_id: String,
    pub command: Vec<String>,
    /// The command as one shell line, without a wrapping `bash -lc`.
    pub shell_line: String,
    pub parsed: Vec<ParsedCommand>,
    pub output: Option<CommandOutput>,
    pub user_shell_command: bool,
}

/// Commands that were run together.
pub struct ExecCell {
    pub calls: Vec<ExecCall>,
}

impl ExecCell {
    /// A cell is active while one of its commands has no result.
    pub open spec fn active(&self) -> bool {
        exists|i: int| 0 <= i < self.calls@.len() && (#[trigger] self.calls@[i]).output is None
    }

    pub fn is_active(&self) -> (r: bool)
        ensures
            r == self.active(),
    {
        let mut i: usize = 0;
        while i < self.calls.len()
            invariant
                i <= self.calls@.len(),
                forall|j: int| 0 <= j < i ==> (#[trigger] self.calls@[j]).output is Some,
            decreases self.calls@.len() - i,
        {
            if self.calls[i].output.is_none() {
                return true;
            }
            i += 1;
        }
        false
    }

    pub open spec fn single_call(&self, call_id: Seq<char>) -> bool {
        self.calls@.len() == 1 && self.calls@[0].call_id@ == call_id
    }

    pub fn is_single_call(&self, call_id: &str) -> (r: bool)
        ensures
            r == self.single_call(call_id@),
    {
        self.calls.len() == 1 && text::text_is(self.calls[0].call_id.as_str(), call_id)
    }
}

/// A call of a tool server.
pub struct McpToolCallCell {
    pub server: String,
    pub tool: String,
    /// Whether the call succeeded, once it is complete.
    pub completed: Option<bool>,
    /// Whether the result holds nothing that the user has to see.
    pub safe_to_compact: bool,
}

#[derive(Clone, Copy, Debug, PartialEq, Eq, Structural)]
pub enum WebSearchAction {
    Search,
    OpenPage,
    FindInPage,
    Other,
}

pub struct WebSearchCell {
    pub completed_action: Option<WebSearchAction>,
}

pub struct PatchHistoryCell {
    pub changed_file_count: usize,
}

pub struct ReasoningSummaryCell {
    /// Hidden summaries do not interrupt a run of tool calls.
    pub tool_run_transparent: bool,
}

pub enum CellKind {
    Exec(ExecCell),
    Mcp(McpToolCallCell),
    Dynamic(DynamicToolCallCell),
    Web(WebSearchCell),
    Patch(PatchHistoryCell),
    Reasoning(ReasoningSummaryCell),
    Seal(ToolRunSealCell),
    BackgroundTerminal(BackgroundTerminalLifecycleCell),
    AgentMessage,
    SessionHeader,
    Other,
}

/// A record of the conversation. `id` tells records apart that otherwise look alike.
pub struct HistoryCell {
    pub id: u64,
    pub kind: CellKind,
    /// Whether the cell continues the text of the cell before it.
    pub stream_continuation: bool,
    /// The lines of the rich form at widths that have no layout of their own.
    pub rich_lines: Vec<String>,
    /// Rich forms that were laid out for one width each.
    pub layouts: Vec<(u16, Vec<String>)>,
    pub raw_lines: Vec<String>,
}

/// The first position of a layout for `width`, or the number of layouts.
pub open spec fn layout_index(layouts: Seq<(u16, Vec<String>)>, width: u16) -> int
    decreases layouts.len(),
{
    if layouts.len() == 0 || layouts[0].0 == width {
        0
    } else {
        1 + layout_index(layouts.skip(1), width)
    }
}

impl HistoryCell {
    /// The lines that the cell shows. A seal shows nothing.
    pub open spec fn lines(&self, width: u16, mode: HistoryRenderMode) -> Seq<Seq<char>> {
        let i = layout_index(self.layouts@, width);
        if self.kind is Seal {
            Seq::empty()
        } else {
            match mode {
                HistoryRenderMode::Raw => text::views(self.raw_lines@),
                HistoryRenderMode::Rich => if 0 <= i < self.layouts@.len() {
                    text::views(self.layouts@[i].1@)
                } else {
                    text::views(self.rich_lines@)
                },
            }
        }
    }

    pub fn display_lines_for_mode(&self, width: u16, mode: HistoryRenderMode) -> (r: Vec<String>)
        ensures
            text::views(r@) == self.lines(width, mode),
    {
        if let CellKind::Seal(_) = &self.kind {
            let none: Vec<String> = Vec::new();
            proof {
                assert(text::views(none@) =~= Seq::empty());
            }
            return none;
        }
        match mode {
            HistoryRenderMode::Raw => text::copy_strings(&self.raw_lines),
            HistoryRenderMode::Rich => {
                let mut i: usize = 0;
                proof {
                    assert(self.layouts@.skip(0) =~= self.layouts@);
                }
                while i < self.layouts.len()
                    invariant
                        mode is Rich,
                        !(self.kind is Seal),
                        i <= self.layouts@.len(),
                        i + layout_index(self.layouts@.skip(i as int), width) == layout_index(
                            self.layouts@,
                            width,
                        ),
                    decreases self.layouts@.len() - i,
                {
                    proof {
                        assert(self.layouts@.skip(i as int).skip(1) =~= self.layouts@.skip(i + 1));
                    }
                    if self.layouts[i].0 == width {
                        return text::copy_strings(&self.layouts[i].1);
                    }
                    i += 1;
                }
                text::copy_strings(&self.rich_lines)
            },
        }
    }
}

} // verus!
