//! Which cells a Work group may fold, and what each contributes to its summary.

use vstd::prelude::*;

use crate::classification_memo;
use crate::classification_memo::CellState;
use crate::classification_memo::MemoEntry;
use crate::compact_tool_group_item;
use crate::compact_tool_group_item::SummaryModel;
use crate::compact_tool_group_item::ToolGroupItem;
use crate::compact_tool_group_item::ToolGroupSummary;
use crate::dynamic_tool::DynamicToolCallCell;
use crate::dynamic_tool::DynamicToolCallStatus;
use crate::history_cell::CellKind;
use crate::history_cell::CommandOutput;
use crate::history_cell::ExecCall;
use crate::history_cell::ExecCell;
use crate::history_cell::HistoryCell;
use crate::history_cell::McpToolCallCell;
use crate::history_cell::ParsedCommand;
use crate::history_cell::PatchHistoryCell;
use crate::history_cell::WebSearchAction;
use crate::history_cell::WebSearchCell;
use crate::ledger;
use crate::ledger::QuietLedger;
use crate::ledger::Tally;
use crate::output_scan;
use crate::quiet_metrics;
use crate::quiet_metrics::QuietMetric;
use crate::text;

verus! {

/// Whether a command is `prefix`, alone or with arguments.
pub open spec fn has_command_prefix(command: Seq<char>, prefix: Seq<char>) -> bool {
    &&& text::begins_with(command, prefix)
    &&& command.len() > prefix.len() ==> command[prefix.len() as int] == ' '
}

pub fn command_has_prefix(command: &[char], prefix: &str) -> (r: bool)
    ensures
        r == has_command_prefix(command@, prefix@),
{
    let wanted = text::chars_of(prefix);
    text::starts_with(command, wanted.as_slice()) && (command.len() == wanted.len()
        || command[wanted.len()] == ' ')
}

pub open spec fn test_command(command: Seq<char>) -> bool {
    let c = text::trimmed_start(command);
    ||| has_command_prefix(c, "cargo test"@)
    ||| has_command_prefix(c, "cargo nextest"@)
    ||| has_command_prefix(c, "npm test"@)
    ||| has_command_prefix(c, "npm run test"@)
    ||| has_command_prefix(c, "pnpm test"@)
    ||| has_command_prefix(c, "pnpm run test"@)
    ||| has_command_prefix(c, "yarn test"@)
    ||| has_command_prefix(c, "yarn run test"@)
    ||| has_command_prefix(c, "bun test"@)
    ||| has_command_prefix(c, "bun run test"@)
    ||| has_command_prefix(c, "pytest"@)
    ||| has_command_prefix(c, "go test"@)
    ||| has_command_prefix(c, "swift test"@)
    ||| has_command_prefix(c, "zig build test"@)
    ||| has_command_prefix(c, "just test"@)
}

pub fn is_test_command(command: &str) -> (r: bool)
    ensures
        r == test_command(command@),
{
    let chars = text::chars_of(command);
    let c = text::trim_start(chars.as_slice());
    command_has_prefix(c, "cargo test") || command_has_prefix(c, "cargo nextest")
        || command_has_prefix(c, "npm test") || command_has_prefix(c, "npm run test")
        || command_has_prefix(c, "pnpm test") || command_has_prefix(c, "pnpm run test")
        || command_has_prefix(c, "yarn test") || command_has_prefix(c, "yarn run test")
        || command_has_prefix(c, "bun test") || command_has_prefix(c, "bun run test")
        || command_has_prefix(c, "pytest") || command_has_prefix(c, "go test")
        || command_has_prefix(c, "swift test") || command_has_prefix(c, "zig build test")
        || command_has_prefix(c, "just test")
}

pub open spec fn build_command(command: Seq<char>) -> bool {
    let c = text::trimmed_start(command);
    ||| has_command_prefix(c, "cargo build"@)
    ||| has_command_prefix(c, "npm run build"@)
    ||| has_command_prefix(c, "pnpm run build"@)
    ||| has_command_prefix(c, "yarn build"@)
    ||| has_command_prefix(c, "yarn run build"@)
    ||| has_command_prefix(c, "bun run build"@)
    ||| has_command_prefix(c, "go build"@)
    ||| has_command_prefix(c, "swift build"@)
    ||| has_command_prefix(c, "zig build"@)
    ||| has_command_prefix(c, "cmake --build"@)
    ||| has_command_prefix(c, "make"@)
    ||| has_command_prefix(c, "just build"@)
}

pub fn is_build_command(command: &str) -> (r: bool)
    ensures
        r == build_command(command@),
{
    let chars = text::chars_of(command);
    let c = text::trim_start(chars.as_slice());
    command_has_prefix(c, "cargo build") || command_has_prefix(c, "npm run build")
        || command_has_prefix(c, "pnpm run build") || command_has_prefix(c, "yarn build")
        || command_has_prefix(c, "yarn run build") || command_has_prefix(c, "bun run build")
        || command_has_prefix(c, "go build") || command_has_prefix(c, "swift build")
        || command_has_prefix(c, "zig build") || command_has_prefix(c, "cmake --build")
        || command_has_prefix(c, "make") || command_has_prefix(c, "just build")
}

pub open spec fn check_command(command: Seq<char>) -> bool {
    let c = text::trimmed_start(command);
    ||| has_command_prefix(c, "cargo check"@)
    ||| has_command_prefix(c, "cargo clippy"@)
    ||| has_command_prefix(c, "npm run typecheck"@)
    ||| has_command_prefix(c, "pnpm run typecheck"@)
    ||| has_command_prefix(c, "yarn typecheck"@)
    ||| has_command_prefix(c, "bun run typecheck"@)
    ||| has_command_prefix(c, "tsc"@)
    ||| has_command_prefix(c, "eslint"@)
    ||| has_command_prefix(c, "ruff check"@)
    ||| has_command_prefix(c, "just lint"@)
    ||| has_command_prefix(c, "just check"@)
}

pub fn is_check_command(command: &str) -> (r: bool)
    ensures
        r == check_command(command@),
{
    let chars = text::chars_of(command);
    let c = text::trim_start(chars.as_slice());
    command_has_prefix(c, "cargo check") || command_has_prefix(c, "cargo clippy")
        || command_has_prefix(c, "npm run typecheck") || command_has_prefix(
        c,
        "pnpm run typecheck",
    ) || command_has_prefix(c, "yarn typecheck") || command_has_prefix(c, "bun run typecheck")
        || command_has_prefix(c, "tsc") || command_has_prefix(c, "eslint") || command_has_prefix(
        c,
        "ruff check",
    ) || command_has_prefix(c, "just lint") || command_has_prefix(c, "just check")
}

pub open spec fn install_command(command: Seq<char>) -> bool {
    let c = text::trimmed_start(command);
    ||| has_command_prefix(c, "npm install"@)
    ||| has_command_prefix(c, "npm ci"@)
    ||| has_command_prefix(c, "pnpm install"@)
    ||| has_command_prefix(c, "yarn install"@)
    ||| has_command_prefix(c, "bun install"@)
    ||| has_command_prefix(c, "cargo fetch"@)
}

pub fn is_dependency_install_command(command: &str) -> (r: bool)
    ensures
        r == install_command(command@),
{
    let chars = text::chars_of(command);
    let c = text::trim_start(chars.as_slice());
    command_has_prefix(c, "npm install") || command_has_prefix(c, "npm ci") || command_has_prefix(
        c,
        "pnpm install",
    ) || command_has_prefix(c, "yarn install") || command_has_prefix(c, "bun install")
        || command_has_prefix(c, "cargo fetch")
}

/// One more, within the range of a counter.
pub open spec fn one_more(n: int) -> int {
    compact_tool_group_item::capped_sum(n, 1)
}

/// The summary with one more command, counted by what the command does.
pub open spec fn with_command(m: SummaryModel, command: Seq<char>) -> SummaryModel {
    let counted = if test_command(command) {
        SummaryModel { tests: one_more(m.tests), ..m }
    } else if build_command(command) {
        SummaryModel { builds: one_more(m.builds), ..m }
    } else if check_command(command) {
        SummaryModel { checks: one_more(m.checks), ..m }
    } else if install_command(command) {
        SummaryModel { installs: one_more(m.installs), ..m }
    } else {
        SummaryModel { runs: one_more(m.runs), ..m }
    };
    SummaryModel { actions: one_more(m.actions), ..counted }
}

pub fn add_command(summary: &mut ToolGroupSummary, command: &str)
    ensures
        final(summary).model() == with_command(old(summary).model(), command@),
        old(summary).wf() ==> final(summary).wf(),
{
    if is_test_command(command) {
        summary.test_count = summary.test_count.saturating_add(1);
    } else if is_build_command(command) {
        summary.build_count = summary.build_count.saturating_add(1);
    } else if is_check_command(command) {
        summary.check_count = summary.check_count.saturating_add(1);
    } else if is_dependency_install_command(command) {
        summary.install_count = summary.install_count.saturating_add(1);
    } else {
        summary.run_count = summary.run_count.saturating_add(1);
    }
    summary.actions = summary.actions.saturating_add(1);
}

/// How a read file is named: by the given name unless that is blank, else by the last component
/// of its path, else by the path.
pub open spec fn label_of_read(name: Seq<char>, path: Seq<char>) -> Seq<char> {
    if text::trimmed(name).len() > 0 {
        name
    } else {
        match output_scan::path_file_name(path) {
            Some(file_name) => file_name,
            None => path,
        }
    }
}

pub fn read_label(name: &String, path: &String) -> (r: String)
    ensures
        r@ == label_of_read(name@, path@),
{
    if text::trim(text::chars_of(name.as_str()).as_slice()).len() > 0 {
        return name.clone();
    }
    match output_scan::file_name(path.as_str()) {
        Some(file_name) => file_name,
        None => path.clone(),
    }
}

pub open spec fn with_parsed(m: SummaryModel, parsed: ParsedCommand) -> SummaryModel {
    match parsed {
        ParsedCommand::Read { cmd: _, name, path } => SummaryModel {
            reads: compact_tool_group_item::with_label(m.reads, label_of_read(name@, path@)),
            actions: one_more(m.actions),
            ..m
        },
        ParsedCommand::ListFiles { cmd: _ } => SummaryModel {
            lists: one_more(m.lists),
            actions: one_more(m.actions),
            ..m
        },
        ParsedCommand::Search { cmd: _ } => SummaryModel {
            searches: one_more(m.searches),
            actions: one_more(m.actions),
            ..m
        },
        ParsedCommand::Unknown { cmd } => with_command(m, cmd@),
    }
}

proof fn lemma_with_parsed_wf(m: SummaryModel, parsed: ParsedCommand)
    requires
        m.wf(),
    ensures
        with_parsed(m, parsed).wf(),
{
    match parsed {
        ParsedCommand::Read { cmd: _, name, path } => {
            compact_tool_group_item::lemma_with_label_distinct(
                m.reads,
                label_of_read(name@, path@),
            );
        },
        _ => {},
    }
}

pub fn add_parsed_command(summary: &mut ToolGroupSummary, parsed: &ParsedCommand)
    ensures
        final(summary).model() == with_parsed(old(summary).model(), *parsed),
        old(summary).wf() ==> final(summary).wf(),
{
    proof {
        if summary.wf() {
            lemma_with_parsed_wf(summary.model(), *parsed);
        }
    }
    match parsed {
        ParsedCommand::Read { cmd: _, name, path } => {
            compact_tool_group_item::insert_label(
                &mut summary.read_labels,
                read_label(name, path),
            );
            summary.actions = summary.actions.saturating_add(1);
        },
        ParsedCommand::ListFiles { cmd: _ } => {
            summary.list_count = summary.list_count.saturating_add(1);
            summary.actions = summary.actions.saturating_add(1);
        },
        ParsedCommand::Search { cmd: _ } => {
            summary.search_count = summary.search_count.saturating_add(1);
            summary.actions = summary.actions.saturating_add(1);
        },
        ParsedCommand::Unknown { cmd } => add_command(summary, cmd.as_str()),
    }
}

pub open spec fn with_all_parsed(m: SummaryModel, parsed: Seq<ParsedCommand>) -> SummaryModel
    decreases parsed.len(),
{
    if parsed.len() == 0 {
        m
    } else {
        with_parsed(with_all_parsed(m, parsed.drop_last()), parsed.last())
    }
}

/// Whether a command ended well and its output may be hidden.
pub open spec fn foldable_output(output: CommandOutput, shell_line: Seq<char>) -> bool {
    &&& output.exit_code == 0
    &&& output_scan::bounded_transcript(text::views(output.lines@)) matches Some(transcript)
        && !output_scan::asks_user_to_act(
        transcript,
        output_scan::urls_are_metadata(transcript, shell_line),
        output.scan,
    )
}

/// The summary with one more call, if the call may be folded.
pub open spec fn with_call(m: SummaryModel, call: ExecCall) -> Option<SummaryModel> {
    match call.output {
        Some(output) => if !foldable_output(output, call.shell_line@) {
            None
        } else if call.parsed@.len() == 0 {
            Some(with_command(m, text::joined(text::views(call.command@), " "@)))
        } else {
            Some(with_all_parsed(m, call.parsed@))
        },
        None => None,
    }
}

pub open spec fn with_calls(calls: Seq<ExecCall>) -> Option<SummaryModel>
    decreases calls.len(),
{
    if calls.len() == 0 {
        Some(compact_tool_group_item::empty_summary())
    } else {
        match with_calls(calls.drop_last()) {
            Some(m) => with_call(m, calls.last()),
            None => None,
        }
    }
}

proof fn lemma_with_all_parsed_wf(m: SummaryModel, parsed: Seq<ParsedCommand>)
    requires
        m.wf(),
    ensures
        with_all_parsed(m, parsed).wf(),
    decreases parsed.len(),
{
    if parsed.len() > 0 {
        lemma_with_all_parsed_wf(m, parsed.drop_last());
        lemma_with_parsed_wf(with_all_parsed(m, parsed.drop_last()), parsed.last());
    }
}

proof fn lemma_with_calls_wf(calls: Seq<ExecCall>)
    ensures
        with_calls(calls) matches Some(m) ==> m.wf(),
    decreases calls.len(),
{
    if calls.len() > 0 {
        lemma_with_calls_wf(calls.drop_last());
        if let Some(m) = with_calls(calls.drop_last()) {
            lemma_with_all_parsed_wf(m, calls.last().parsed@);
        }
    }
}

/// What an exec cell contributes: nothing where the user typed one of its commands, or where one
/// of them is unfinished, failed, or printed something that has to stay visible.
pub open spec fn exec_item(exec: ExecCell) -> Option<SummaryModel> {
    if exists|i: int| 0 <= i < exec.calls@.len() && (#[trigger] exec.calls@[i]).user_shell_command {
        None
    } else {
        with_calls(exec.calls@)
    }
}

proof fn lemma_byte_len_concat(a: Seq<char>, b: Seq<char>)
    ensures
        output_scan::byte_len(a + b) == output_scan::byte_len(a) + output_scan::byte_len(b),
    decreases a.len(),
{
    if a.len() == 0 {
        assert(a + b =~= b);
    } else {
        assert((a + b).drop_first() =~= a.drop_first() + b);
        assert((a + b)[0] == a[0]);
        lemma_byte_len_concat(a.drop_first(), b);
    }
}

proof fn lemma_byte_len_newline()
    ensures
        output_scan::byte_len("\n"@) == 1,
{
    reveal_strlit("\n");
    assert("\n"@ =~= seq!['\n']);
    assert("\n"@.drop_first() =~= Seq::<char>::empty());
    reveal_with_fuel(vstd::utf8::encode_utf8, 2);
}

proof fn lemma_joined_prefix(lines: Seq<Seq<char>>, n: int)
    requires
        0 <= n <= lines.len(),
    ensures
        output_scan::byte_len(text::joined(lines.take(n), "\n"@)) <= output_scan::byte_len(
            text::joined(lines, "\n"@),
        ),
    decreases lines.len(),
{
    if n < lines.len() {
        let shorter = lines.drop_last();
        assert(shorter.take(n) =~= lines.take(n));
        lemma_joined_prefix(shorter, n);
        if lines.len() == 1 {
            assert(shorter =~= Seq::<Seq<char>>::empty());
        } else {
            lemma_byte_len_concat(text::joined(shorter, "\n"@) + "\n"@, lines.last());
            lemma_byte_len_concat(text::joined(shorter, "\n"@), "\n"@);
        }
    } else {
        assert(lines.take(n) =~= lines);
    }
}

pub fn bounded_transcript_for_compaction(output: &CommandOutput) -> (r: Option<String>)
    ensures
        match r {
            Some(t) => output_scan::bounded_transcript(text::views(output.lines@)) == Some(t@),
            None => output_scan::bounded_transcript(text::views(output.lines@)) is None,
        },
{
    let ghost all = text::views(output.lines@);
    let mut transcript = String::new();
    let mut bytes: usize = 0;
    let mut i: usize = 0;
    while i < output.lines.len()
        invariant
            i <= output.lines@.len(),
            all == text::views(output.lines@),
            transcript@ == text::joined(all.take(i as int), "\n"@),
            bytes == output_scan::byte_len(transcript@),
            bytes <= output_scan::MAX_COMPACT_OUTPUT_SCAN_BYTES,
        decreases output.lines@.len() - i,
    {
        let line: &str = output.lines[i].as_str();
        let line_bytes: usize = line.as_bytes().len();
        let separator: usize = if i > 0 {
            1
        } else {
            0
        };
        proof {
            let upto = all.take(i + 1);
            assert(upto.drop_last() =~= all.take(i as int));
            assert(upto.last() == line@);
            lemma_byte_len_concat(transcript@ + "\n"@, line@);
            lemma_byte_len_concat(transcript@, "\n"@);
            lemma_byte_len_newline();
            lemma_joined_prefix(all, i + 1);
        }
        if line_bytes > output_scan::MAX_COMPACT_OUTPUT_SCAN_BYTES || bytes + separator + line_bytes
            > output_scan::MAX_COMPACT_OUTPUT_SCAN_BYTES {
            return None;
        }
        let ghost before = transcript@;
        if i > 0 {
            transcript.append("\n");
        }
        transcript.append(line);
        proof {
            if i == 0 {
                assert(transcript@ =~= line@);
            }
        }
        bytes = bytes + separator + line_bytes;
        i += 1;
    }
    proof {
        assert(all.take(output.lines@.len() as int) =~= all);
    }
    Some(transcript)
}

fn is_foldable_output(output: &CommandOutput, shell_line: &str) -> (r: bool)
    ensures
        r == foldable_output(*output, shell_line@),
{
    if output.exit_code != 0 {
        return false;
    }
    match bounded_transcript_for_compaction(output) {
        Some(transcript) => !output_scan::scan_requires_user_action(
            transcript.as_str(),
            shell_line,
            output.scan,
        ),
        None => false,
    }
}

fn add_call(summary: &mut ToolGroupSummary, call: &ExecCall) -> (r: bool)
    ensures
        r == (with_call(old(summary).model(), *call) is Some),
        with_call(old(summary).model(), *call) matches Some(m) ==> final(summary).model() == m,
{
    let output = match &call.output {
        Some(output) => output,
        None => {
            return false;
        },
    };
    if !is_foldable_output(output, call.shell_line.as_str()) {
        return false;
    }
    if call.parsed.len() == 0 {
        add_command(summary, text::join(&call.command, " ").as_str());
        return true;
    }
    let mut i: usize = 0;
    while i < call.parsed.len()
        invariant
            i <= call.parsed@.len(),
            summary.model() == with_all_parsed(
                old(summary).model(),
                call.parsed@.take(i as int),
            ),
        decreases call.parsed@.len() - i,
    {
        proof {
            assert(call.parsed@.take(i + 1).drop_last() =~= call.parsed@.take(i as int));
        }
        add_parsed_command(summary, &call.parsed[i]);
        i += 1;
    }
    proof {
        assert(call.parsed@.take(call.parsed@.len() as int) =~= call.parsed@);
    }
    true
}

/// The item that a summary model describes.
pub open spec fn item_matches(item: Option<ToolGroupItem>, model: Option<SummaryModel>) -> bool {
    match item {
        Some(found) => model == Some(found.summary.model()),
        None => model is None,
    }
}

pub proof fn lemma_with_calls_prefix(calls: Seq<ExecCall>, n: int)
    requires
        0 <= n <= calls.len(),
        with_calls(calls.take(n)) is None,
    ensures
        with_calls(calls) is None,
    decreases calls.len() - n,
{
    if n < calls.len() {
        assert(calls.take(n + 1).drop_last() =~= calls.take(n));
        lemma_with_calls_prefix(calls, n + 1);
    } else {
        assert(calls.take(n) =~= calls);
    }
}

proof fn lemma_same_parsed(m: SummaryModel, a: Seq<ParsedCommand>, b: Seq<ParsedCommand>)
    requires
        classification_memo::parsed_models(a) == classification_memo::parsed_models(b),
    ensures
        with_all_parsed(m, a) == with_all_parsed(m, b),
    decreases a.len(),
{
    let left = classification_memo::parsed_models(a);
    let right = classification_memo::parsed_models(b);
    assert(left.len() == a.len() && right.len() == b.len());
    if a.len() > 0 {
        let n = a.len() - 1;
        assert(classification_memo::parsed_models(a.drop_last()) =~= left.take(n));
        assert(classification_memo::parsed_models(b.drop_last()) =~= right.take(n));
        lemma_same_parsed(m, a.drop_last(), b.drop_last());
        assert(left[n] == right[n]);
    }
}

proof fn lemma_same_call(m: SummaryModel, a: ExecCall, b: ExecCall)
    requires
        classification_memo::call_model(a) == classification_memo::call_model(b),
    ensures
        with_call(m, a) == with_call(m, b),
{
    lemma_same_parsed(m, a.parsed@, b.parsed@);
    assert(classification_memo::parsed_models(a.parsed@).len()
        == classification_memo::parsed_models(b.parsed@).len());
}

proof fn lemma_same_calls(a: Seq<ExecCall>, b: Seq<ExecCall>)
    requires
        classification_memo::call_models(a) == classification_memo::call_models(b),
    ensures
        with_calls(a) == with_calls(b),
    decreases a.len(),
{
    let left = classification_memo::call_models(a);
    let right = classification_memo::call_models(b);
    assert(left.len() == a.len() && right.len() == b.len());
    if a.len() > 0 {
        let n = a.len() - 1;
        assert(classification_memo::call_models(a.drop_last()) =~= left.take(n));
        assert(classification_memo::call_models(b.drop_last()) =~= right.take(n));
        lemma_same_calls(a.drop_last(), b.drop_last());
        assert(left[n] == right[n]);
        if let Some(m) = with_calls(a.drop_last()) {
            lemma_same_call(m, a.last(), b.last());
        }
    }
}

/// Cells in the same state are classified alike.
pub proof fn lemma_same_exec(a: ExecCell, b: ExecCell)
    requires
        classification_memo::call_models(a.calls@) == classification_memo::call_models(b.calls@),
    ensures
        exec_item(a) == exec_item(b),
{
    let left = classification_memo::call_models(a.calls@);
    let right = classification_memo::call_models(b.calls@);
    assert(left.len() == a.calls@.len() && right.len() == b.calls@.len());
    lemma_same_calls(a.calls@, b.calls@);
    if exists|i: int| 0 <= i < a.calls@.len() && (#[trigger] a.calls@[i]).user_shell_command {
        let i = choose|i: int|
            0 <= i < a.calls@.len() && (#[trigger] a.calls@[i]).user_shell_command;
        assert(left[i] == right[i]);
        assert(b.calls@[i].user_shell_command);
    }
    if exists|i: int| 0 <= i < b.calls@.len() && (#[trigger] b.calls@[i]).user_shell_command {
        let i = choose|i: int|
            0 <= i < b.calls@.len() && (#[trigger] b.calls@[i]).user_shell_command;
        assert(left[i] == right[i]);
        assert(a.calls@[i].user_shell_command);
    }
}

/// Scans the output of a finished cell.
#[verifier::loop_isolation(false)]
pub fn classify_exec_tool_group_item(metrics: &mut QuietLedger, exec: &ExecCell) -> (r: Option<
    ToolGroupItem,
>)
    ensures
        item_matches(r, exec_item(*exec)),
        final(metrics).memo == old(metrics).memo,
        quiet_metrics::counted(
            old(metrics).counters,
            final(metrics).counters,
            seq![QuietMetric::ClassificationOutputScan],
        ),
{
    ledger::bump(metrics, QuietMetric::ClassificationOutputScan);
    let mut i: usize = 0;
    while i < exec.calls.len()
        invariant
            i <= exec.calls@.len(),
            forall|j: int| 0 <= j < i ==> !(#[trigger] exec.calls@[j]).user_shell_command,
        decreases exec.calls@.len() - i,
    {
        if exec.calls[i].user_shell_command {
            return None;
        }
        i += 1;
    }
    let mut summary = ToolGroupSummary::default();
    let mut k: usize = 0;
    while k < exec.calls.len()
        invariant
            k <= exec.calls@.len(),
            with_calls(exec.calls@.take(k as int)) == Some(summary.model()),
        decreases exec.calls@.len() - k,
    {
        proof {
            assert(exec.calls@.take(k + 1).drop_last() =~= exec.calls@.take(k as int));
        }
        if !add_call(&mut summary, &exec.calls[k]) {
            proof {
                lemma_with_calls_prefix(exec.calls@, k + 1);
            }
            return None;
        }
        k += 1;
    }
    proof {
        assert(exec.calls@.take(exec.calls@.len() as int) =~= exec.calls@);
    }
    Some(ToolGroupItem { summary })
}

proof fn lemma_active_has_no_item(exec: ExecCell)
    requires
        exec.active(),
    ensures
        exec_item(exec) is None,
{
    let i = choose|i: int| 0 <= i < exec.calls@.len() && (#[trigger] exec.calls@[i]).output is None;
    assert(exec.calls@.take(i + 1).last() == exec.calls@[i]);
    lemma_with_calls_prefix(exec.calls@, i + 1);
}

/// What is counted where the kept state of a call is another one.
spec fn dropping(memo: Map<u64, CellState>, id: u64) -> Seq<QuietMetric> {
    if memo.contains_key(id) {
        seq![QuietMetric::ClassificationCacheInvalidation]
    } else {
        Seq::empty()
    }
}

/// Counts that the kept state of a call, where there is one, is no longer its state.
fn count_dropped(metrics: &mut QuietLedger, id: u64)
    ensures
        final(metrics).memo == old(metrics).memo,
        quiet_metrics::counted(
            old(metrics).counters,
            final(metrics).counters,
            dropping(old(metrics).memo.states(), id),
        ),
{
    proof {
        quiet_metrics::lemma_counted_nothing(metrics.counters);
    }
    if metrics.memo.get(id).is_some() {
        ledger::bump(metrics, QuietMetric::ClassificationCacheInvalidation);
    }
}

/// Passes over a call in flight.
fn pass_over(metrics: &mut QuietLedger, id: u64)
    ensures
        ledger::counted(
            *old(metrics),
            *final(metrics),
            seq![Tally::Look { id, state: CellState::InFlight }],
        ),
{
    let ghost first = *metrics;
    let ghost memo = metrics.memo.states();
    let waiting = match metrics.memo.get(id) {
        Some(entry) => entry.is_in_flight(),
        None => false,
    };
    proof {
        quiet_metrics::lemma_counted_nothing(metrics.counters);
    }
    if !waiting {
        count_dropped(metrics, id);
    }
    let ghost second = *metrics;
    ledger::bump(metrics, QuietMetric::ClassificationInFlightBypass);
    let ghost third = *metrics;
    metrics.memo.keep(id, MemoEntry::in_flight());
    proof {
        let a = if waiting {
            Seq::empty()
        } else {
            dropping(memo, id)
        };
        let b = seq![QuietMetric::ClassificationInFlightBypass];
        quiet_metrics::lemma_counted_concat(
            first.counters,
            second.counters,
            third.counters,
            a,
            b,
        );
        assert(a + b =~= ledger::look_metrics(memo, id, CellState::InFlight));
        ledger::lemma_looked(first, *metrics, id, CellState::InFlight);
    }
}

/// What was counted for a call that is classified anew.
proof fn lemma_classified(
    first: QuietLedger,
    dropped: QuietLedger,
    missed: QuietLedger,
    scanned: QuietLedger,
    kept: QuietLedger,
    after: QuietLedger,
    id: u64,
    state: CellState,
)
    requires
        state != CellState::InFlight,
        first.memo.states().contains_key(id) ==> first.memo.states()[id] != state,
        quiet_metrics::counted(
            first.counters,
            dropped.counters,
            dropping(first.memo.states(), id),
        ),
        quiet_metrics::counted(
            dropped.counters,
            missed.counters,
            seq![QuietMetric::ClassificationCacheMiss],
        ),
        quiet_metrics::counted(
            missed.counters,
            scanned.counters,
            seq![QuietMetric::ClassificationOutputScan],
        ),
        quiet_metrics::counted(
            scanned.counters,
            kept.counters,
            seq![QuietMetric::ClassificationMemoPopulate],
        ),
        after.counters == kept.counters,
        after.memo.states() == first.memo.states().insert(id, state),
    ensures
        ledger::counted(first, after, seq![Tally::Look { id, state }]),
{
    let memo = first.memo.states();
    let a = dropping(memo, id);
    let b = seq![QuietMetric::ClassificationCacheMiss];
    let c = seq![QuietMetric::ClassificationOutputScan];
    let d = seq![QuietMetric::ClassificationMemoPopulate];
    quiet_metrics::lemma_counted_concat(
        first.counters,
        dropped.counters,
        missed.counters,
        a,
        b,
    );
    quiet_metrics::lemma_counted_concat(
        first.counters,
        missed.counters,
        scanned.counters,
        a + b,
        c,
    );
    quiet_metrics::lemma_counted_concat(
        first.counters,
        scanned.counters,
        kept.counters,
        a + b + c,
        d,
    );
    assert(a + b + c + d =~= ledger::look_metrics(memo, id, state));
    ledger::lemma_looked(first, after, id, state);
}

/// Classifies an exec cell, the record `id`. A finished cell is scanned only where its state is
/// not the one in which it was last classified.
pub fn exec_tool_group_item(metrics: &mut QuietLedger, id: u64, exec: &ExecCell) -> (r: Option<
    ToolGroupItem,
>)
    ensures
        item_matches(r, exec_item(*exec)),
        ledger::counted(
            *old(metrics),
            *final(metrics),
            seq![Tally::Look { id, state: classification_memo::exec_state(*exec) }],
        ),
{
    if exec.is_active() {
        proof {
            lemma_active_has_no_item(*exec);
        }
        pass_over(metrics, id);
        return None;
    }
    let ghost first = *metrics;
    let ghost memo = metrics.memo.states();
    let ghost state = classification_memo::exec_state(*exec);
    let kept = match metrics.memo.get(id) {
        Some(entry) => if entry.keeps_exec(exec) {
            Some(compact_tool_group_item::copy_item(&entry.item))
        } else {
            None
        },
        None => None,
    };
    if let Some(item) = kept {
        ledger::bump(metrics, QuietMetric::ClassificationCacheHit);
        proof {
            assert(memo.insert(id, state) =~= memo);
            ledger::lemma_looked(first, *metrics, id, state);
        }
        return item;
    }
    count_dropped(metrics, id);
    let ghost dropped = *metrics;
    ledger::bump(metrics, QuietMetric::ClassificationCacheMiss);
    let ghost missed = *metrics;
    let item = classify_exec_tool_group_item(metrics, exec);
    let ghost scanned = *metrics;
    ledger::bump(metrics, QuietMetric::ClassificationMemoPopulate);
    let ghost populated = *metrics;
    metrics.memo.keep(id, MemoEntry::of_exec(exec, &item));
    proof {
        lemma_classified(first, dropped, missed, scanned, populated, *metrics, id, state);
    }
    item
}

pub open spec fn mcp_item(mcp: McpToolCallCell) -> Option<SummaryModel> {
    if mcp.completed == Some(true) && mcp.safe_to_compact {
        Some(
            SummaryModel {
                mcp: seq![(mcp.server@ + "."@ + mcp.tool@, 1)],
                actions: 1,
                ..compact_tool_group_item::empty_summary()
            },
        )
    } else {
        None
    }
}

/// Classifies a call of a tool server, the record `id`. A finished call is classified only where
/// its state is not the one in which it last was.
pub fn mcp_tool_group_item(metrics: &mut QuietLedger, id: u64, mcp: &McpToolCallCell) -> (r: Option<
    ToolGroupItem,
>)
    ensures
        item_matches(r, mcp_item(*mcp)),
        ledger::counted(
            *old(metrics),
            *final(metrics),
            seq![Tally::Look { id, state: classification_memo::mcp_state(*mcp) }],
        ),
{
    let success = match mcp.completed {
        None => {
            pass_over(metrics, id);
            return None;
        },
        Some(success) => success,
    };
    let ghost first = *metrics;
    let ghost memo = metrics.memo.states();
    let ghost state = classification_memo::mcp_state(*mcp);
    let kept = match metrics.memo.get(id) {
        Some(entry) => if entry.keeps_mcp(mcp) {
            Some(compact_tool_group_item::copy_item(&entry.item))
        } else {
            None
        },
        None => None,
    };
    if let Some(item) = kept {
        ledger::bump(metrics, QuietMetric::ClassificationCacheHit);
        proof {
            assert(memo.insert(id, state) =~= memo);
            ledger::lemma_looked(first, *metrics, id, state);
        }
        return item;
    }
    count_dropped(metrics, id);
    let ghost dropped = *metrics;
    ledger::bump(metrics, QuietMetric::ClassificationCacheMiss);
    let ghost missed = *metrics;
    let item = classify_mcp_tool_group_item(metrics, mcp, success);
    let ghost scanned = *metrics;
    ledger::bump(metrics, QuietMetric::ClassificationMemoPopulate);
    let ghost populated = *metrics;
    metrics.memo.keep(id, MemoEntry::of_mcp(mcp, &item));
    proof {
        lemma_classified(first, dropped, missed, scanned, populated, *metrics, id, state);
    }
    item
}

fn classify_mcp_tool_group_item(
    metrics: &mut QuietLedger,
    mcp: &McpToolCallCell,
    success: bool,
) -> (r: Option<ToolGroupItem>)
    requires
        mcp.completed == Some(success),
    ensures
        item_matches(r, mcp_item(*mcp)),
        final(metrics).memo == old(metrics).memo,
        quiet_metrics::counted(
            old(metrics).counters,
            final(metrics).counters,
            seq![QuietMetric::ClassificationOutputScan],
        ),
{
    ledger::bump(metrics, QuietMetric::ClassificationOutputScan);
    if !success || !mcp.safe_to_compact {
        return None;
    }
    let mut label = mcp.server.clone();
    label.append(".");
    label.append(mcp.tool.as_str());
    let mut summary = ToolGroupSummary::default();
    summary.mcp_counts.push((label, 1));
    summary.actions = 1;
    proof {
        assert(summary.model() =~= mcp_item(*mcp)->0);
    }
    Some(ToolGroupItem { summary })
}

pub open spec fn dynamic_item(tool: DynamicToolCallCell) -> Option<SummaryModel> {
    if tool.status == DynamicToolCallStatus::Completed {
        Some(
            SummaryModel {
                dynamic: seq![(tool.label_text(), 1)],
                actions: 1,
                ..compact_tool_group_item::empty_summary()
            },
        )
    } else {
        None
    }
}

pub fn dynamic_tool_group_item(tool: &DynamicToolCallCell) -> (r: Option<ToolGroupItem>)
    ensures
        item_matches(r, dynamic_item(*tool)),
{
    match tool.completed_label() {
        None => None,
        Some(label) => {
            let mut summary = ToolGroupSummary::default();
            summary.dynamic_tool_counts.push((label, 1));
            summary.actions = 1;
            proof {
                assert(summary.model() =~= dynamic_item(*tool)->0);
            }
            Some(ToolGroupItem { summary })
        },
    }
}

pub open spec fn web_item(web: WebSearchCell) -> Option<SummaryModel> {
    let base = SummaryModel { actions: 1, ..compact_tool_group_item::empty_summary() };
    match web.completed_action {
        Some(WebSearchAction::Search) | Some(WebSearchAction::Other) => Some(
            SummaryModel { web_searches: 1, ..base },
        ),
        Some(WebSearchAction::OpenPage) => Some(SummaryModel { web_opens: 1, ..base }),
        Some(WebSearchAction::FindInPage) => Some(SummaryModel { web_finds: 1, ..base }),
        None => None,
    }
}

pub fn web_tool_group_item(web: &WebSearchCell) -> (r: Option<ToolGroupItem>)
    ensures
        item_matches(r, web_item(*web)),
{
    let mut summary = ToolGroupSummary::default();
    summary.actions = 1;
    match web.completed_action {
        None => {
            return None;
        },
        Some(WebSearchAction::Search) | Some(WebSearchAction::Other) => {
            summary.web_search_count = 1;
        },
        Some(WebSearchAction::OpenPage) => {
            summary.web_open_count = 1;
        },
        Some(WebSearchAction::FindInPage) => {
            summary.web_find_count = 1;
        },
    }
    Some(ToolGroupItem { summary })
}

pub open spec fn patch_item(patch: PatchHistoryCell) -> Option<SummaryModel> {
    if patch.changed_file_count == 0 {
        None
    } else {
        Some(
            SummaryModel {
                edited_files: patch.changed_file_count as int,
                actions: 1,
                ..compact_tool_group_item::empty_summary()
            },
        )
    }
}

pub fn patch_tool_group_item(patch: &PatchHistoryCell) -> (r: Option<ToolGroupItem>)
    ensures
        item_matches(r, patch_item(*patch)),
{
    if patch.changed_file_count == 0 {
        return None;
    }
    let mut summary = ToolGroupSummary::default();
    summary.edit_file_count = patch.changed_file_count;
    summary.actions = 1;
    Some(ToolGroupItem { summary })
}

/// What a cell contributes to a Work group, if it may be folded.
pub open spec fn cell_item(cell: HistoryCell) -> Option<SummaryModel> {
    match cell.kind {
        CellKind::Exec(exec) => exec_item(exec),
        CellKind::Mcp(mcp) => mcp_item(mcp),
        CellKind::Dynamic(tool) => dynamic_item(tool),
        CellKind::Web(web) => web_item(web),
        CellKind::Patch(patch) => patch_item(patch),
        _ => None,
    }
}

/// No tool call lists a label twice.
pub proof fn lemma_cell_item_wf(cell: HistoryCell)
    ensures
        cell_item(cell) matches Some(item) ==> item.wf(),
{
    if let CellKind::Exec(exec) = cell.kind {
        lemma_with_calls_wf(exec.calls@);
    }
}

/// The look that the classification of a cell takes at it.
pub open spec fn item_scans(cell: HistoryCell) -> Seq<Tally> {
    match cell.kind {
        CellKind::Exec(exec) => seq![
            Tally::Look { id: cell.id, state: classification_memo::exec_state(exec) },
        ],
        CellKind::Mcp(mcp) => seq![
            Tally::Look { id: cell.id, state: classification_memo::mcp_state(mcp) },
        ],
        _ => Seq::empty(),
    }
}

pub fn tool_group_item(metrics: &mut QuietLedger, cell: &HistoryCell) -> (r: Option<
    ToolGroupItem,
>)
    ensures
        item_matches(r, cell_item(*cell)),
        r matches Some(item) ==> item.summary.wf(),
        ledger::counted(*old(metrics), *final(metrics), item_scans(*cell)),
{
    proof {
        lemma_cell_item_wf(*cell);
        ledger::lemma_counted_nothing(*metrics);
    }
    match &cell.kind {
        CellKind::Exec(exec) => exec_tool_group_item(metrics, cell.id, exec),
        CellKind::Mcp(mcp) => mcp_tool_group_item(metrics, cell.id, mcp),
        CellKind::Dynamic(tool) => dynamic_tool_group_item(tool),
        CellKind::Web(web) => web_tool_group_item(web),
        CellKind::Patch(patch) => patch_tool_group_item(patch),
        _ => None,
    }
}

/// Hidden reasoning summaries lie inside a run without interrupting it.
pub open spec fn transparent(cell: HistoryCell) -> bool {
    match cell.kind {
        CellKind::Reasoning(reasoning) => reasoning.tool_run_transparent,
        _ => false,
    }
}

pub fn is_transparent_tool_group_cell(cell: &HistoryCell) -> (r: bool)
    ensures
        r == transparent(*cell),
{
    match &cell.kind {
        CellKind::Reasoning(reasoning) => reasoning.tool_run_transparent,
        _ => false,
    }
}

} // verus!
