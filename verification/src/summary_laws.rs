//! Laws of the summary of a Work group: each counter is the number of calls of its very kind.

use std::sync::Arc;

use vstd::prelude::*;

use crate::compact_tool_group_item;
use crate::compact_tool_group_item::SummaryModel;
use crate::compact_tool_groups;
use crate::history_cell::CellKind;
use crate::history_cell::ExecCall;
use crate::history_cell::HistoryCell;
use crate::history_cell::ParsedCommand;
use crate::history_cell::WebSearchAction;
use crate::output_scan;
use crate::text;
use crate::tool_classification;

verus! {

/// Whether a command is one of the given ones, alone or with arguments behind a space.
pub open spec fn spells(command: Seq<char>, words: Seq<Seq<char>>) -> bool {
    let c = text::trimmed_start(command);
    exists|k: int|
        0 <= k < words.len() && (#[trigger] words[k]).len() <= c.len() && c.take(
            words[k].len() as int,
        ) == words[k] && (words[k].len() < c.len() ==> c[words[k].len() as int] == ' ')
}

pub open spec fn test_words() -> Seq<Seq<char>> {
    seq![
        "cargo test"@,
        "cargo nextest"@,
        "npm test"@,
        "npm run test"@,
        "pnpm test"@,
        "pnpm run test"@,
        "yarn test"@,
        "yarn run test"@,
        "bun test"@,
        "bun run test"@,
        "pytest"@,
        "go test"@,
        "swift test"@,
        "zig build test"@,
        "just test"@,
    ]
}

pub open spec fn build_words() -> Seq<Seq<char>> {
    seq![
        "cargo build"@,
        "npm run build"@,
        "pnpm run build"@,
        "yarn build"@,
        "yarn run build"@,
        "bun run build"@,
        "go build"@,
        "swift build"@,
        "zig build"@,
        "cmake --build"@,
        "make"@,
        "just build"@,
    ]
}

pub open spec fn check_words() -> Seq<Seq<char>> {
    seq![
        "cargo check"@,
        "cargo clippy"@,
        "npm run typecheck"@,
        "pnpm run typecheck"@,
        "yarn typecheck"@,
        "bun run typecheck"@,
        "tsc"@,
        "eslint"@,
        "ruff check"@,
        "just lint"@,
        "just check"@,
    ]
}

pub open spec fn install_words() -> Seq<Seq<char>> {
    seq![
        "npm install"@,
        "npm ci"@,
        "pnpm install"@,
        "yarn install"@,
        "bun install"@,
        "cargo fetch"@,
    ]
}

/// What a summary counts.
pub enum Work {
    Tests,
    Builds,
    Checks,
    Installs,
    Runs,
    Lists,
    Searches,
    Edits,
    WebSearches,
    WebOpens,
    WebFinds,
    Actions,
}

/// The counter of one kind of work.
pub open spec fn counter(m: SummaryModel, work: Work) -> int {
    match work {
        Work::Tests => m.tests,
        Work::Builds => m.builds,
        Work::Checks => m.checks,
        Work::Installs => m.installs,
        Work::Runs => m.runs,
        Work::Lists => m.lists,
        Work::Searches => m.searches,
        Work::Edits => m.edited_files,
        Work::WebSearches => m.web_searches,
        Work::WebOpens => m.web_opens,
        Work::WebFinds => m.web_finds,
        Work::Actions => m.actions,
    }
}

/// What a command is: a test before a build, a build before a check, a check before an
/// installation, and otherwise a command that was run.
pub open spec fn work_of(command: Seq<char>) -> Work {
    if spells(command, test_words()) {
        Work::Tests
    } else if spells(command, build_words()) {
        Work::Builds
    } else if spells(command, check_words()) {
        Work::Checks
    } else if spells(command, install_words()) {
        Work::Installs
    } else {
        Work::Runs
    }
}

pub open spec fn one_if(condition: bool) -> int {
    if condition {
        1
    } else {
        0
    }
}

/// What a command adds to a counter.
pub open spec fn command_adds(command: Seq<char>, work: Work) -> int {
    one_if(work == work_of(command) || work == Work::Actions)
}

/// What a parsed command adds to a counter.
pub open spec fn parsed_adds(parsed: ParsedCommand, work: Work) -> int {
    match parsed {
        ParsedCommand::Read { .. } => one_if(work == Work::Actions),
        ParsedCommand::ListFiles { .. } => one_if(work == Work::Lists || work == Work::Actions),
        ParsedCommand::Search { .. } => one_if(work == Work::Searches || work == Work::Actions),
        ParsedCommand::Unknown { cmd } => command_adds(cmd@, work),
    }
}

pub open spec fn all_parsed_add(parsed: Seq<ParsedCommand>, work: Work) -> int
    decreases parsed.len(),
{
    if parsed.len() == 0 {
        0
    } else {
        all_parsed_add(parsed.drop_last(), work) + parsed_adds(parsed.last(), work)
    }
}

/// What a call adds to a counter: by what it was parsed to, or by its command where it was not
/// parsed.
pub open spec fn call_adds(call: ExecCall, work: Work) -> int {
    if call.parsed@.len() == 0 {
        command_adds(text::joined(text::views(call.command@), " "@), work)
    } else {
        all_parsed_add(call.parsed@, work)
    }
}

pub open spec fn calls_add(calls: Seq<ExecCall>, work: Work) -> int
    decreases calls.len(),
{
    if calls.len() == 0 {
        0
    } else {
        calls_add(calls.drop_last(), work) + call_adds(calls.last(), work)
    }
}

/// What a cell that may be folded adds to a counter.
pub open spec fn cell_adds(cell: HistoryCell, work: Work) -> int {
    match cell.kind {
        CellKind::Exec(exec) => calls_add(exec.calls@, work),
        CellKind::Mcp(_) => one_if(work == Work::Actions),
        CellKind::Dynamic(_) => one_if(work == Work::Actions),
        CellKind::Web(web) => match web.completed_action {
            Some(WebSearchAction::OpenPage) => one_if(
                work == Work::WebOpens || work == Work::Actions,
            ),
            Some(WebSearchAction::FindInPage) => one_if(
                work == Work::WebFinds || work == Work::Actions,
            ),
            _ => one_if(work == Work::WebSearches || work == Work::Actions),
        },
        CellKind::Patch(patch) => if work == Work::Edits {
            patch.changed_file_count as int
        } else {
            one_if(work == Work::Actions)
        },
        _ => 0,
    }
}

/// What the foldable cells of a stretch add to a counter.
pub open spec fn cells_add(cells: Seq<Arc<HistoryCell>>, work: Work) -> int
    decreases cells.len(),
{
    if cells.len() == 0 {
        0
    } else {
        cells_add(cells.drop_last(), work) + (if tool_classification::cell_item(
            *cells.last(),
        ) is Some {
            cell_adds(*cells.last(), work)
        } else {
            0
        })
    }
}

/// A number as far as a counter reaches.
pub open spec fn capped(n: int) -> int {
    if n <= usize::MAX {
        n
    } else {
        usize::MAX as int
    }
}

proof fn lemma_listed(command: Seq<char>, words: Seq<Seq<char>>, k: int)
    requires
        0 <= k < words.len(),
        tool_classification::has_command_prefix(text::trimmed_start(command), words[k]),
    ensures
        spells(command, words),
{
}

/// A command is a test, a build, a check or an installation exactly where it starts with one of
/// the words for it.
pub proof fn law_commands_are_what_they_spell(command: Seq<char>)
    ensures
        tool_classification::test_command(command) <==> spells(command, test_words()),
        tool_classification::build_command(command) <==> spells(command, build_words()),
        tool_classification::check_command(command) <==> spells(command, check_words()),
        tool_classification::install_command(command) <==> spells(command, install_words()),
{
    let c = text::trimmed_start(command);
    let tests = test_words();
    let builds = build_words();
    let checks = check_words();
    let installs = install_words();
    assert forall|words: Seq<Seq<char>>, k: int|
        0 <= k < words.len() && tool_classification::has_command_prefix(
            c,
            #[trigger] words[k],
        ) implies spells(command, words) by {
        lemma_listed(command, words, k);
    }
    if spells(command, tests) {
        let k = choose|k: int|
            0 <= k < tests.len() && (#[trigger] tests[k]).len() <= c.len() && c.take(
                tests[k].len() as int,
            ) == tests[k] && (tests[k].len() < c.len() ==> c[tests[k].len() as int] == ' ');
        assert(tool_classification::has_command_prefix(c, tests[k]));
    }
    if spells(command, builds) {
        let k = choose|k: int|
            0 <= k < builds.len() && (#[trigger] builds[k]).len() <= c.len() && c.take(
                builds[k].len() as int,
            ) == builds[k] && (builds[k].len() < c.len() ==> c[builds[k].len() as int] == ' ');
        assert(tool_classification::has_command_prefix(c, builds[k]));
    }
    if spells(command, checks) {
        let k = choose|k: int|
            0 <= k < checks.len() && (#[trigger] checks[k]).len() <= c.len() && c.take(
                checks[k].len() as int,
            ) == checks[k] && (checks[k].len() < c.len() ==> c[checks[k].len() as int] == ' ');
        assert(tool_classification::has_command_prefix(c, checks[k]));
    }
    if spells(command, installs) {
        let k = choose|k: int|
            0 <= k < installs.len() && (#[trigger] installs[k]).len() <= c.len() && c.take(
                installs[k].len() as int,
            ) == installs[k] && (installs[k].len() < c.len() ==> c[installs[k].len() as int]
                == ' ');
        assert(tool_classification::has_command_prefix(c, installs[k]));
    }
    assert(tests.len() == 15 && builds.len() == 12 && checks.len() == 11 && installs.len() == 6);
    assert(tests[0] == "cargo test"@ && tests[1] == "cargo nextest"@ && tests[2] == "npm test"@
        && tests[3] == "npm run test"@ && tests[4] == "pnpm test"@ && tests[5] == "pnpm run test"@
        && tests[6] == "yarn test"@ && tests[7] == "yarn run test"@ && tests[8] == "bun test"@
        && tests[9] == "bun run test"@ && tests[10] == "pytest"@ && tests[11] == "go test"@
        && tests[12] == "swift test"@ && tests[13] == "zig build test"@ && tests[14]
        == "just test"@);
    assert(builds[0] == "cargo build"@ && builds[1] == "npm run build"@ && builds[2]
        == "pnpm run build"@ && builds[3] == "yarn build"@ && builds[4] == "yarn run build"@
        && builds[5] == "bun run build"@ && builds[6] == "go build"@ && builds[7] == "swift build"@
        && builds[8] == "zig build"@ && builds[9] == "cmake --build"@ && builds[10] == "make"@
        && builds[11] == "just build"@);
    assert(checks[0] == "cargo check"@ && checks[1] == "cargo clippy"@ && checks[2]
        == "npm run typecheck"@ && checks[3] == "pnpm run typecheck"@ && checks[4]
        == "yarn typecheck"@ && checks[5] == "bun run typecheck"@ && checks[6] == "tsc"@
        && checks[7] == "eslint"@ && checks[8] == "ruff check"@ && checks[9] == "just lint"@
        && checks[10] == "just check"@);
    assert(installs[0] == "npm install"@ && installs[1] == "npm ci"@ && installs[2]
        == "pnpm install"@ && installs[3] == "yarn install"@ && installs[4] == "bun install"@
        && installs[5] == "cargo fetch"@);
}

/// A command counts under its own kind and as one action, and under nothing else.
pub proof fn law_command_counts_as_its_kind(m: SummaryModel, command: Seq<char>, work: Work)
    requires
        0 <= counter(m, work) <= usize::MAX,
    ensures
        counter(tool_classification::with_command(m, command), work) == capped(
            counter(m, work) + command_adds(command, work),
        ),
        tool_classification::with_command(m, command).reads == m.reads,
        tool_classification::with_command(m, command).mcp == m.mcp,
        tool_classification::with_command(m, command).dynamic == m.dynamic,
{
    law_commands_are_what_they_spell(command);
}

proof fn lemma_parsed_counts(m: SummaryModel, parsed: Seq<ParsedCommand>, work: Work)
    requires
        0 <= counter(m, work) <= usize::MAX,
    ensures
        0 <= all_parsed_add(parsed, work),
        counter(tool_classification::with_all_parsed(m, parsed), work) == capped(
            counter(m, work) + all_parsed_add(parsed, work),
        ),
    decreases parsed.len(),
{
    if parsed.len() > 0 {
        lemma_parsed_counts(m, parsed.drop_last(), work);
        let before = tool_classification::with_all_parsed(m, parsed.drop_last());
        if let ParsedCommand::Unknown { cmd } = parsed.last() {
            law_command_counts_as_its_kind(before, cmd@, work);
        }
    }
}

proof fn lemma_calls_count(calls: Seq<ExecCall>, work: Work)
    ensures
        0 <= calls_add(calls, work),
        tool_classification::with_calls(calls) matches Some(m) ==> counter(m, work) == capped(
            calls_add(calls, work),
        ),
    decreases calls.len(),
{
    if calls.len() > 0 {
        lemma_calls_count(calls.drop_last(), work);
        let call = calls.last();
        let command = text::joined(text::views(call.command@), " "@);
        lemma_parsed_counts(compact_tool_group_item::empty_summary(), call.parsed@, work);
        if let Some(m) = tool_classification::with_calls(calls.drop_last()) {
            law_command_counts_as_its_kind(m, command, work);
            lemma_parsed_counts(m, call.parsed@, work);
        }
    }
}

/// What a cell contributes to a counter is the number of its calls of that kind.
pub proof fn law_cell_counts_its_calls(cell: Arc<HistoryCell>, work: Work)
    ensures
        0 <= cell_adds(*cell, work),
        tool_classification::cell_item(*cell) matches Some(item) ==> counter(item, work) == capped(
            cell_adds(*cell, work),
        ),
{
    match &cell.kind {
        CellKind::Exec(exec) => {
            lemma_calls_count(exec.calls@, work);
        },
        _ => {},
    }
}

/// In the summary of a stretch of work each counter is the number of its calls of that very kind,
/// added up over the cells that are folded.
pub proof fn law_stretch_counts_its_calls(cells: Seq<Arc<HistoryCell>>, work: Work)
    ensures
        0 <= cells_add(cells, work),
        counter(compact_tool_groups::summary_of(cells), work) == capped(cells_add(cells, work)),
    decreases cells.len(),
{
    if cells.len() > 0 {
        law_stretch_counts_its_calls(cells.drop_last(), work);
        law_cell_counts_its_calls(cells.last(), work);
    }
}

/// Merging two summaries adds their counters up.
pub proof fn law_merging_adds_up(a: SummaryModel, b: SummaryModel, work: Work)
    requires
        0 <= counter(a, work) <= usize::MAX,
        0 <= counter(b, work) <= usize::MAX,
    ensures
        counter(compact_tool_group_item::merged(a, b), work) == capped(
            counter(a, work) + counter(b, work),
        ),
{
}

proof fn lemma_labels(labels: Seq<Seq<char>>, more: Seq<Seq<char>>, label: Seq<char>)
    ensures
        compact_tool_group_item::with_labels(labels, more).contains(label) <==> labels.contains(
            label,
        ) || more.contains(label),
    decreases more.len(),
{
    if more.len() > 0 {
        let shorter = more.drop_last();
        lemma_labels(labels, shorter, label);
        let before = compact_tool_group_item::with_labels(labels, shorter);
        let after = compact_tool_group_item::with_labels(labels, more);
        assert(more.contains(label) <==> shorter.contains(label) || more.last() == label) by {
            if more.contains(label) {
                let k = choose|k: int| 0 <= k < more.len() && more[k] == label;
                if k < shorter.len() {
                    assert(shorter[k] == label);
                }
            }
            if shorter.contains(label) {
                let k = choose|k: int| 0 <= k < shorter.len() && shorter[k] == label;
                assert(more[k] == label);
            }
            assert(more[more.len() - 1] == more.last());
        }
        if !before.contains(more.last()) {
            assert(after[after.len() - 1] == more.last());
            if before.contains(label) {
                let k = choose|k: int| 0 <= k < before.len() && before[k] == label;
                assert(after[k] == label);
            }
            if after.contains(label) {
                let k = choose|k: int| 0 <= k < after.len() && after[k] == label;
                if k < before.len() {
                    assert(before[k] == label);
                }
            }
        }
    }
}

/// A merged summary names the files that one of the two names, and no others.
pub proof fn law_merging_keeps_every_file(a: SummaryModel, b: SummaryModel, label: Seq<char>)
    ensures
        compact_tool_group_item::merged(a, b).reads.contains(label) <==> a.reads.contains(label)
            || b.reads.contains(label),
{
    lemma_labels(a.reads, b.reads, label);
}

/// A file that is read is named in the summary, by its given name unless that is blank; the files
/// that were named before stay, and no other is added.
pub proof fn law_read_file_is_named(
    m: SummaryModel,
    cmd: String,
    name: String,
    path: String,
    label: Seq<char>,
)
    ensures
        ({
            let after = tool_classification::with_parsed(
                m,
                ParsedCommand::Read { cmd, name, path },
            );
            let named = tool_classification::label_of_read(name@, path@);
            &&& after.reads.contains(named)
            &&& after.reads.contains(label) <==> m.reads.contains(label) || label == named
            &&& text::trimmed(name@).len() > 0 ==> named == name@
            &&& text::trimmed(name@).len() == 0 ==> (
            output_scan::path_file_name(path@) matches Some(file) ==> named == file)
            &&& text::trimmed(name@).len() == 0 && output_scan::path_file_name(path@) is None
                ==> named == path@
        }),
{
    let named = tool_classification::label_of_read(name@, path@);
    lemma_labels(m.reads, seq![named], named);
    lemma_labels(m.reads, seq![named], label);
    assert(seq![named].drop_last() =~= Seq::empty());
    assert(compact_tool_group_item::with_labels(m.reads, Seq::empty()) == m.reads);
    assert(compact_tool_group_item::with_labels(m.reads, seq![named])
        == compact_tool_group_item::with_label(m.reads, named));
    assert(seq![named][0] == named);
    if seq![named].contains(label) {
        assert(label == named);
    }
}

/// How often a tool was called, over all entries of its name.
pub open spec fn calls_of(counts: Seq<(Seq<char>, int)>, label: Seq<char>) -> int
    decreases counts.len(),
{
    if counts.len() == 0 {
        0
    } else {
        calls_of(counts.drop_last(), label) + (if counts.last().0 == label {
            counts.last().1
        } else {
            0
        })
    }
}

/// All calls of a list of counts.
pub open spec fn all_calls(counts: Seq<(Seq<char>, int)>) -> int
    decreases counts.len(),
{
    if counts.len() == 0 {
        0
    } else {
        all_calls(counts.drop_last()) + counts.last().1
    }
}

proof fn lemma_index(counts: Seq<(Seq<char>, int)>, label: Seq<char>)
    ensures
        0 <= compact_tool_group_item::label_index(counts, label) <= counts.len(),
        compact_tool_group_item::label_index(counts, label) < counts.len()
            ==> counts[compact_tool_group_item::label_index(counts, label)].0 == label,
    decreases counts.len(),
{
    if counts.len() > 0 && counts[0].0 != label {
        lemma_index(counts.skip(1), label);
    }
}

proof fn lemma_update(counts: Seq<(Seq<char>, int)>, i: int, n: int, other: Seq<char>)
    requires
        0 <= i < counts.len(),
    ensures
        calls_of(counts.update(i, (counts[i].0, counts[i].1 + n)), other) == calls_of(
            counts,
            other,
        ) + (if counts[i].0 == other {
            n
        } else {
            0
        }),
        all_calls(counts.update(i, (counts[i].0, counts[i].1 + n))) == all_calls(counts) + n,
    decreases counts.len(),
{
    let after = counts.update(i, (counts[i].0, counts[i].1 + n));
    if i == counts.len() - 1 {
        assert(after.drop_last() =~= counts.drop_last());
    } else {
        lemma_update(counts.drop_last(), i, n, other);
        assert(after.drop_last() =~= counts.drop_last().update(
            i,
            (counts[i].0, counts[i].1 + n),
        ));
    }
}

/// Counting calls of a tool adds to that tool and to no other, as long as the counters reach.
pub proof fn law_tool_calls_add_up(
    counts: Seq<(Seq<char>, int)>,
    label: Seq<char>,
    n: int,
    other: Seq<char>,
)
    requires
        0 <= n,
        forall|i: int|
            0 <= i < counts.len() ==> 0 <= (#[trigger] counts[i]).1 && counts[i].1 + n
                <= usize::MAX,
    ensures
        calls_of(compact_tool_group_item::with_count(counts, label, n), other) == calls_of(
            counts,
            other,
        ) + (if label == other {
            n
        } else {
            0
        }),
        all_calls(compact_tool_group_item::with_count(counts, label, n)) == all_calls(counts) + n,
{
    lemma_index(counts, label);
    let i = compact_tool_group_item::label_index(counts, label);
    let after = compact_tool_group_item::with_count(counts, label, n);
    if i < counts.len() {
        let old = counts[i];
        lemma_update(counts, i, n, other);
        assert(after =~= counts.update(i, (counts[i].0, counts[i].1 + n)));
    } else {
        assert(after.drop_last() =~= counts);
    }
}

/// A call of a tool server that ended well and may be folded is named by server and tool, and
/// counts once; one that failed, that still runs or that has to stay visible is not folded.
pub proof fn law_tool_calls_are_named(cell: HistoryCell)
    ensures
        cell.kind matches CellKind::Mcp(mcp) ==> {
            &&& tool_classification::cell_item(cell) is Some <==> mcp.completed == Some(true)
                && mcp.safe_to_compact
            &&& tool_classification::cell_item(cell) matches Some(item) ==> item.mcp == seq![
                (mcp.server@ + "."@ + mcp.tool@, 1int),
            ] && item.dynamic.len() == 0 && item.reads.len() == 0
        },
        cell.kind matches CellKind::Dynamic(tool) ==> (tool_classification::cell_item(
            cell,
        ) matches Some(item) ==> item.dynamic == seq![(tool.label_text(), 1int)] && item.mcp.len()
            == 0 && item.reads.len() == 0),
        cell.kind matches CellKind::Patch(patch) ==> (tool_classification::cell_item(cell) is Some
            <==> patch.changed_file_count > 0),
        cell.kind matches CellKind::Web(web) ==> (tool_classification::cell_item(cell) is Some
            <==> web.completed_action is Some),
{
}

/// A counter as it is shown: not at all for nothing, by one phrase for one, and with its number
/// otherwise.
pub open spec fn says(
    parts: Seq<Seq<char>>,
    at: int,
    count: int,
    one: Seq<char>,
    many: Seq<char>,
) -> bool {
    &&& count == 1 ==> 0 <= at < parts.len() && parts[at] == one
    &&& count > 1 ==> 0 <= at < parts.len() && parts[at] == text::decimal(count as nat) + " "@
        + many
}

/// The parts of a summary stand in one order, each there exactly where its counter is not zero and
/// saying that number: files read, directories listed, searches, files edited, tests, builds,
/// checks, installations, commands, the web, and tools.
#[verifier::rlimit(60)]
pub proof fn law_parts_say_their_counters(m: SummaryModel)
    requires
        m.lists >= 0 && m.searches >= 0 && m.edited_files >= 0 && m.tests >= 0 && m.builds >= 0
            && m.checks >= 0 && m.installs >= 0 && m.runs >= 0 && m.web_searches >= 0
            && m.web_opens >= 0 && m.web_finds >= 0,
    ensures
        ({
            let parts = compact_tool_group_item::summary_parts(m);
            let lists = one_if(m.reads.len() > 0);
            let searches = lists + one_if(m.lists > 0);
            let edits = searches + one_if(m.searches > 0);
            let tests = edits + one_if(m.edited_files > 0);
            let builds = tests + one_if(m.tests > 0);
            let checks = builds + one_if(m.builds > 0);
            let installs = checks + one_if(m.checks > 0);
            let runs = installs + one_if(m.installs > 0);
            let web_searches = runs + one_if(m.runs > 0);
            let web_opens = web_searches + one_if(m.web_searches > 0);
            let web_finds = web_opens + one_if(m.web_opens > 0);
            let mcp = web_finds + one_if(m.web_finds > 0);
            let dynamic = mcp + one_if(m.mcp.len() > 0);
            &&& parts.len() == dynamic + one_if(m.dynamic.len() > 0)
            &&& m.reads.len() == 1 ==> parts[0] == "read "@
                + compact_tool_group_item::truncated_label(m.reads[0])
            &&& m.reads.len() > 1 ==> parts[0] == "read "@ + text::decimal(m.reads.len())
                + " files"@
            &&& says(parts, lists, m.lists, "listed dir"@, "listed dirs"@)
            &&& says(parts, searches, m.searches, "searched"@, "searched"@)
            &&& says(parts, edits, m.edited_files, "edited 1 file"@, "files edited"@)
            &&& says(parts, tests, m.tests, "tests passed"@, "test runs passed"@)
            &&& says(parts, builds, m.builds, "build passed"@, "builds passed"@)
            &&& says(parts, checks, m.checks, "check passed"@, "checks passed"@)
            &&& says(parts, installs, m.installs, "installed deps"@, "installed deps"@)
            &&& says(parts, runs, m.runs, "ran command"@, "ran commands"@)
            &&& says(parts, web_searches, m.web_searches, "searched web"@, "web searches"@)
            &&& says(parts, web_opens, m.web_opens, "opened web page"@, "web pages opened"@)
            &&& says(parts, web_finds, m.web_finds, "found on page"@, "in-page finds"@)
            &&& m.mcp.len() > 0 ==> calls_said(parts[mcp], m.mcp, "MCP tools"@)
            &&& m.dynamic.len() > 0 ==> calls_said(parts[dynamic], m.dynamic, "tools"@)
        }),
{
    let p0 = if m.reads.len() > 0 {
        seq![compact_tool_group_item::read_text(m.reads)]
    } else {
        Seq::empty()
    };
    let p1 = lemma_said(p0, m.lists, "listed dir"@, "listed dirs"@);
    let p2 = lemma_said(p1, m.searches, "searched"@, "searched"@);
    let p3 = lemma_said(p2, m.edited_files, "edited 1 file"@, "files edited"@);
    let p4 = lemma_said(p3, m.tests, "tests passed"@, "test runs passed"@);
    let p5 = lemma_said(p4, m.builds, "build passed"@, "builds passed"@);
    let p6 = lemma_said(p5, m.checks, "check passed"@, "checks passed"@);
    let p7 = lemma_said(p6, m.installs, "installed deps"@, "installed deps"@);
    let p8 = lemma_said(p7, m.runs, "ran command"@, "ran commands"@);
    let p9 = lemma_said(p8, m.web_searches, "searched web"@, "web searches"@);
    let p10 = lemma_said(p9, m.web_opens, "opened web page"@, "web pages opened"@);
    let p11 = lemma_said(p10, m.web_finds, "found on page"@, "in-page finds"@);
    let p12 = lemma_called(p11, m.mcp, "MCP tools"@);
    let p13 = lemma_called(p12, m.dynamic, "tools"@);
    assert(p13 == compact_tool_group_item::summary_parts(m));
    lemma_kept(p0, p1, p2, p3, p4, p5);
    lemma_kept(p5, p6, p7, p8, p9, p10);
    lemma_kept(p10, p11, p12, p13, p13, p13);
    assert(starts(p1, p5) && starts(p5, p10) && starts(p10, p13));
}

/// Whether a list starts with another one.
spec fn starts(a: Seq<Seq<char>>, b: Seq<Seq<char>>) -> bool {
    &&& a.len() <= b.len()
    &&& forall|k: int| 0 <= k < a.len() ==> #[trigger] b[k] == a[k]
}

proof fn lemma_kept(
    a: Seq<Seq<char>>,
    b: Seq<Seq<char>>,
    c: Seq<Seq<char>>,
    d: Seq<Seq<char>>,
    e: Seq<Seq<char>>,
    f: Seq<Seq<char>>,
)
    requires
        starts(a, b),
        starts(b, c),
        starts(c, d),
        starts(d, e),
        starts(e, f),
    ensures
        starts(a, f),
        starts(b, f),
        starts(c, f),
        starts(d, f),
{
}

proof fn lemma_said(before: Seq<Seq<char>>, count: int, one: Seq<char>, many: Seq<char>) -> (after: Seq<
    Seq<char>,
>)
    requires
        count >= 0,
    ensures
        after == before + compact_tool_group_item::count_part(count, one, many),
        after.len() == before.len() + one_if(count > 0),
        says(after, before.len() as int, count, one, many),
        starts(before, after),
{
    before + compact_tool_group_item::count_part(count, one, many)
}

proof fn lemma_total(counts: Seq<(Seq<char>, int)>)
    requires
        forall|i: int| 0 <= i < counts.len() ==> 0 <= (#[trigger] counts[i]).1,
    ensures
        0 <= all_calls(counts),
        compact_tool_group_item::total(counts) == capped(all_calls(counts)),
    decreases counts.len(),
{
    if counts.len() > 0 {
        lemma_total(counts.drop_last());
        let last = counts[counts.len() - 1];
    }
}

proof fn lemma_called(before: Seq<Seq<char>>, counts: Seq<(Seq<char>, int)>, kind: Seq<char>) -> (after: Seq<
    Seq<char>,
>)
    ensures
        after == before + (if counts.len() > 0 {
            seq![compact_tool_group_item::calls_text(counts, kind)]
        } else {
            Seq::empty()
        }),
        after.len() == before.len() + one_if(counts.len() > 0),
        counts.len() > 0 ==> calls_said(after[before.len() as int], counts, kind),
        starts(before, after),
{
    if forall|i: int| 0 <= i < counts.len() ==> 0 <= (#[trigger] counts[i]).1 {
        lemma_total(counts);
    }
    before + (if counts.len() > 0 {
        seq![compact_tool_group_item::calls_text(counts, kind)]
    } else {
        Seq::empty()
    })
}

/// How the calls of named tools are said: by the name of the tool where there is one, with the
/// number of calls where there are several, and by the number of all calls where there are several
/// tools.
pub open spec fn calls_said(part: Seq<char>, counts: Seq<(Seq<char>, int)>, kind: Seq<char>) -> bool {
    &&& counts.len() == 1 && counts[0].1 == 1 ==> part == "called "@ + counts[0].0
    &&& counts.len() == 1 && counts[0].1 != 1 ==> part == "called "@ + counts[0].0 + " x"@
        + text::decimal(counts[0].1 as nat)
    &&& counts.len() > 1 && all_calls(counts) <= usize::MAX && (forall|i: int|
        0 <= i < counts.len() ==> 0 <= (#[trigger] counts[i]).1) ==> part == "called "@
        + text::decimal(all_calls(counts) as nat) + " "@ + kind
}

/// A long label keeps its first characters and shows that it was cut; a short one is kept whole.
pub proof fn law_labels_are_cut_behind(label: Seq<char>)
    ensures
        label.len() <= 32 ==> compact_tool_group_item::truncated_label(label) == label,
        label.len() > 32 ==> {
            let cut = compact_tool_group_item::truncated_label(label);
            &&& cut.len() == 33
            &&& cut.take(32) == label.take(32)
            &&& cut[32] == '…'
        },
{
    if label.len() > 32 {
        assert(compact_tool_group_item::truncated_label(label).take(32) =~= label.take(32));
    }
}

/// A Work row says all that there is room for: the whole detail where that fits, else the number of
/// actions where that fits, else only that there is work. It shows whether the group is unfolded.
pub proof fn law_row_says_what_fits(detail: Seq<char>, actions: nat, expanded: bool, width: u16)
    requires
        width > 0,
    ensures
        ({
            let head = (if expanded {
                "▾ "@
            } else {
                "▸ "@
            }) + "Work"@;
            let full = head + ": "@ + detail;
            let medium = head + ": "@ + text::decimal(actions) + " actions"@;
            let row = compact_tool_groups::shown_row(detail, actions, expanded, width);
            &&& compact_tool_groups::text_columns(full) <= width ==> row == full
            &&& compact_tool_groups::text_columns(full) > width
                && compact_tool_groups::text_columns(medium) <= width ==> row == medium
            &&& compact_tool_groups::text_columns(full) > width
                && compact_tool_groups::text_columns(medium) > width
                && compact_tool_groups::text_columns(head) <= width ==> row == head
        }),
{
}

/// A group says what its cells did: its detail is made of the parts of their summary, and it
/// counts their actions.
pub proof fn law_group_says_what_its_cells_did(cells: Seq<Arc<HistoryCell>>, start: int)
    requires
        compact_tool_groups::group_at(cells, start) is Some,
    ensures
        ({
            let g = compact_tool_groups::group_at(cells, start)->0;
            let stretch = cells.subrange(g.start, g.start + g.sources);
            let summary = compact_tool_groups::summary_of(stretch);
            &&& g.start == start
            &&& g.detail == text::joined(
                compact_tool_group_item::summary_parts(summary),
                " · "@,
            )
            &&& g.actions == capped(cells_add(stretch, Work::Actions))
        }),
{
    reveal(compact_tool_groups::group_at);
    let g = compact_tool_groups::group_at(cells, start)->0;
    law_stretch_counts_its_calls(
        cells.subrange(g.start, g.start + g.sources),
        Work::Actions,
    );
}

} // verus!
