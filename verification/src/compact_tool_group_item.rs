//! What a Work group says about the tool calls that it folds.

use vstd::prelude::*;

use crate::text;

verus! {

/// The sum, kept within the range of a counter.
pub open spec fn capped_sum(a: int, b: int) -> int {
    if a + b <= usize::MAX {
        a + b
    } else {
        usize::MAX as int
    }
}

/// The summary as a mathematical value, its labels in the order in which they were first met.
#[verifier::ext_equal]
pub struct SummaryModel {
    pub reads: Seq<Seq<char>>,
    pub lists: int,
    pub searches: int,
    pub edited_files: int,
    pub runs: int,
    pub tests: int,
    pub builds: int,
    pub checks: int,
    pub installs: int,
    pub web_searches: int,
    pub web_opens: int,
    pub web_finds: int,
    pub mcp: Seq<(Seq<char>, int)>,
    pub dynamic: Seq<(Seq<char>, int)>,
    pub actions: int,
}

/// Whether no label is counted in two places.
pub open spec fn counted_once(counts: Seq<(Seq<char>, int)>) -> bool {
    forall|i: int, j: int|
        0 <= i < j < counts.len() ==> (#[trigger] counts[i]).0 != (#[trigger] counts[j]).0
}

impl SummaryModel {
    pub open spec fn wf(&self) -> bool {
        &&& self.reads.no_duplicates()
        &&& counted_once(self.mcp)
        &&& counted_once(self.dynamic)
    }
}

/// Counters and labels of the tool calls of one run.
pub struct ToolGroupSummary {
    pub read_labels: Vec<String>,
    pub list_count: usize,
    pub search_count: usize,
    pub edit_file_count: usize,
    pub run_count: usize,
    pub test_count: usize,
    pub build_count: usize,
    pub check_count: usize,
    pub install_count: usize,
    pub web_search_count: usize,
    pub web_open_count: usize,
    pub web_find_count: usize,
    pub mcp_counts: Vec<(String, usize)>,
    pub dynamic_tool_counts: Vec<(String, usize)>,
    pub actions: usize,
}

/// One foldable tool call.
pub struct ToolGroupItem {
    pub summary: ToolGroupSummary,
}

/// The labels with one more, unless it is there already.
pub open spec fn with_label(labels: Seq<Seq<char>>, label: Seq<char>) -> Seq<Seq<char>> {
    if labels.contains(label) {
        labels
    } else {
        labels.push(label)
    }
}

pub open spec fn with_labels(labels: Seq<Seq<char>>, more: Seq<Seq<char>>) -> Seq<Seq<char>>
    decreases more.len(),
{
    if more.len() == 0 {
        labels
    } else {
        with_label(with_labels(labels, more.drop_last()), more.last())
    }
}

/// The first position of a label in a list of counts, or the length of the list.
pub open spec fn label_index(counts: Seq<(Seq<char>, int)>, label: Seq<char>) -> int
    decreases counts.len(),
{
    if counts.len() == 0 || counts[0].0 == label {
        0
    } else {
        1 + label_index(counts.skip(1), label)
    }
}

/// The counts with `n` more for one label.
pub open spec fn with_count(counts: Seq<(Seq<char>, int)>, label: Seq<char>, n: int) -> Seq<
    (Seq<char>, int),
> {
    let i = label_index(counts, label);
    if 0 <= i < counts.len() {
        counts.update(i, (label, capped_sum(counts[i].1, n)))
    } else {
        counts.push((label, n))
    }
}

pub open spec fn with_counts(
    counts: Seq<(Seq<char>, int)>,
    more: Seq<(Seq<char>, int)>,
) -> Seq<(Seq<char>, int)>
    decreases more.len(),
{
    if more.len() == 0 {
        counts
    } else {
        with_count(with_counts(counts, more.drop_last()), more.last().0, more.last().1)
    }
}

pub open spec fn counts_model(v: Seq<(String, usize)>) -> Seq<(Seq<char>, int)> {
    Seq::new(v.len(), |i: int| (v[i].0@, v[i].1 as int))
}

pub open spec fn total(counts: Seq<(Seq<char>, int)>) -> int
    decreases counts.len(),
{
    if counts.len() == 0 {
        0
    } else {
        capped_sum(total(counts.drop_last()), counts.last().1)
    }
}

pub open spec fn empty_summary() -> SummaryModel {
    SummaryModel {
        reads: Seq::empty(),
        lists: 0,
        searches: 0,
        edited_files: 0,
        runs: 0,
        tests: 0,
        builds: 0,
        checks: 0,
        installs: 0,
        web_searches: 0,
        web_opens: 0,
        web_finds: 0,
        mcp: Seq::empty(),
        dynamic: Seq::empty(),
        actions: 0,
    }
}

/// The summary of two stretches of work.
pub open spec fn merged(a: SummaryModel, b: SummaryModel) -> SummaryModel {
    SummaryModel {
        reads: with_labels(a.reads, b.reads),
        lists: capped_sum(a.lists, b.lists),
        searches: capped_sum(a.searches, b.searches),
        edited_files: capped_sum(a.edited_files, b.edited_files),
        runs: capped_sum(a.runs, b.runs),
        tests: capped_sum(a.tests, b.tests),
        builds: capped_sum(a.builds, b.builds),
        checks: capped_sum(a.checks, b.checks),
        installs: capped_sum(a.installs, b.installs),
        web_searches: capped_sum(a.web_searches, b.web_searches),
        web_opens: capped_sum(a.web_opens, b.web_opens),
        web_finds: capped_sum(a.web_finds, b.web_finds),
        mcp: with_counts(a.mcp, b.mcp),
        dynamic: with_counts(a.dynamic, b.dynamic),
        actions: capped_sum(a.actions, b.actions),
    }
}

pub proof fn lemma_with_label_distinct(labels: Seq<Seq<char>>, label: Seq<char>)
    requires
        labels.no_duplicates(),
    ensures
        with_label(labels, label).no_duplicates(),
{
    if !labels.contains(label) {
        let more = labels.push(label);
        assert forall|i: int, j: int| 0 <= i < more.len() && 0 <= j < more.len() && i != j implies
            more[i] != more[j] by {
            if i < labels.len() {
                assert(labels.contains(labels[i]));
            }
            if j < labels.len() {
                assert(labels.contains(labels[j]));
            }
        }
    }
}

proof fn lemma_with_labels_distinct(labels: Seq<Seq<char>>, more: Seq<Seq<char>>)
    requires
        labels.no_duplicates(),
    ensures
        with_labels(labels, more).no_duplicates(),
    decreases more.len(),
{
    if more.len() > 0 {
        lemma_with_labels_distinct(labels, more.drop_last());
        lemma_with_label_distinct(with_labels(labels, more.drop_last()), more.last());
    }
}

proof fn lemma_label_place(counts: Seq<(Seq<char>, int)>, label: Seq<char>)
    ensures
        0 <= label_index(counts, label) <= counts.len(),
        label_index(counts, label) < counts.len() ==> counts[label_index(counts, label)].0 == label,
        label_index(counts, label) == counts.len() ==> forall|i: int|
            0 <= i < counts.len() ==> (#[trigger] counts[i]).0 != label,
    decreases counts.len(),
{
    if counts.len() > 0 && counts[0].0 != label {
        let rest = counts.skip(1);
        lemma_label_place(rest, label);
        assert forall|i: int|
            label_index(counts, label) == counts.len() && 0 <= i < counts.len() implies (
        #[trigger] counts[i]).0 != label by {
            if i > 0 {
                assert(rest[i - 1] == counts[i]);
            }
        }
    }
}

proof fn lemma_with_counts_once(counts: Seq<(Seq<char>, int)>, more: Seq<(Seq<char>, int)>)
    requires
        counted_once(counts),
    ensures
        counted_once(with_counts(counts, more)),
    decreases more.len(),
{
    if more.len() > 0 {
        lemma_with_counts_once(counts, more.drop_last());
        lemma_label_place(with_counts(counts, more.drop_last()), more.last().0);
    }
}

/// A merge lists no label twice where the summary that it starts from lists none twice.
pub proof fn lemma_merged_wf(a: SummaryModel, b: SummaryModel)
    requires
        a.wf(),
    ensures
        merged(a, b).wf(),
{
    lemma_with_labels_distinct(a.reads, b.reads);
    lemma_with_counts_once(a.mcp, b.mcp);
    lemma_with_counts_once(a.dynamic, b.dynamic);
}

/// Longest label, in characters, that a summary shows in full.
pub const MAX_LABEL_CHARS: usize = 32;

pub open spec fn truncated_label(label: Seq<char>) -> Seq<char> {
    if label.len() <= MAX_LABEL_CHARS {
        label
    } else {
        label.take(MAX_LABEL_CHARS as int).push('…')
    }
}

pub fn truncate_label(label: &str) -> (r: String)
    ensures
        r@ == truncated_label(label@),
{
    let chars = text::chars_of(label);
    if chars.len() <= MAX_LABEL_CHARS {
        return text::string_of(chars.as_slice());
    }
    let head = vstd::slice::slice_subrange(chars.as_slice(), 0, MAX_LABEL_CHARS);
    let mut out = text::string_of(head);
    out.push('…');
    proof {
        assert(head@ =~= label@.take(MAX_LABEL_CHARS as int));
    }
    out
}

pub open spec fn read_text(labels: Seq<Seq<char>>) -> Seq<char> {
    if labels.len() == 0 {
        Seq::empty()
    } else if labels.len() == 1 {
        "read "@ + truncated_label(labels[0])
    } else {
        "read "@ + text::decimal(labels.len()) + " files"@
    }
}

pub fn read_summary(labels: &Vec<String>) -> (r: String)
    ensures
        r@ == read_text(text::views(labels@)),
{
    let mut out = String::new();
    if labels.len() == 0 {
        return out;
    }
    out.append("read ");
    proof {
        assert(out@ =~= "read "@);
    }
    if labels.len() == 1 {
        out.append(truncate_label(labels[0].as_str()).as_str());
    } else {
        out.append(text::decimal_string(labels.len() as u64).as_str());
        out.append(" files");
    }
    out
}

/// How the calls of named tools are described; `kind` names the tools when there are several.
pub open spec fn calls_text(counts: Seq<(Seq<char>, int)>, kind: Seq<char>) -> Seq<char> {
    if counts.len() == 1 {
        if counts[0].1 == 1 {
            "called "@ + counts[0].0
        } else {
            "called "@ + counts[0].0 + " x"@ + text::decimal(counts[0].1 as nat)
        }
    } else {
        "called "@ + text::decimal(total(counts) as nat) + " "@ + kind
    }
}

fn sum_counts(counts: &Vec<(String, usize)>) -> (r: usize)
    ensures
        r == total(counts_model(counts@)),
{
    let ghost model = counts_model(counts@);
    let mut sum: usize = 0;
    let mut i: usize = 0;
    while i < counts.len()
        invariant
            i <= counts@.len(),
            model == counts_model(counts@),
            sum == total(model.take(i as int)),
        decreases counts@.len() - i,
    {
        proof {
            assert(model.take(i + 1).drop_last() =~= model.take(i as int));
        }
        sum = sum.saturating_add(counts[i].1);
        i += 1;
    }
    proof {
        assert(model.take(counts@.len() as int) =~= model);
    }
    sum
}

fn calls_summary(counts: &Vec<(String, usize)>, kind: &str) -> (r: String)
    ensures
        r@ == calls_text(counts_model(counts@), kind@),
{
    let mut out = String::new();
    out.append("called ");
    proof {
        assert(out@ =~= "called "@);
    }
    if counts.len() == 1 {
        out.append(counts[0].0.as_str());
        if counts[0].1 != 1 {
            out.append(" x");
            out.append(text::decimal_string(counts[0].1 as u64).as_str());
        }
    } else {
        out.append(text::decimal_string(sum_counts(counts) as u64).as_str());
        out.append(" ");
        out.append(kind);
    }
    out
}

pub fn mcp_summary(counts: &Vec<(String, usize)>) -> (r: String)
    ensures
        r@ == calls_text(counts_model(counts@), "MCP tools"@),
{
    calls_summary(counts, "MCP tools")
}

pub fn dynamic_tool_summary(counts: &Vec<(String, usize)>) -> (r: String)
    ensures
        r@ == calls_text(counts_model(counts@), "tools"@),
{
    calls_summary(counts, "tools")
}

/// A counter as part of a summary: nothing for zero, the singular alone for one, and otherwise
/// the number with the plural.
pub open spec fn count_part(count: int, singular: Seq<char>, plural: Seq<char>) -> Seq<Seq<char>> {
    if count == 0 {
        Seq::empty()
    } else if count == 1 {
        seq![singular]
    } else {
        seq![text::decimal(count as nat) + " "@ + plural]
    }
}

pub fn push_count_part(parts: &mut Vec<String>, count: usize, singular: &str, plural: &str)
    ensures
        text::views(final(parts)@) == text::views(old(parts)@) + count_part(
            count as int,
            singular@,
            plural@,
        ),
{
    let ghost before = parts@;
    if count == 1 {
        let part = text::string_of(text::chars_of(singular).as_slice());
        proof {
            text::lemma_views_push(before, part);
        }
        parts.push(part);
    } else if count > 1 {
        let mut part = text::decimal_string(count as u64);
        part.append(" ");
        part.append(plural);
        proof {
            text::lemma_views_push(before, part);
        }
        parts.push(part);
    }
    proof {
        assert(text::views(parts@) =~= text::views(before) + count_part(
            count as int,
            singular@,
            plural@,
        ));
    }
}

/// The parts of a summary, in the order in which they are shown.
pub open spec fn summary_parts(m: SummaryModel) -> Seq<Seq<char>> {
    (if m.reads.len() > 0 {
        seq![read_text(m.reads)]
    } else {
        Seq::empty()
    }) + count_part(m.lists, "listed dir"@, "listed dirs"@) + count_part(
        m.searches,
        "searched"@,
        "searched"@,
    ) + count_part(m.edited_files, "edited 1 file"@, "files edited"@) + count_part(
        m.tests,
        "tests passed"@,
        "test runs passed"@,
    ) + count_part(m.builds, "build passed"@, "builds passed"@) + count_part(
        m.checks,
        "check passed"@,
        "checks passed"@,
    ) + count_part(m.installs, "installed deps"@, "installed deps"@) + count_part(
        m.runs,
        "ran command"@,
        "ran commands"@,
    ) + count_part(m.web_searches, "searched web"@, "web searches"@) + count_part(
        m.web_opens,
        "opened web page"@,
        "web pages opened"@,
    ) + count_part(m.web_finds, "found on page"@, "in-page finds"@) + (if m.mcp.len() > 0 {
        seq![calls_text(m.mcp, "MCP tools"@)]
    } else {
        Seq::empty()
    }) + (if m.dynamic.len() > 0 {
        seq![calls_text(m.dynamic, "tools"@)]
    } else {
        Seq::empty()
    })
}

/// Adds a label to a list of distinct labels.
pub fn insert_label(labels: &mut Vec<String>, label: String)
    ensures
        text::views(final(labels)@) == with_label(text::views(old(labels)@), label@),
{
    if !text::holds_text(labels, label.as_str()) {
        proof {
            text::lemma_views_push(labels@, label);
        }
        labels.push(label);
    }
}

proof fn lemma_label_index(counts: Seq<(Seq<char>, int)>, label: Seq<char>, i: int)
    requires
        0 <= i <= counts.len(),
        forall|j: int| 0 <= j < i ==> (#[trigger] counts[j]).0 != label,
        i < counts.len() ==> counts[i].0 == label,
    ensures
        label_index(counts, label) == i,
    decreases counts.len(),
{
    if i > 0 {
        let rest = counts.skip(1);
        assert(counts[0].0 != label);
        assert forall|j: int| 0 <= j < i - 1 implies (#[trigger] rest[j]).0 != label by {
            assert(counts[j + 1].0 != label);
        }
        lemma_label_index(rest, label, i - 1);
    }
}

fn add_count(counts: &mut Vec<(String, usize)>, label: &str, n: usize)
    ensures
        counts_model(final(counts)@) == with_count(counts_model(old(counts)@), label@, n as int),
{
    let ghost model = counts_model(counts@);
    let mut i: usize = 0;
    while i < counts.len()
        invariant
            i <= counts@.len(),
            model == counts_model(counts@),
            counts@ == old(counts)@,
            forall|j: int| 0 <= j < i ==> (#[trigger] model[j]).0 != label@,
        decreases counts@.len() - i,
    {
        if text::text_is(counts[i].0.as_str(), label) {
            proof {
                lemma_label_index(model, label@, i as int);
            }
            let sum: usize = counts[i].1.saturating_add(n);
            let name = text::string_of(text::chars_of(label).as_slice());
            counts.set(i, (name, sum));
            proof {
                assert(counts_model(counts@) =~= with_count(model, label@, n as int));
            }
            return;
        }
        i += 1;
    }
    proof {
        lemma_label_index(model, label@, i as int);
    }
    counts.push((text::string_of(text::chars_of(label).as_slice()), n));
    proof {
        assert(counts_model(counts@) =~= with_count(model, label@, n as int));
    }
}

fn add_counts(counts: &mut Vec<(String, usize)>, more: &Vec<(String, usize)>)
    ensures
        counts_model(final(counts)@) == with_counts(
            counts_model(old(counts)@),
            counts_model(more@),
        ),
{
    let ghost extra = counts_model(more@);
    let mut i: usize = 0;
    while i < more.len()
        invariant
            i <= more@.len(),
            extra == counts_model(more@),
            counts_model(counts@) == with_counts(
                counts_model(old(counts)@),
                extra.take(i as int),
            ),
        decreases more@.len() - i,
    {
        proof {
            assert(extra.take(i + 1).drop_last() =~= extra.take(i as int));
        }
        add_count(counts, more[i].0.as_str(), more[i].1);
        i += 1;
    }
    proof {
        assert(extra.take(more@.len() as int) =~= extra);
    }
}

fn add_labels(labels: &mut Vec<String>, more: &Vec<String>)
    ensures
        text::views(final(labels)@) == with_labels(text::views(old(labels)@), text::views(more@)),
{
    let ghost extra = text::views(more@);
    let mut i: usize = 0;
    while i < more.len()
        invariant
            i <= more@.len(),
            extra == text::views(more@),
            text::views(labels@) == with_labels(text::views(old(labels)@), extra.take(i as int)),
        decreases more@.len() - i,
    {
        proof {
            assert(extra.take(i + 1).drop_last() =~= extra.take(i as int));
        }
        insert_label(labels, more[i].clone());
        i += 1;
    }
    proof {
        assert(extra.take(more@.len() as int) =~= extra);
    }
}

impl Default for ToolGroupSummary {
    fn default() -> (r: Self)
        ensures
            r.model() == empty_summary(),
            r.wf(),
    {
        let r = ToolGroupSummary {
            read_labels: Vec::new(),
            list_count: 0,
            search_count: 0,
            edit_file_count: 0,
            run_count: 0,
            test_count: 0,
            build_count: 0,
            check_count: 0,
            install_count: 0,
            web_search_count: 0,
            web_open_count: 0,
            web_find_count: 0,
            mcp_counts: Vec::new(),
            dynamic_tool_counts: Vec::new(),
            actions: 0,
        };
        proof {
            assert(r.model() =~= empty_summary());
        }
        r
    }
}

impl ToolGroupSummary {
    pub open spec fn model(&self) -> SummaryModel {
        SummaryModel {
            reads: text::views(self.read_labels@),
            lists: self.list_count as int,
            searches: self.search_count as int,
            edited_files: self.edit_file_count as int,
            runs: self.run_count as int,
            tests: self.test_count as int,
            builds: self.build_count as int,
            checks: self.check_count as int,
            installs: self.install_count as int,
            web_searches: self.web_search_count as int,
            web_opens: self.web_open_count as int,
            web_finds: self.web_find_count as int,
            mcp: counts_model(self.mcp_counts@),
            dynamic: counts_model(self.dynamic_tool_counts@),
            actions: self.actions as int,
        }
    }

    /// No label is listed twice.
    pub open spec fn wf(&self) -> bool {
        self.model().wf()
    }

    pub fn merge(&mut self, other: &ToolGroupSummary)
        ensures
            final(self).model() == merged(old(self).model(), other.model()),
            old(self).wf() ==> final(self).wf(),
    {
        proof {
            if self.wf() {
                lemma_merged_wf(self.model(), other.model());
            }
        }
        add_labels(&mut self.read_labels, &other.read_labels);
        self.list_count = self.list_count.saturating_add(other.list_count);
        self.search_count = self.search_count.saturating_add(other.search_count);
        self.edit_file_count = self.edit_file_count.saturating_add(other.edit_file_count);
        self.run_count = self.run_count.saturating_add(other.run_count);
        self.test_count = self.test_count.saturating_add(other.test_count);
        self.build_count = self.build_count.saturating_add(other.build_count);
        self.check_count = self.check_count.saturating_add(other.check_count);
        self.install_count = self.install_count.saturating_add(other.install_count);
        self.web_search_count = self.web_search_count.saturating_add(other.web_search_count);
        self.web_open_count = self.web_open_count.saturating_add(other.web_open_count);
        self.web_find_count = self.web_find_count.saturating_add(other.web_find_count);
        add_counts(&mut self.mcp_counts, &other.mcp_counts);
        add_counts(&mut self.dynamic_tool_counts, &other.dynamic_tool_counts);
        self.actions = self.actions.saturating_add(other.actions);
    }

    pub fn parts(&self) -> (r: Vec<String>)
        ensures
            text::views(r@) == summary_parts(self.model()),
    {
        let mut parts: Vec<String> = Vec::new();
        let ghost none = text::views(parts@);
        if self.read_labels.len() > 0 {
            let part = read_summary(&self.read_labels);
            proof {
                text::lemma_views_push(parts@, part);
            }
            parts.push(part);
        }
        proof {
            assert(text::views(parts@) =~= (if self.model().reads.len() > 0 {
                seq![read_text(self.model().reads)]
            } else {
                Seq::empty()
            }));
        }
        push_count_part(&mut parts, self.list_count, "listed dir", "listed dirs");
        push_count_part(&mut parts, self.search_count, "searched", "searched");
        push_count_part(&mut parts, self.edit_file_count, "edited 1 file", "files edited");
        push_count_part(&mut parts, self.test_count, "tests passed", "test runs passed");
        push_count_part(&mut parts, self.build_count, "build passed", "builds passed");
        push_count_part(&mut parts, self.check_count, "check passed", "checks passed");
        push_count_part(&mut parts, self.install_count, "installed deps", "installed deps");
        push_count_part(&mut parts, self.run_count, "ran command", "ran commands");
        push_count_part(&mut parts, self.web_search_count, "searched web", "web searches");
        push_count_part(&mut parts, self.web_open_count, "opened web page", "web pages opened");
        push_count_part(&mut parts, self.web_find_count, "found on page", "in-page finds");
        let ghost counted = text::views(parts@);
        if self.mcp_counts.len() > 0 {
            let part = mcp_summary(&self.mcp_counts);
            proof {
                text::lemma_views_push(parts@, part);
            }
            parts.push(part);
        }
        proof {
            assert(text::views(parts@) =~= counted + (if self.model().mcp.len() > 0 {
                seq![calls_text(self.model().mcp, "MCP tools"@)]
            } else {
                Seq::empty()
            }));
        }
        let ghost with_mcp = text::views(parts@);
        if self.dynamic_tool_counts.len() > 0 {
            let part = dynamic_tool_summary(&self.dynamic_tool_counts);
            proof {
                text::lemma_views_push(parts@, part);
            }
            parts.push(part);
        }
        proof {
            assert(text::views(parts@) =~= with_mcp + (if self.model().dynamic.len() > 0 {
                seq![calls_text(self.model().dynamic, "tools"@)]
            } else {
                Seq::empty()
            }));
        }
        parts
    }
}

fn copy_counts(counts: &Vec<(String, usize)>) -> (r: Vec<(String, usize)>)
    ensures
        counts_model(r@) == counts_model(counts@),
{
    let mut out: Vec<(String, usize)> = Vec::new();
    let mut i: usize = 0;
    while i < counts.len()
        invariant
            i <= counts@.len(),
            out@.len() == i,
            forall|j: int|
                0 <= j < i ==> (#[trigger] out@[j]).0@ == counts@[j].0@ && out@[j].1
                    == counts@[j].1,
        decreases counts@.len() - i,
    {
        out.push((counts[i].0.clone(), counts[i].1));
        i += 1;
    }
    proof {
        assert(counts_model(out@) =~= counts_model(counts@));
    }
    out
}

/// Another item that says the same.
pub fn copy_item(item: &Option<ToolGroupItem>) -> (r: Option<ToolGroupItem>)
    ensures
        match *item {
            Some(found) => r matches Some(copy) && copy.summary.model() == found.summary.model(),
            None => r is None,
        },
{
    match item {
        None => None,
        Some(found) => {
            let summary = &found.summary;
            let copy = ToolGroupSummary {
                read_labels: text::copy_strings(&summary.read_labels),
                list_count: summary.list_count,
                search_count: summary.search_count,
                edit_file_count: summary.edit_file_count,
                run_count: summary.run_count,
                test_count: summary.test_count,
                build_count: summary.build_count,
                check_count: summary.check_count,
                install_count: summary.install_count,
                web_search_count: summary.web_search_count,
                web_open_count: summary.web_open_count,
                web_find_count: summary.web_find_count,
                mcp_counts: copy_counts(&summary.mcp_counts),
                dynamic_tool_counts: copy_counts(&summary.dynamic_tool_counts),
                actions: summary.actions,
            };
            Some(ToolGroupItem { summary: copy })
        },
    }
}

} // verus!
