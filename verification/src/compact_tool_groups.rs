//! Compact grouping of completed tool calls.
//!
//! A Work group stands for a run of foldable cells, with the hidden reasoning summaries between
//! them, that is closed by a seal whose counts agree with the cells before it.

use std::sync::Arc;

use vstd::prelude::*;

use crate::compact_tool_group_item;
use crate::compact_tool_group_item::SummaryModel;
use crate::compact_tool_group_item::ToolGroupSummary;
use crate::history_cell;
use crate::history_cell::HistoryCell;
use crate::ledger;
use crate::ledger::QuietLedger;
use crate::ledger::Tally;
use crate::quiet_metrics::QuietMetric;
use crate::text;
use crate::tool_classification;
use crate::tool_run_projection;
use crate::tool_run_projection::RunId;

verus! {

#[derive(Clone, Copy, Debug, PartialEq, Eq, Structural)]
pub struct CompactToolGroupId(pub u64);

/// The group under the pointer. Zero stands for none, which no run has as its identifier.
pub struct CompactToolGroupHover {
    pub id: u64,
}

impl Default for CompactToolGroupHover {
    fn default() -> (r: Self)
        ensures
            r.id == 0,
    {
        CompactToolGroupHover { id: 0 }
    }
}

impl CompactToolGroupHover {
    pub open spec fn target(&self) -> Option<CompactToolGroupId> {
        if self.id == 0 {
            None
        } else {
            Some(CompactToolGroupId(self.id))
        }
    }

    pub fn hovered(&self) -> (r: Option<CompactToolGroupId>)
        ensures
            r == self.target(),
    {
        if self.id == 0 {
            None
        } else {
            Some(CompactToolGroupId(self.id))
        }
    }

    /// Moves the hover and says whether it changed.
    pub fn update(&mut self, hovered: Option<CompactToolGroupId>) -> (r: bool)
        ensures
            final(self).id == (match hovered {
                Some(id) => id.0,
                None => 0,
            }),
            r == (final(self).id != old(self).id),
    {
        let next: u64 = match hovered {
            Some(id) => id.0,
            None => 0,
        };
        let changed = self.id != next;
        self.id = next;
        changed
    }

    pub fn contains(&self, id: CompactToolGroupId) -> (r: bool)
        ensures
            r == (self.id == id.0),
    {
        self.id == id.0
    }
}

/// What is hovered is what the last update named, for every group that a run can have.
pub proof fn law_hover_reads_back_what_was_set(hover: CompactToolGroupHover, id: CompactToolGroupId)
    requires
        id.0 != 0,
        hover.id == id.0,
    ensures
        hover.target() == Some(id),
{
}

/// Whether a cell may lie inside a Work group.
pub open spec fn foldable(cell: Arc<HistoryCell>) -> bool {
    tool_classification::cell_item(*cell) is Some
}

pub open spec fn inside_run(cell: Arc<HistoryCell>) -> bool {
    foldable(cell) || tool_classification::transparent(*cell)
}

/// The first position at or after `i` whose cell cannot lie inside a run, or the number of cells.
pub open spec fn run_end(cells: Seq<Arc<HistoryCell>>, i: int) -> int
    decreases cells.len() - i,
{
    if i >= cells.len() {
        cells.len() as int
    } else if inside_run(cells[i]) {
        run_end(cells, i + 1)
    } else {
        i
    }
}

/// The summary of the foldable cells of a stretch.
pub open spec fn summary_of(cells: Seq<Arc<HistoryCell>>) -> SummaryModel
    decreases cells.len(),
{
    if cells.len() == 0 {
        compact_tool_group_item::empty_summary()
    } else {
        match tool_classification::cell_item(*cells.last()) {
            Some(item) => compact_tool_group_item::merged(summary_of(cells.drop_last()), item),
            None => summary_of(cells.drop_last()),
        }
    }
}

pub open spec fn detail_text(summary: SummaryModel) -> Seq<char> {
    text::joined(compact_tool_group_item::summary_parts(summary), " · "@)
}

/// A Work group: where it starts, how many source cells it folds (its seal comes right behind
/// them), and what it says.
pub struct GroupModel {
    pub id: CompactToolGroupId,
    pub start: int,
    pub sources: int,
    pub detail: Seq<char>,
    pub actions: int,
}

/// The group that starts at `start`, if there is one.
#[verifier::opaque]
pub open spec fn group_at(cells: Seq<Arc<HistoryCell>>, start: int) -> Option<GroupModel> {
    let end = run_end(cells, start);
    let summary = summary_of(cells.subrange(start, end));
    let detail = detail_text(summary);
    if 0 <= start < cells.len() && foldable(cells[start]) && end < cells.len() {
        match tool_run_projection::seal_of(*cells[end]) {
            Some(seal) => if seal.action_count == summary.actions && seal.sources() == end - start
                && summary.actions >= 2 && detail.len() > 0 {
                Some(
                    GroupModel {
                        id: CompactToolGroupId(seal.run_id.0),
                        start,
                        sources: end - start,
                        detail,
                        actions: summary.actions,
                    },
                )
            } else {
                None
            },
            None => None,
        }
    } else {
        None
    }
}

pub proof fn lemma_run_end_bounds(cells: Seq<Arc<HistoryCell>>, i: int)
    requires
        0 <= i <= cells.len(),
    ensures
        i <= run_end(cells, i) <= cells.len(),
        forall|j: int| i <= j < run_end(cells, i) ==> inside_run(#[trigger] cells[j]),
        run_end(cells, i) < cells.len() ==> !inside_run(cells[run_end(cells, i)]),
    decreases cells.len() - i,
{
    if i < cells.len() && inside_run(cells[i]) {
        lemma_run_end_bounds(cells, i + 1);
    }
}

pub proof fn lemma_group_bounds(cells: Seq<Arc<HistoryCell>>, start: int)
    requires
        0 <= start,
    ensures
        group_at(cells, start) matches Some(g) ==> {
            &&& g.start == start
            &&& 1 <= g.sources
            &&& start + g.sources < cells.len()
            &&& tool_run_projection::seal_of(*cells[start + g.sources]) is Some
            &&& forall|j: int|
                start <= j < start + g.sources ==> inside_run(#[trigger] cells[j])
        },
{
    reveal(group_at);
    if start < cells.len() {
        lemma_run_end_bounds(cells, start);
    }
}

/// The groups of a conversation from position `i` on, in order. The search goes on behind the
/// seal of each group.
pub open spec fn groups_from(cells: Seq<Arc<HistoryCell>>, i: int) -> Seq<GroupModel>
    decreases cells.len() - i,
{
    if i >= cells.len() {
        Seq::empty()
    } else {
        match group_at(cells, i) {
            Some(g) => if g.sources >= 1 && i + g.sources < cells.len() {
                seq![g] + groups_from(cells, i + g.sources + 1)
            } else {
                Seq::empty()
            },
            None => groups_from(cells, i + 1),
        }
    }
}

/// The groups of a conversation, in order.
pub open spec fn groups_of(cells: Seq<Arc<HistoryCell>>) -> Seq<GroupModel> {
    groups_from(cells, 0)
}

pub struct CompactToolGroupAnalysis {
    pub id: CompactToolGroupId,
    pub detail: String,
    pub consumed_cells: usize,
    pub source_cells: usize,
    pub action_count: usize,
}

pub open spec fn analysis_matches(
    analysis: Option<CompactToolGroupAnalysis>,
    group: Option<GroupModel>,
) -> bool {
    match analysis {
        Some(a) => group matches Some(g) && {
            &&& a.id == g.id
            &&& a.detail@ == g.detail
            &&& a.source_cells == g.sources
            &&& a.consumed_cells == g.sources + 1
            &&& a.action_count == g.actions
        },
        None => group is None,
    }
}

fn compact_tool_group_id(run_id: RunId) -> (r: CompactToolGroupId)
    ensures
        r == CompactToolGroupId(run_id.0),
{
    CompactToolGroupId(run_id.get())
}

/// Whether the cells from `start` to their boundary end in a seal that declares this very start,
/// or more sources than there are, and yet disagrees with the cells about their counts.
pub open spec fn seal_disagrees(cells: Seq<Arc<HistoryCell>>, start: int) -> bool {
    let end = scan_end(cells, start);
    let summary = summary_of(cells.subrange(start, end));
    &&& end < cells.len()
    &&& tool_run_projection::seal_of(*cells[end]) matches Some(seal) && {
        &&& seal.action_count != summary.actions || seal.sources() != end - start
        &&& end - seal.sources() < 0 || end - seal.sources() == start
    }
}

/// The first position at or after `start` that a group from there does not reach over.
pub open spec fn scan_end(cells: Seq<Arc<HistoryCell>>, start: int) -> int {
    if foldable(cells[start]) {
        run_end(cells, start)
    } else {
        start
    }
}

/// What the classification of a shared cell counts.
pub open spec fn cell_scans(cell: Arc<HistoryCell>) -> Seq<Tally> {
    tool_classification::item_scans(*cell)
}

/// What the classification of a stretch of cells counts.
pub open spec fn stretch_scans(cells: Seq<Arc<HistoryCell>>, start: int, end: int) -> Seq<
    Tally,
>
    decreases end - start,
{
    if end <= start {
        Seq::empty()
    } else {
        stretch_scans(cells, start, end - 1) + cell_scans(cells[end - 1])
    }
}

/// What the search for a group at `start` counts: the cells up to its boundary are classified,
/// and a seal that disagrees with them is noted.
pub open spec fn analysis_scans(cells: Seq<Arc<HistoryCell>>, start: int) -> Seq<Tally> {
    if !(0 <= start < cells.len()) {
        Seq::empty()
    } else {
        let end = scan_end(cells, start);
        stretch_scans(
            cells,
            start,
            if end < cells.len() {
                end + 1
            } else {
                cells.len() as int
            },
        ) + (if seal_disagrees(cells, start) {
            seq![Tally::Metric(QuietMetric::SealClassificationDivergence)]
        } else {
            Seq::empty()
        })
    }
}

/// Looks for a group at `start`. A run whose seal disagrees with its cells stays unfolded.
#[verifier::loop_isolation(false)]
pub fn analyze_compact_tool_group_at(
    metrics: &mut QuietLedger,
    cells: &Vec<Arc<HistoryCell>>,
    start: usize,
) -> (r: Option<CompactToolGroupAnalysis>)
    ensures
        analysis_matches(r, group_at(cells@, start as int)),
        ledger::counted(
            *old(metrics),
            *final(metrics),
            analysis_scans(cells@, start as int),
        ),
{
    let len: usize = cells.len();
    let ghost counters = *metrics;
    proof {
        reveal(group_at);
        ledger::lemma_counted_nothing(counters);
    }
    if start >= len {
        return None;
    }
    let mut summary = ToolGroupSummary::default();
    let mut tool_cells: usize = 0;
    let mut i: usize = start;
    proof {
        assert(cells@.subrange(start as int, start as int) =~= Seq::empty());
    }
    while i < len
        invariant
            start <= i <= len,
            len == cells@.len(),
            tool_cells <= i - start,
            tool_cells == 0 <==> i == start,
            i > start ==> foldable(cells@[start as int]),
            summary.model() == summary_of(cells@.subrange(start as int, i as int)),
            run_end(cells@, i as int) == run_end(cells@, start as int),
            ledger::counted(
                counters,
                *metrics,
                stretch_scans(cells@, start as int, i as int),
            ),
        decreases len - i,
    {
        let ghost upto = cells@.subrange(start as int, i as int);
        let ghost next = cells@.subrange(start as int, i + 1);
        let ghost before = *metrics;
        let item = tool_classification::tool_group_item(metrics, &cells[i]);
        let ghost scans = stretch_scans(cells@, start as int, i + 1);
        proof {
            assert(next.drop_last() =~= upto);
            assert(next.last() == cells@[i as int]);
            ledger::lemma_counted_concat(
                counters,
                before,
                *metrics,
                stretch_scans(cells@, start as int, i as int),
                cell_scans(cells@[i as int]),
            );
            assert(scans + Seq::<Tally>::empty() =~= scans);
        }
        if let Some(item) = item {
            summary.merge(&item.summary);
            tool_cells += 1;
            i += 1;
            continue;
        }
        if tool_cells > 0 && tool_classification::is_transparent_tool_group_cell(&cells[i]) {
            i += 1;
            continue;
        }
        proof {
            assert(scan_end(cells@, start as int) == i);
        }
        let seal = match tool_run_projection::seal_cell(&cells[i]) {
            Some(seal) => seal,
            None => {
                return None;
            },
        };
        let source_cells: usize = i - start;
        let declared: usize = seal.source_count();
        if seal.action_count() != summary.actions || declared != source_cells {
            if declared > i || i - declared == start {
                let ghost scanned = *metrics;
                ledger::bump(metrics, QuietMetric::SealClassificationDivergence);
                proof {
                    ledger::lemma_counted_concat(
                        counters,
                        scanned,
                        *metrics,
                        scans,
                        seq![Tally::Metric(QuietMetric::SealClassificationDivergence)],
                    );
                }
            }
            return None;
        }
        if tool_cells == 0 || summary.actions < 2 {
            return None;
        }
        let detail = text::join(&summary.parts(), " · ");
        if detail.as_str().is_empty() {
            return None;
        }
        return Some(
            CompactToolGroupAnalysis {
                id: compact_tool_group_id(seal.run_id()),
                detail,
                consumed_cells: source_cells + 1,
                source_cells,
                action_count: summary.actions,
            },
        );
    }
    proof {
        let scans = stretch_scans(cells@, start as int, len as int);
        assert(scan_end(cells@, start as int) == len);
        assert(scans + Seq::<Tally>::empty() =~= scans);
    }
    None
}

pub fn last_tool_run_seal_index(cells: &Vec<Arc<HistoryCell>>) -> (r: Option<usize>)
    ensures
        match r {
            Some(i) => {
                &&& i < cells@.len()
                &&& tool_run_projection::seal_of(*cells@[i as int]) is Some
                &&& forall|j: int|
                    i < j < cells@.len() ==> tool_run_projection::seal_of(
                        *(#[trigger] cells@[j]),
                    ) is None
            },
            None => forall|j: int|
                0 <= j < cells@.len() ==> tool_run_projection::seal_of(
                    *(#[trigger] cells@[j]),
                ) is None,
        },
{
    let mut n: usize = cells.len();
    while n > 0
        invariant
            n <= cells@.len(),
            forall|j: int|
                n <= j < cells@.len() ==> tool_run_projection::seal_of(
                    *(#[trigger] cells@[j]),
                ) is None,
        decreases n,
    {
        if tool_run_projection::seal_cell(&cells[n - 1]).is_some() {
            return Some(n - 1);
        }
        n -= 1;
    }
    None
}

/// Without a seal ahead there is no group ahead.
pub proof fn lemma_no_groups_past_last_seal(cells: Seq<Arc<HistoryCell>>, i: int)
    requires
        0 <= i,
        forall|j: int|
            i <= j < cells.len() ==> tool_run_projection::seal_of(*(#[trigger] cells[j])) is None,
    ensures
        groups_from(cells, i) == Seq::<GroupModel>::empty(),
    decreases cells.len() - i,
{
    if i < cells.len() {
        lemma_group_bounds(cells, i);
        lemma_no_groups_past_last_seal(cells, i + 1);
    }
}

/// A group with the cells that show it.
pub struct FoundGroup {
    pub start: usize,
    pub analysis: CompactToolGroupAnalysis,
}

pub open spec fn found_matches(found: FoundGroup, g: GroupModel, len: int) -> bool {
    &&& found.start == g.start
    &&& analysis_matches(Some(found.analysis), Some(g))
    &&& g.start + g.sources < len
    &&& found.start + found.analysis.source_cells < len
}

/// What a search through the groups looks for. It ends with the group that it finds.
#[derive(Clone, Copy, Debug, PartialEq, Eq, Structural)]
pub enum GroupSearch {
    All,
    Id(CompactToolGroupId),
    Source(usize),
    Record(u64),
}

/// Whether a search ends with a group.
pub open spec fn ends_with(
    search: GroupSearch,
    cells: Seq<Arc<HistoryCell>>,
    g: GroupModel,
) -> bool {
    match search {
        GroupSearch::All => false,
        GroupSearch::Id(id) => g.id == id,
        GroupSearch::Source(index) => g.start <= index < g.start + g.sources,
        GroupSearch::Record(id) => holds_record(sources_of(cells, g), id),
    }
}

/// The groups up to the one that a search ends with.
pub open spec fn groups_until(
    groups: Seq<GroupModel>,
    cells: Seq<Arc<HistoryCell>>,
    search: GroupSearch,
) -> Seq<GroupModel>
    decreases groups.len(),
{
    if groups.len() == 0 {
        Seq::empty()
    } else if ends_with(search, cells, groups[0]) {
        seq![groups[0]]
    } else {
        seq![groups[0]] + groups_until(groups.skip(1), cells, search)
    }
}

/// Whether a seal stands at or after a position.
pub open spec fn sealed_from(cells: Seq<Arc<HistoryCell>>, i: int) -> bool {
    exists|j: int|
        i <= j < cells.len() && tool_run_projection::seal_of(*(#[trigger] cells[j])) is Some
}

/// What a search from position `i` on counts. Behind the last seal nothing is classified.
pub open spec fn search_scans(
    cells: Seq<Arc<HistoryCell>>,
    i: int,
    search: GroupSearch,
) -> Seq<Tally>
    decreases cells.len() - i,
{
    if i >= cells.len() || !sealed_from(cells, i) {
        Seq::empty()
    } else {
        match group_at(cells, i) {
            Some(g) => if ends_with(search, cells, g) || g.sources < 1 || i + g.sources >= cells.len() {
                analysis_scans(cells, i)
            } else {
                analysis_scans(cells, i) + search_scans(cells, i + g.sources + 1, search)
            },
            None => analysis_scans(cells, i) + search_scans(cells, i + 1, search),
        }
    }
}

/// What a search through all groups counts.
pub open spec fn all_scans(cells: Seq<Arc<HistoryCell>>) -> Seq<Tally> {
    search_scans(cells, 0, GroupSearch::All)
}

proof fn lemma_until_all(groups: Seq<GroupModel>, cells: Seq<Arc<HistoryCell>>)
    ensures
        groups_until(groups, cells, GroupSearch::All) == groups,
    decreases groups.len(),
{
    if groups.len() > 0 {
        lemma_until_all(groups.skip(1), cells);
        assert(seq![groups[0]] + groups.skip(1) =~= groups);
    }
}

proof fn lemma_until_id(
    groups: Seq<GroupModel>,
    cells: Seq<Arc<HistoryCell>>,
    id: CompactToolGroupId,
)
    ensures
        group_with_id(groups_until(groups, cells, GroupSearch::Id(id)), id) == group_with_id(
            groups,
            id,
        ),
    decreases groups.len(),
{
    if groups.len() > 0 {
        lemma_until_id(groups.skip(1), cells, id);
        let found = groups_until(groups, cells, GroupSearch::Id(id));
        if groups[0].id != id {
            assert(found.skip(1) =~= groups_until(groups.skip(1), cells, GroupSearch::Id(id)));
        }
    }
}

proof fn lemma_until_source(
    groups: Seq<GroupModel>,
    cells: Seq<Arc<HistoryCell>>,
    index: usize,
)
    ensures
        group_of_source(groups_until(groups, cells, GroupSearch::Source(index)), index as int)
            == group_of_source(groups, index as int),
    decreases groups.len(),
{
    if groups.len() > 0 {
        lemma_until_source(groups.skip(1), cells, index);
        let found = groups_until(groups, cells, GroupSearch::Source(index));
        if !ends_with(GroupSearch::Source(index), cells, groups[0]) {
            assert(found.skip(1) =~= groups_until(
                groups.skip(1),
                cells,
                GroupSearch::Source(index),
            ));
        }
    }
}

proof fn lemma_until_record(groups: Seq<GroupModel>, cells: Seq<Arc<HistoryCell>>, id: u64)
    ensures
        group_of_record(cells, groups_until(groups, cells, GroupSearch::Record(id)), id)
            == group_of_record(cells, groups, id),
    decreases groups.len(),
{
    if groups.len() > 0 {
        lemma_until_record(groups.skip(1), cells, id);
        let found = groups_until(groups, cells, GroupSearch::Record(id));
        if !ends_with(GroupSearch::Record(id), cells, groups[0]) {
            assert(found.skip(1) =~= groups_until(groups.skip(1), cells, GroupSearch::Record(id)));
        }
    }
}

/// The groups that were found are groups of the conversation.
proof fn lemma_until_in_bounds(
    groups: Seq<GroupModel>,
    cells: Seq<Arc<HistoryCell>>,
    search: GroupSearch,
)
    ensures
        groups_until(groups, cells, search).len() <= groups.len(),
        forall|k: int|
            0 <= k < groups_until(groups, cells, search).len() ==> (#[trigger] groups_until(
                groups,
                cells,
                search,
            )[k]) == groups[k],
    decreases groups.len(),
{
    if groups.len() > 0 {
        lemma_until_in_bounds(groups.skip(1), cells, search);
        let found = groups_until(groups, cells, search);
        let rest = groups_until(groups.skip(1), cells, search);
        assert forall|k: int| 0 <= k < found.len() implies (#[trigger] found[k]) == groups[k] by {
            if k > 0 {
                assert(found[k] == rest[k - 1]);
            }
        }
    }
}

/// Whether one of a stretch of cells is the given record.
fn stretch_holds(cells: &Vec<Arc<HistoryCell>>, start: usize, end: usize, id: u64) -> (r: bool)
    requires
        start <= end <= cells@.len(),
    ensures
        r == holds_record(cells@.subrange(start as int, end as int), id),
{
    let ghost part = cells@.subrange(start as int, end as int);
    let mut j: usize = start;
    while j < end
        invariant
            start <= j <= end <= cells@.len(),
            part == cells@.subrange(start as int, end as int),
            forall|m: int| 0 <= m < j - start ==> (#[trigger] part[m]).id != id,
        decreases end - j,
    {
        if cells[j].id == id {
            proof {
                assert(part[j - start].id == id);
            }
            return true;
        }
        j += 1;
    }
    false
}

/// The groups of a conversation, in order, up to the one that the search ends with.
#[verifier::loop_isolation(false)]
pub fn find_groups(
    metrics: &mut QuietLedger,
    cells: &Vec<Arc<HistoryCell>>,
    search: GroupSearch,
) -> (r: Vec<FoundGroup>)
    ensures
        r@.len() == groups_until(groups_of(cells@), cells@, search).len(),
        forall|k: int| 0 <= k < r@.len() ==> found_matches(
                #[trigger] r@[k],
                groups_until(groups_of(cells@), cells@, search)[k],
                cells@.len() as int,
            ),
        ledger::counted(*old(metrics), *final(metrics), search_scans(cells@, 0, search)),
{
    let mut out: Vec<FoundGroup> = Vec::new();
    let len: usize = cells.len();
    let ghost all = groups_until(groups_of(cells@), cells@, search);
    let ghost counters = *metrics;
    let ghost whole = search_scans(cells@, 0, search);
    proof {
        ledger::lemma_counted_nothing(counters);
    }
    let last = match last_tool_run_seal_index(cells) {
        Some(last) => last,
        None => {
            proof {
                lemma_no_groups_past_last_seal(cells@, 0);
            }
            return out;
        },
    };
    let mut index: usize = 0;
    let ghost mut done: Seq<GroupModel> = Seq::empty();
    let ghost mut scans: Seq<Tally> = Seq::empty();
    proof {
        assert(done + all =~= all);
        assert(scans + whole =~= whole);
    }
    while index <= last
        invariant
            index <= cells@.len(),
            last < cells@.len(),
            done + groups_until(groups_from(cells@, index as int), cells@, search) == all,
            scans + search_scans(cells@, index as int, search) == whole,
            ledger::counted(counters, *metrics, scans),
            out@.len() == done.len(),
            forall|k: int| 0 <= k < out@.len() ==> found_matches(
                    #[trigger] out@[k],
                    done[k],
                    cells@.len() as int,
                ),
        decreases cells@.len() - index,
    {
        let ghost before = *metrics;
        let ghost here = analysis_scans(cells@, index as int);
        proof {
            lemma_group_bounds(cells@, index as int);
            assert(sealed_from(cells@, index as int)) by {
                assert(tool_run_projection::seal_of(*cells@[last as int]) is Some);
            }
        }
        let analysis = analyze_compact_tool_group_at(metrics, cells, index);
        proof {
            ledger::lemma_counted_concat(counters, before, *metrics, scans, here);
        }
        match analysis {
            Some(analysis) => {
                let consumed: usize = analysis.consumed_cells;
                let sources: usize = analysis.source_cells;
                let ghost g = group_at(cells@, index as int)->0;
                let ghost from = groups_from(cells@, index as int);
                let ghost rest = groups_from(cells@, index + consumed);
                let ends = match search {
                    GroupSearch::All => false,
                    GroupSearch::Id(id) => analysis.id == id,
                    GroupSearch::Source(wanted) => index <= wanted && wanted - index < sources,
                    GroupSearch::Record(id) => stretch_holds(cells, index, index + sources, id),
                };
                proof {
                    assert(from[0] == g);
                    assert(from.skip(1) =~= rest);
                    let until = groups_until(rest, cells@, search);
                    assert(done + (seq![g] + until) =~= done.push(g) + until);
                    assert(done + seq![g] =~= done.push(g));
                    let behind = search_scans(cells@, index + consumed, search);
                    assert(scans + (here + behind) =~= (scans + here) + behind);
                    done = done.push(g);
                    scans = scans + here;
                }
                out.push(FoundGroup { start: index, analysis });
                if ends {
                    return out;
                }
                index = index + consumed;
            },
            None => {
                proof {
                    let behind = search_scans(cells@, index + 1, search);
                    assert(scans + (here + behind) =~= (scans + here) + behind);
                    scans = scans + here;
                }
                index += 1;
            },
        }
    }
    proof {
        lemma_no_groups_past_last_seal(cells@, index as int);
        assert(done + Seq::<GroupModel>::empty() =~= done);
        assert(!sealed_from(cells@, index as int));
        assert(scans + Seq::<Tally>::empty() =~= scans);
    }
    out
}

/// All groups of a conversation, in order.
pub fn find_all_groups(metrics: &mut QuietLedger, cells: &Vec<Arc<HistoryCell>>) -> (r: Vec<
    FoundGroup,
>)
    ensures
        r@.len() == groups_of(cells@).len(),
        forall|k: int| 0 <= k < r@.len() ==> found_matches(
                #[trigger] r@[k],
                groups_of(cells@)[k],
                cells@.len() as int,
            ),
        ledger::counted(*old(metrics), *final(metrics), all_scans(cells@)),
{
    proof {
        lemma_until_all(groups_of(cells@), cells@);
    }
    find_groups(metrics, cells, GroupSearch::All)
}

pub open spec fn group_ids(groups: Seq<GroupModel>) -> Seq<CompactToolGroupId> {
    Seq::new(groups.len(), |k: int| groups[k].id)
}

pub fn compact_tool_group_ids_in_order(
    metrics: &mut QuietLedger,
    cells: &Vec<Arc<HistoryCell>>,
) -> (r: Vec<CompactToolGroupId>)
    ensures
        ledger::counted(*old(metrics), *final(metrics), all_scans(cells@)),
        r@ == group_ids(groups_of(cells@)),
{
    let found = find_all_groups(metrics, cells);
    let mut ids: Vec<CompactToolGroupId> = Vec::new();
    let mut k: usize = 0;
    while k < found.len()
        invariant
            k <= found@.len(),
            ids@.len() == k,
            found@.len() == groups_of(cells@).len(),
            forall|j: int|
                0 <= j < found@.len() ==> found_matches(
                    #[trigger] found@[j],
                    groups_of(cells@)[j],
                    cells@.len() as int,
                ),
            forall|j: int| 0 <= j < k ==> ids@[j] == groups_of(cells@)[j].id,
        decreases found@.len() - k,
    {
        ids.push(found[k].analysis.id);
        k += 1;
    }
    proof {
        assert(ids@ =~= group_ids(groups_of(cells@)));
    }
    ids
}

/// Whether a list of identifiers holds a given one.
pub fn holds_id(ids: &Vec<CompactToolGroupId>, id: CompactToolGroupId) -> (r: bool)
    ensures
        r == ids@.contains(id),
{
    let mut k: usize = 0;
    while k < ids.len()
        invariant
            k <= ids@.len(),
            forall|j: int| 0 <= j < k ==> ids@[j] != id,
        decreases ids@.len() - k,
    {
        if ids[k] == id {
            return true;
        }
        k += 1;
    }
    false
}

/// The distinct identifiers of the groups.
pub fn compact_tool_group_ids(metrics: &mut QuietLedger, cells: &Vec<Arc<HistoryCell>>) -> (r: Vec<
    CompactToolGroupId,
>)
    ensures
        ledger::counted(*old(metrics), *final(metrics), all_scans(cells@)),
        r@.no_duplicates(),
        forall|id: CompactToolGroupId|
            r@.contains(id) <==> group_ids(groups_of(cells@)).contains(id),
{
    let ordered = compact_tool_group_ids_in_order(metrics, cells);
    let mut ids: Vec<CompactToolGroupId> = Vec::new();
    let mut k: usize = 0;
    while k < ordered.len()
        invariant
            k <= ordered@.len(),
            ids@.no_duplicates(),
            forall|id: CompactToolGroupId|
                ids@.contains(id) <==> ordered@.take(k as int).contains(id),
        decreases ordered@.len() - k,
    {
        let id = ordered[k];
        let ghost before = ids@;
        let ghost seen = ordered@.take(k as int);
        if !holds_id(&ids, id) {
            ids.push(id);
        }
        proof {
            assert forall|x: CompactToolGroupId|
                ids@.contains(x) <==> ordered@.take(k + 1).contains(x) by {
                let more = ordered@.take(k + 1);
                assert(more =~= seen.push(id));
                assert(more[k as int] == id);
                if seen.contains(x) {
                    let j = choose|j: int| 0 <= j < seen.len() && seen[j] == x;
                    assert(more[j] == x);
                }
                assert(before.contains(x) <==> seen.contains(x));
                if before.contains(x) {
                    let j = choose|j: int| 0 <= j < before.len() && before[j] == x;
                    assert(ids@[j] == x);
                }
                if !before.contains(id) {
                    assert(ids@[before.len() as int] == id);
                }
            }
        }
        k += 1;
    }
    proof {
        assert(ordered@.take(ordered@.len() as int) =~= ordered@);
    }
    ids
}

/// The first group whose range of source cells holds `index`.
pub open spec fn group_of_source(groups: Seq<GroupModel>, index: int) -> Option<GroupModel>
    decreases groups.len(),
{
    if groups.len() == 0 {
        None
    } else if groups[0].start <= index < groups[0].start + groups[0].sources {
        Some(groups[0])
    } else {
        group_of_source(groups.skip(1), index)
    }
}

/// The first group with the given identifier.
pub open spec fn group_with_id(groups: Seq<GroupModel>, id: CompactToolGroupId) -> Option<
    GroupModel,
>
    decreases groups.len(),
{
    if groups.len() == 0 {
        None
    } else if groups[0].id == id {
        Some(groups[0])
    } else {
        group_with_id(groups.skip(1), id)
    }
}

/// Whether one of the cells is the given record.
pub open spec fn holds_record(cells: Seq<Arc<HistoryCell>>, id: u64) -> bool {
    exists|k: int| 0 <= k < cells.len() && (#[trigger] cells[k]).id == id
}

/// The first group that folds the given record.
pub open spec fn group_of_record(
    cells: Seq<Arc<HistoryCell>>,
    groups: Seq<GroupModel>,
    id: u64,
) -> Option<GroupModel>
    decreases groups.len(),
{
    if groups.len() == 0 {
        None
    } else if holds_record(
        cells.subrange(groups[0].start, groups[0].start + groups[0].sources),
        id,
    ) {
        Some(groups[0])
    } else {
        group_of_record(cells, groups.skip(1), id)
    }
}

#[derive(Clone, Copy, Debug, PartialEq, Eq, Structural)]
pub struct CompactToolGroupSourceRange {
    pub id: CompactToolGroupId,
    pub source_start: usize,
    pub source_cells: usize,
    pub consumed_cells: usize,
}

pub open spec fn range_matches(
    range: Option<CompactToolGroupSourceRange>,
    group: Option<GroupModel>,
) -> bool {
    match range {
        Some(found) => group matches Some(g) && {
            &&& found.id == g.id
            &&& found.source_start == g.start
            &&& found.source_cells == g.sources
            &&& found.consumed_cells == g.sources + 1
        },
        None => group is None,
    }
}

pub proof fn lemma_groups_in_bounds(cells: Seq<Arc<HistoryCell>>, i: int)
    requires
        0 <= i,
    ensures
        forall|k: int|
            0 <= k < groups_from(cells, i).len() ==> {
                let g = #[trigger] groups_from(cells, i)[k];
                &&& i <= g.start
                &&& 1 <= g.sources
                &&& g.start + g.sources < cells.len()
                &&& group_at(cells, g.start) == Some(g)
            },
    decreases cells.len() - i,
{
    if i < cells.len() {
        lemma_group_bounds(cells, i);
        match group_at(cells, i) {
            Some(g) => {
                let rest = groups_from(cells, i + g.sources + 1);
                lemma_groups_in_bounds(cells, i + g.sources + 1);
                assert forall|k: int| 0 <= k < groups_from(cells, i).len() implies {
                    let h = #[trigger] groups_from(cells, i)[k];
                    &&& i <= h.start
                    &&& 1 <= h.sources
                    &&& h.start + h.sources < cells.len()
                    &&& group_at(cells, h.start) == Some(h)
                } by {
                    if k > 0 {
                        assert(groups_from(cells, i)[k] == rest[k - 1]);
                    }
                }
            },
            None => {
                lemma_groups_in_bounds(cells, i + 1);
            },
        }
    }
}

/// What the search for the group around a source cell counts. Behind the last seal there is
/// nothing to search for.
pub open spec fn source_scans(cells: Seq<Arc<HistoryCell>>, index: usize) -> Seq<Tally> {
    if sealed_from(cells, index as int) {
        search_scans(cells, 0, GroupSearch::Source(index))
    } else {
        Seq::empty()
    }
}

proof fn lemma_no_group_around(cells: Seq<Arc<HistoryCell>>, groups: Seq<GroupModel>, index: int)
    requires
        !sealed_from(cells, index),
        forall|k: int|
            0 <= k < groups.len() ==> {
                let g = #[trigger] groups[k];
                &&& g.start + g.sources < cells.len()
                &&& tool_run_projection::seal_of(*cells[g.start + g.sources]) is Some
            },
    ensures
        group_of_source(groups, index) is None,
    decreases groups.len(),
{
    if groups.len() > 0 {
        let g = groups[0];
        assert(!(g.start <= index < g.start + g.sources));
        let rest = groups.skip(1);
        assert forall|k: int| 0 <= k < rest.len() implies {
            let g = #[trigger] rest[k];
            &&& g.start + g.sources < cells.len()
            &&& tool_run_projection::seal_of(*cells[g.start + g.sources]) is Some
        } by {
            assert(rest[k] == groups[k + 1]);
        }
        lemma_no_group_around(cells, rest, index);
    }
}

#[verifier::loop_isolation(false)]
pub fn compact_tool_group_containing_source_index(
    metrics: &mut QuietLedger,
    cells: &Vec<Arc<HistoryCell>>,
    source_index: usize,
) -> (r: Option<CompactToolGroupSourceRange>)
    ensures
        range_matches(r, group_of_source(groups_of(cells@), source_index as int)),
        ledger::counted(
            *old(metrics),
            *final(metrics),
            source_scans(cells@, source_index),
        ),
{
    let ghost groups = groups_of(cells@);
    proof {
        ledger::lemma_counted_nothing(*metrics);
        lemma_groups_in_bounds(cells@, 0);
        assert forall|k: int| 0 <= k < groups.len() implies {
            let g = #[trigger] groups[k];
            &&& g.start + g.sources < cells@.len()
            &&& tool_run_projection::seal_of(*cells@[g.start + g.sources]) is Some
        } by {
            lemma_group_bounds(cells@, groups[k].start);
        }
    }
    let ahead = match last_tool_run_seal_index(cells) {
        Some(last) => source_index <= last,
        None => false,
    };
    if !ahead {
        proof {
            assert(!sealed_from(cells@, source_index as int));
            lemma_no_group_around(cells@, groups, source_index as int);
        }
        return None;
    }
    let found = find_groups(metrics, cells, GroupSearch::Source(source_index));
    let ghost all = groups_until(groups, cells@, GroupSearch::Source(source_index));
    proof {
        lemma_until_source(groups, cells@, source_index);
        lemma_until_in_bounds(groups, cells@, GroupSearch::Source(source_index));
        assert(all.skip(0) =~= all);
    }
    let mut k: usize = 0;
    while k < found.len()
        invariant
            k <= found@.len(),
            group_of_source(all.skip(k as int), source_index as int) == group_of_source(
                all,
                source_index as int,
            ),
        decreases found@.len() - k,
    {
        proof {
            assert(found_matches(
                found@[k as int],
                all[k as int],
                cells@.len() as int,
            ));
            assert(all.skip(k as int)[0] == all[k as int]);
            assert(all.skip(k as int).skip(1) =~= all.skip(k + 1));
        }
        let start: usize = found[k].start;
        let analysis = &found[k].analysis;
        if start <= source_index && source_index - start < analysis.source_cells {
            return Some(
                CompactToolGroupSourceRange {
                    id: analysis.id,
                    source_start: start,
                    source_cells: analysis.source_cells,
                    consumed_cells: analysis.consumed_cells,
                },
            );
        }
        k += 1;
    }
    None
}

#[verifier::loop_isolation(false)]
pub fn compact_tool_group_id_containing_cell(
    metrics: &mut QuietLedger,
    cells: &Vec<Arc<HistoryCell>>,
    target: u64,
) -> (r: Option<CompactToolGroupId>)
    ensures
        r == (match group_of_record(cells@, groups_of(cells@), target) {
            Some(g) => Some(g.id),
            None => None,
        }),
        ledger::counted(
            *old(metrics),
            *final(metrics),
            search_scans(cells@, 0, GroupSearch::Record(target)),
        ),
{
    let found = find_groups(metrics, cells, GroupSearch::Record(target));
    let ghost groups = groups_of(cells@);
    let ghost all = groups_until(groups, cells@, GroupSearch::Record(target));
    proof {
        lemma_groups_in_bounds(cells@, 0);
        lemma_until_record(groups, cells@, target);
        lemma_until_in_bounds(groups, cells@, GroupSearch::Record(target));
        assert(all.skip(0) =~= all);
    }
    let mut k: usize = 0;
    while k < found.len()
        invariant
            k <= found@.len(),
            group_of_record(cells@, all.skip(k as int), target) == group_of_record(
                cells@,
                all,
                target,
            ),
        decreases found@.len() - k,
    {
        proof {
            assert(found_matches(
                found@[k as int],
                all[k as int],
                cells@.len() as int,
            ));
            assert(all.skip(k as int)[0] == all[k as int]);
            assert(all.skip(k as int).skip(1) =~= all.skip(k + 1));
        }
        let start: usize = found[k].start;
        let len: usize = cells.len();
        let end: usize = start + found[k].analysis.source_cells;
        if stretch_holds(cells, start, end, target) {
            return Some(found[k].analysis.id);
        }
        k += 1;
    }
    None
}

/// A stretch of the cells.
pub fn cells_between(cells: &Vec<Arc<HistoryCell>>, start: usize, end: usize) -> (r: Vec<
    Arc<HistoryCell>,
>)
    requires
        start <= end <= cells@.len(),
    ensures
        r@ == cells@.subrange(start as int, end as int),
{
    let mut out: Vec<Arc<HistoryCell>> = Vec::new();
    let mut i: usize = start;
    while i < end
        invariant
            start <= i <= end <= cells@.len(),
            out@ == cells@.subrange(start as int, i as int),
        decreases end - i,
    {
        out.push(history_cell::share(&cells[i]));
        proof {
            assert(out@ =~= cells@.subrange(start as int, i + 1));
        }
        i += 1;
    }
    out
}

pub open spec fn sources_of(cells: Seq<Arc<HistoryCell>>, g: GroupModel) -> Seq<Arc<HistoryCell>> {
    cells.subrange(g.start, g.start + g.sources)
}

/// The source cells of the group with the given identifier.
pub fn compact_tool_group_cells_by_id(
    metrics: &mut QuietLedger,
    cells: &Vec<Arc<HistoryCell>>,
    id: CompactToolGroupId,
) -> (r: Option<Vec<Arc<HistoryCell>>>)
    ensures
        ledger::counted(
            *old(metrics),
            *final(metrics),
            search_scans(cells@, 0, GroupSearch::Id(id)),
        ),
        match r {
            Some(found) => group_with_id(groups_of(cells@), id) matches Some(g) && found@
                == sources_of(cells@, g),
            None => group_with_id(groups_of(cells@), id) is None,
        },
{
    let len: usize = cells.len();
    match find_group_by_id(metrics, cells, id) {
        Some(found) => Some(
            cells_between(cells, found.start, found.start + found.analysis.source_cells),
        ),
        None => None,
    }
}

#[verifier::loop_isolation(false)]
fn find_group_by_id(
    metrics: &mut QuietLedger,
    cells: &Vec<Arc<HistoryCell>>,
    id: CompactToolGroupId,
) -> (r: Option<FoundGroup>)
    ensures
        ledger::counted(
            *old(metrics),
            *final(metrics),
            search_scans(cells@, 0, GroupSearch::Id(id)),
        ),
        match r {
            Some(found) => group_with_id(groups_of(cells@), id) matches Some(g) && found_matches(
                found,
                g,
                cells@.len() as int,
            ),
            None => group_with_id(groups_of(cells@), id) is None,
        },
{
    let mut found = find_groups(metrics, cells, GroupSearch::Id(id));
    let ghost groups = groups_of(cells@);
    let ghost all = groups_until(groups, cells@, GroupSearch::Id(id));
    let ghost listed = found@;
    proof {
        lemma_groups_in_bounds(cells@, 0);
        lemma_until_id(groups, cells@, id);
        lemma_until_in_bounds(groups, cells@, GroupSearch::Id(id));
        assert(all.skip(0) =~= all);
    }
    let mut k: usize = 0;
    while k < found.len()
        invariant
            k <= found@.len(),
            found@ == listed,
            group_with_id(all.skip(k as int), id) == group_with_id(all, id),
        decreases found@.len() - k,
    {
        proof {
            assert(found_matches(
                found@[k as int],
                all[k as int],
                cells@.len() as int,
            ));
            assert(all.skip(k as int)[0] == all[k as int]);
            assert(all.skip(k as int).skip(1) =~= all.skip(k + 1));
        }
        if found[k].analysis.id == id {
            return Some(found.swap_remove(k));
        }
        k += 1;
    }
    None
}

/// The identifier of the last group.
pub fn latest_compact_tool_group_id(
    metrics: &mut QuietLedger,
    cells: &Vec<Arc<HistoryCell>>,
) -> (r: Option<CompactToolGroupId>)
    ensures
        ledger::counted(*old(metrics), *final(metrics), all_scans(cells@)),
        r == (if groups_of(cells@).len() > 0 {
            Some(groups_of(cells@).last().id)
        } else {
            None
        }),
{
    let found = find_all_groups(metrics, cells);
    if found.len() == 0 {
        None
    } else {
        proof {
            assert(found_matches(
                found@[found@.len() - 1],
                groups_of(cells@)[found@.len() - 1],
                cells@.len() as int,
            ));
        }
        Some(found[found.len() - 1].analysis.id)
    }
}

/// The source cells of the last group.
pub fn latest_compact_tool_group_cells(
    metrics: &mut QuietLedger,
    cells: &Vec<Arc<HistoryCell>>,
) -> (r: Option<Vec<Arc<HistoryCell>>>)
    ensures
        ledger::counted(*old(metrics), *final(metrics), all_scans(cells@)),
        match r {
            Some(found) => groups_of(cells@).len() > 0 && found@ == sources_of(
                cells@,
                groups_of(cells@).last(),
            ),
            None => groups_of(cells@).len() == 0,
        },
{
    let len: usize = cells.len();
    let found = find_all_groups(metrics, cells);
    if found.len() == 0 {
        return None;
    }
    let last = &found[found.len() - 1];
    proof {
        lemma_groups_in_bounds(cells@, 0);
        assert(found_matches(*last, groups_of(cells@).last(), cells@.len() as int));
    }
    Some(cells_between(cells, last.start, last.start + last.analysis.source_cells))
}

/// A Work row. The source cells stay intact for plain mode, transcripts, replay and selection.
pub struct CompactToolGroupCell {
    pub id: CompactToolGroupId,
    pub action_count: usize,
    pub expanded: bool,
    pub source_cells: Vec<Arc<HistoryCell>>,
    pub detail: String,
}

/// A cell of the projected conversation.
pub enum ViewCell {
    Source(Arc<HistoryCell>),
    Work(Arc<CompactToolGroupCell>),
}

/// A cell of the projected conversation as a mathematical value.
pub enum ShownCell {
    Source(Arc<HistoryCell>),
    Work {
        id: CompactToolGroupId,
        actions: int,
        expanded: bool,
        sources: Seq<Arc<HistoryCell>>,
        detail: Seq<char>,
    },
}

impl View for ViewCell {
    type V = ShownCell;

    open spec fn view(&self) -> ShownCell {
        match *self {
            ViewCell::Source(cell) => ShownCell::Source(cell),
            ViewCell::Work(work) => ShownCell::Work {
                id: work.id,
                actions: work.action_count as int,
                expanded: work.expanded,
                sources: work.source_cells@,
                detail: work.detail@,
            },
        }
    }
}

impl ViewCell {
    /// Another handle to the same cell.
    pub fn share(&self) -> (r: ViewCell)
        ensures
            r == *self,
    {
        match self {
            ViewCell::Source(cell) => ViewCell::Source(history_cell::share(cell)),
            ViewCell::Work(work) => ViewCell::Work(history_cell::share(work)),
        }
    }
}

pub open spec fn shown(cells: Seq<ViewCell>) -> Seq<ShownCell> {
    Seq::new(cells.len(), |i: int| cells[i]@)
}

pub open spec fn as_sources(cells: Seq<Arc<HistoryCell>>) -> Seq<ShownCell> {
    Seq::new(cells.len(), |i: int| ShownCell::Source(cells[i]))
}

/// The row of a group, followed by its sources where it is expanded.
pub open spec fn group_rows(cells: Seq<Arc<HistoryCell>>, g: GroupModel, expanded: bool) -> Seq<
    ShownCell,
> {
    let header = seq![
        ShownCell::Work {
            id: g.id,
            actions: g.actions,
            expanded,
            sources: sources_of(cells, g),
            detail: g.detail,
        },
    ];
    if expanded {
        header + as_sources(sources_of(cells, g))
    } else {
        header
    }
}

/// The cells without the seals.
pub open spec fn unsealed(cells: Seq<Arc<HistoryCell>>) -> Seq<Arc<HistoryCell>>
    decreases cells.len(),
{
    if cells.len() == 0 {
        Seq::empty()
    } else if tool_run_projection::seal_of(*cells.last()) is Some {
        unsealed(cells.drop_last())
    } else {
        unsealed(cells.drop_last()).push(cells.last())
    }
}

/// The projection of the cells from `i` on: a row for each group, every other cell as it is, and
/// no seals.
pub open spec fn folded_from(
    cells: Seq<Arc<HistoryCell>>,
    expanded: Seq<CompactToolGroupId>,
    i: int,
) -> Seq<ShownCell>
    decreases cells.len() - i,
{
    if i >= cells.len() {
        Seq::empty()
    } else {
        match group_at(cells, i) {
            Some(g) => if g.sources >= 1 && i + g.sources < cells.len() {
                group_rows(cells, g, expanded.contains(g.id)) + folded_from(
                    cells,
                    expanded,
                    i + g.sources + 1,
                )
            } else {
                Seq::empty()
            },
            None => if tool_run_projection::seal_of(*cells[i]) is Some {
                folded_from(cells, expanded, i + 1)
            } else {
                seq![ShownCell::Source(cells[i])] + folded_from(cells, expanded, i + 1)
            },
        }
    }
}

/// The projection of a conversation: folded, or merely without its seals.
pub open spec fn projection(
    cells: Seq<Arc<HistoryCell>>,
    compact: bool,
    expanded: Seq<CompactToolGroupId>,
) -> Seq<ShownCell> {
    if compact {
        folded_from(cells, expanded, 0)
    } else {
        as_sources(unsealed(cells))
    }
}

fn push_sources(out: &mut Vec<ViewCell>, cells: &Vec<Arc<HistoryCell>>, start: usize, end: usize)
    requires
        start <= end <= cells@.len(),
    ensures
        shown(final(out)@) == shown(old(out)@) + as_sources(
            cells@.subrange(start as int, end as int),
        ),
{
    let ghost before = shown(out@);
    let mut i: usize = start;
    proof {
        assert(before + as_sources(cells@.subrange(start as int, start as int)) =~= before);
    }
    while i < end
        invariant
            start <= i <= end <= cells@.len(),
            shown(out@) == before + as_sources(cells@.subrange(start as int, i as int)),
        decreases end - i,
    {
        let ghost prior = out@;
        out.push(ViewCell::Source(history_cell::share(&cells[i])));
        proof {
            assert(shown(out@) =~= shown(prior).push(ShownCell::Source(cells@[i as int])));
            assert(as_sources(cells@.subrange(start as int, i + 1)) =~= as_sources(
                cells@.subrange(start as int, i as int),
            ).push(ShownCell::Source(cells@[i as int])));
            assert(shown(out@) =~= before + as_sources(cells@.subrange(start as int, i + 1)));
        }
        i += 1;
    }
}

/// Appends the rows of one group.
fn push_group(
    out: &mut Vec<ViewCell>,
    cells: &Vec<Arc<HistoryCell>>,
    start: usize,
    analysis: CompactToolGroupAnalysis,
    expanded: bool,
    group: Ghost<GroupModel>,
)
    requires
        analysis_matches(Some(analysis), Some(group@)),
        group@.start == start,
        start + group@.sources < cells@.len(),
    ensures
        shown(final(out)@) == shown(old(out)@) + group_rows(cells@, group@, expanded),
{
    let len: usize = cells.len();
    let end: usize = start + analysis.source_cells;
    let work = CompactToolGroupCell {
        id: analysis.id,
        action_count: analysis.action_count,
        expanded,
        source_cells: cells_between(cells, start, end),
        detail: analysis.detail,
    };
    let ghost before = out@;
    out.push(ViewCell::Work(Arc::new(work)));
    let ghost with_header = out@;
    proof {
        assert(shown(with_header) =~= shown(before).push(with_header.last()@));
        assert(shown(with_header) =~= shown(before) + group_rows(cells@, group@, false).update(
            0,
            with_header.last()@,
        ));
    }
    if expanded {
        push_sources(out, cells, start, end);
        proof {
            assert(shown(out@) =~= shown(before) + group_rows(cells@, group@, true));
        }
    }
}

pub proof fn lemma_folded_without_seals(
    cells: Seq<Arc<HistoryCell>>,
    expanded: Seq<CompactToolGroupId>,
    i: int,
)
    requires
        0 <= i <= cells.len(),
        forall|j: int|
            i <= j < cells.len() ==> tool_run_projection::seal_of(*(#[trigger] cells[j])) is None,
    ensures
        folded_from(cells, expanded, i) == as_sources(cells.skip(i)),
    decreases cells.len() - i,
{
    if i < cells.len() {
        lemma_group_bounds(cells, i);
        lemma_folded_without_seals(cells, expanded, i + 1);
        assert(as_sources(cells.skip(i)) =~= seq![ShownCell::Source(cells[i])] + as_sources(
            cells.skip(i + 1),
        ));
    } else {
        assert(as_sources(cells.skip(i)) =~= Seq::empty());
    }
}

/// What a projection counts. Cells that are not folded are not classified.
pub open spec fn projection_scans(cells: Seq<Arc<HistoryCell>>, compact: bool) -> Seq<Tally> {
    if compact {
        all_scans(cells)
    } else {
        Seq::empty()
    }
}

/// Builds the cells that the viewport retains.
#[verifier::loop_isolation(false)]
pub fn project_owned_cells_with_expanded(
    metrics: &mut QuietLedger,
    cells: &Vec<Arc<HistoryCell>>,
    compact_tool_groups: bool,
    expanded_groups: &Vec<CompactToolGroupId>,
) -> (r: Vec<ViewCell>)
    ensures
        shown(r@) == projection(cells@, compact_tool_groups, expanded_groups@),
        ledger::counted(
            *old(metrics),
            *final(metrics),
            projection_scans(cells@, compact_tool_groups),
        ),
{
    let mut out: Vec<ViewCell> = Vec::new();
    let ghost counters = *metrics;
    proof {
        ledger::lemma_counted_nothing(counters);
    }
    if !compact_tool_groups {
        let mut i: usize = 0;
        proof {
            assert(shown(out@) =~= as_sources(unsealed(cells@.take(0))));
        }
        while i < cells.len()
            invariant
                i <= cells@.len(),
                shown(out@) == as_sources(unsealed(cells@.take(i as int))),
            decreases cells@.len() - i,
        {
            proof {
                assert(cells@.take(i + 1).drop_last() =~= cells@.take(i as int));
            }
            if tool_run_projection::seal_cell(&cells[i]).is_none() {
                let ghost prior = out@;
                out.push(ViewCell::Source(history_cell::share(&cells[i])));
                proof {
                    let cell = cells@[i as int];
                    assert(cells@.take(i + 1).last() == cell);
                    assert(unsealed(cells@.take(i + 1)) == unsealed(cells@.take(i as int)).push(
                        cell,
                    ));
                    assert(shown(out@) =~= shown(prior).push(ShownCell::Source(cell)));
                    assert(as_sources(unsealed(cells@.take(i + 1))) =~= as_sources(
                        unsealed(cells@.take(i as int)),
                    ).push(ShownCell::Source(cell)));
                }
            }
            i += 1;
        }
        proof {
            assert(cells@.take(cells@.len() as int) =~= cells@);
        }
        return out;
    }
    let last = last_tool_run_seal_index(cells);
    let mut index: usize = 0;
    let ghost whole = folded_from(cells@, expanded_groups@, 0);
    let ghost listed = all_scans(cells@);
    let ghost mut scans: Seq<Tally> = Seq::empty();
    proof {
        assert(shown(out@) + whole =~= whole);
        assert(scans + listed =~= listed);
    }
    while index < cells.len()
        invariant
            index <= cells@.len(),
            shown(out@) + folded_from(cells@, expanded_groups@, index as int) == whole,
            scans + search_scans(cells@, index as int, GroupSearch::All) == listed,
            ledger::counted(counters, *metrics, scans),
        decreases cells@.len() - index,
    {
        let past_last = match last {
            Some(position) => index > position,
            None => true,
        };
        if past_last {
            proof {
                lemma_folded_without_seals(cells@, expanded_groups@, index as int);
                assert(cells@.subrange(index as int, cells@.len() as int) =~= cells@.skip(
                    index as int,
                ));
                assert(!sealed_from(cells@, index as int));
                assert(scans + Seq::<Tally>::empty() =~= scans);
            }
            push_sources(&mut out, cells, index, cells.len());
            return out;
        }
        proof {
            lemma_group_bounds(cells@, index as int);
            assert(sealed_from(cells@, index as int)) by {
                assert(tool_run_projection::seal_of(*cells@[last->0 as int]) is Some);
            }
        }
        let ghost before = out@;
        let ghost counted = *metrics;
        let analysis = analyze_compact_tool_group_at(metrics, cells, index);
        proof {
            let here = analysis_scans(cells@, index as int);
            ledger::lemma_counted_concat(counters, counted, *metrics, scans, here);
            let behind = search_scans(
                cells@,
                match group_at(cells@, index as int) {
                    Some(g) => index + g.sources + 1,
                    None => index + 1,
                },
                GroupSearch::All,
            );
            assert(scans + (here + behind) =~= (scans + here) + behind);
            scans = scans + here;
        }
        match analysis {
            Some(analysis) => {
                let consumed: usize = analysis.consumed_cells;
                let expanded = holds_id(expanded_groups, analysis.id);
                let ghost g = group_at(cells@, index as int)->0;
                push_group(&mut out, cells, index, analysis, expanded, Ghost(g));
                proof {
                    let rest = folded_from(cells@, expanded_groups@, index + consumed);
                    assert(shown(before) + (group_rows(cells@, g, expanded) + rest) =~= shown(out@)
                        + rest);
                }
                index = index + consumed;
            },
            None => {
                if tool_run_projection::seal_cell(&cells[index]).is_none() {
                    out.push(ViewCell::Source(history_cell::share(&cells[index])));
                    proof {
                        let rest = folded_from(cells@, expanded_groups@, index + 1);
                        let one = ShownCell::Source(cells@[index as int]);
                        assert(shown(out@) =~= shown(before).push(one));
                        assert(shown(before) + (seq![one] + rest) =~= shown(out@) + rest);
                    }
                }
                index += 1;
            },
        }
    }
    proof {
        assert(shown(out@) + folded_from(cells@, expanded_groups@, index as int) =~= shown(out@));
        assert(scans + Seq::<Tally>::empty() =~= scans);
    }
    out
}

/// Builds the cells with every group folded.
pub fn project_owned_cells(
    metrics: &mut QuietLedger,
    cells: &Vec<Arc<HistoryCell>>,
    compact_tool_groups: bool,
) -> (r: Vec<ViewCell>)
    ensures
        ledger::counted(
            *old(metrics),
            *final(metrics),
            projection_scans(cells@, compact_tool_groups),
        ),
        shown(r@) == projection(cells@, compact_tool_groups, Seq::empty()),
{
    let none: Vec<CompactToolGroupId> = Vec::new();
    project_owned_cells_with_expanded(metrics, cells, compact_tool_groups, &none)
}

/// The position behind the last cell before `end` that cannot lie inside a run.
pub open spec fn run_start(cells: Seq<Arc<HistoryCell>>, end: int) -> int
    decreases end,
{
    if end <= 0 || !inside_run(cells[end - 1]) {
        end
    } else {
        run_start(cells, end - 1)
    }
}

/// The group that the seal at `seal_index` completes.
pub open spec fn group_before_seal(cells: Seq<Arc<HistoryCell>>, seal_index: int) -> Option<
    GroupModel,
> {
    if 0 <= seal_index < cells.len() && tool_run_projection::seal_of(*cells[seal_index]) is Some {
        group_at(cells, run_start(cells, seal_index))
    } else {
        None
    }
}

pub proof fn lemma_run_end_of_stretch(cells: Seq<Arc<HistoryCell>>, start: int, end: int)
    requires
        0 <= start <= end < cells.len(),
        forall|j: int| start <= j < end ==> inside_run(#[trigger] cells[j]),
        !inside_run(cells[end]),
    ensures
        run_end(cells, start) == end,
    decreases end - start,
{
    if start < end {
        lemma_run_end_of_stretch(cells, start + 1, end);
    }
}

/// What the search backwards from a seal to the start of its run counts, the cell that ends it
/// included.
pub open spec fn backward_scans(cells: Seq<Arc<HistoryCell>>, end: int) -> Seq<Tally>
    decreases end,
{
    if end <= 0 {
        Seq::empty()
    } else if inside_run(cells[end - 1]) {
        cell_scans(cells[end - 1]) + backward_scans(cells, end - 1)
    } else {
        cell_scans(cells[end - 1])
    }
}

/// What the search for the group that a seal completes counts.
pub open spec fn seal_scans(cells: Seq<Arc<HistoryCell>>, seal_index: int) -> Seq<Tally> {
    if 0 <= seal_index < cells.len() && tool_run_projection::seal_of(*cells[seal_index]) is Some {
        backward_scans(cells, seal_index) + analysis_scans(cells, run_start(cells, seal_index))
    } else {
        Seq::empty()
    }
}

/// The group that the seal at `seal_index` completes.
#[verifier::loop_isolation(false)]
fn analyze_before_seal(
    metrics: &mut QuietLedger,
    cells: &Vec<Arc<HistoryCell>>,
    seal_index: usize,
) -> (r: Option<FoundGroup>)
    ensures
        match r {
            Some(found) => group_before_seal(cells@, seal_index as int) matches Some(g)
                && found_matches(found, g, cells@.len() as int) && g.start + g.sources
                == seal_index,
            None => group_before_seal(cells@, seal_index as int) is None,
        },
        ledger::counted(
            *old(metrics),
            *final(metrics),
            seal_scans(cells@, seal_index as int),
        ),
{
    let len: usize = cells.len();
    let ghost counters = *metrics;
    proof {
        ledger::lemma_counted_nothing(counters);
    }
    if seal_index >= len || tool_run_projection::seal_cell(&cells[seal_index]).is_none() {
        return None;
    }
    let ghost whole = backward_scans(cells@, seal_index as int);
    let ghost mut scans: Seq<Tally> = Seq::empty();
    let mut start: usize = seal_index;
    let mut inside = true;
    proof {
        assert(scans + whole =~= whole);
    }
    while inside && start > 0
        invariant
            start <= seal_index,
            run_start(cells@, start as int) == run_start(cells@, seal_index as int),
            forall|j: int| start <= j < seal_index ==> inside_run(#[trigger] cells@[j]),
            inside ==> scans + backward_scans(cells@, start as int) == whole,
            !inside ==> scans == whole && start > 0 && !inside_run(cells@[start - 1]),
            ledger::counted(counters, *metrics, scans),
        decreases start, if inside { 1int } else { 0int },
    {
        let ghost before = *metrics;
        let item = tool_classification::tool_group_item(metrics, &cells[start - 1]);
        proof {
            let here = cell_scans(cells@[start - 1]);
            ledger::lemma_counted_concat(counters, before, *metrics, scans, here);
            let behind = backward_scans(cells@, start - 1);
            assert(scans + (here + behind) =~= (scans + here) + behind);
            scans = scans + here;
        }
        if item.is_some() || tool_classification::is_transparent_tool_group_cell(
            &cells[start - 1],
        ) {
            start -= 1;
        } else {
            inside = false;
        }
    }
    let ghost before = *metrics;
    proof {
        assert(scans + Seq::<Tally>::empty() =~= scans);
        lemma_run_end_of_stretch(cells@, start as int, seal_index as int);
        lemma_group_bounds(cells@, start as int);
        reveal(group_at);
    }
    let analysis = analyze_compact_tool_group_at(metrics, cells, start);
    proof {
        ledger::lemma_counted_concat(
            counters,
            before,
            *metrics,
            whole,
            analysis_scans(cells@, start as int),
        );
    }
    match analysis {
        None => None,
        Some(analysis) => {
            if start + analysis.consumed_cells != seal_index + 1 {
                return None;
            }
            Some(FoundGroup { start, analysis })
        },
    }
}

/// The rows of one group, with the range of source cells that they stand for.
pub struct CompactToolGroupProjection {
    pub id: CompactToolGroupId,
    pub source_start: usize,
    pub source_cells: usize,
    pub cells: Vec<ViewCell>,
}

pub open spec fn projection_matches(
    found: Option<CompactToolGroupProjection>,
    cells: Seq<Arc<HistoryCell>>,
    group: Option<GroupModel>,
    expanded: bool,
) -> bool {
    match found {
        Some(p) => group matches Some(g) && {
            &&& p.id == g.id
            &&& p.source_start == g.start
            &&& p.source_cells == g.sources
            &&& shown(p.cells@) == group_rows(cells, g, expanded)
        },
        None => group is None,
    }
}

fn project_group(
    cells: &Vec<Arc<HistoryCell>>,
    found: FoundGroup,
    expanded: bool,
    group: Ghost<GroupModel>,
) -> (r: CompactToolGroupProjection)
    requires
        found_matches(found, group@, cells@.len() as int),
    ensures
        projection_matches(Some(r), cells@, Some(group@), expanded),
{
    let id = found.analysis.id;
    let source_cells: usize = found.analysis.source_cells;
    let source_start: usize = found.start;
    let mut rows: Vec<ViewCell> = Vec::new();
    push_group(&mut rows, cells, source_start, found.analysis, expanded, group);
    proof {
        assert(shown(rows@) =~= group_rows(cells@, group@, expanded));
    }
    CompactToolGroupProjection { id, source_start, source_cells, cells: rows }
}

pub fn compact_tool_group_before_seal(
    metrics: &mut QuietLedger,
    cells: &Vec<Arc<HistoryCell>>,
    seal_index: usize,
    expanded: bool,
) -> (r: Option<CompactToolGroupProjection>)
    ensures
        ledger::counted(
            *old(metrics),
            *final(metrics),
            seal_scans(cells@, seal_index as int),
        ),
        projection_matches(r, cells@, group_before_seal(cells@, seal_index as int), expanded),
{
    match analyze_before_seal(metrics, cells, seal_index) {
        Some(found) => Some(
            project_group(
                cells,
                found,
                expanded,
                Ghost(group_before_seal(cells@, seal_index as int)->0),
            ),
        ),
        None => None,
    }
}

pub fn seal_completes_compact_tool_group(
    metrics: &mut QuietLedger,
    cells: &Vec<Arc<HistoryCell>>,
    seal_index: usize,
) -> (r: bool)
    ensures
        ledger::counted(
            *old(metrics),
            *final(metrics),
            seal_scans(cells@, seal_index as int),
        ),
        r == (group_before_seal(cells@, seal_index as int) is Some),
{
    analyze_before_seal(metrics, cells, seal_index).is_some()
}

pub fn compact_tool_group_projection_by_id(
    metrics: &mut QuietLedger,
    cells: &Vec<Arc<HistoryCell>>,
    id: CompactToolGroupId,
    expanded: bool,
) -> (r: Option<CompactToolGroupProjection>)
    ensures
        ledger::counted(
            *old(metrics),
            *final(metrics),
            search_scans(cells@, 0, GroupSearch::Id(id)),
        ),
        projection_matches(r, cells@, group_with_id(groups_of(cells@), id), expanded),
{
    match find_group_by_id(metrics, cells, id) {
        Some(found) => Some(
            project_group(
                cells,
                found,
                expanded,
                Ghost(group_with_id(groups_of(cells@), id)->0),
            ),
        ),
        None => None,
    }
}

/// The group whose row is hit. A Work cell has one row.
pub open spec fn header_hit(cell: ShownCell, row_within_cell: int) -> Option<CompactToolGroupId> {
    match cell {
        ShownCell::Work { id, actions, expanded, sources, detail } => if row_within_cell < 1 {
            Some(id)
        } else {
            None
        },
        ShownCell::Source(_) => None,
    }
}

pub fn compact_tool_group_header_id(cell: &ViewCell, row_within_cell: usize) -> (r: Option<
    CompactToolGroupId,
>)
    ensures
        r == header_hit(cell@, row_within_cell as int),
{
    match cell {
        ViewCell::Work(work) => if row_within_cell < 1 {
            Some(work.id)
        } else {
            None
        },
        ViewCell::Source(_) => None,
    }
}

/// How much a Work row says: the whole detail, the number of actions, or only its name.
#[derive(Clone, Copy, Debug, PartialEq, Eq, Structural)]
pub enum WorkRowForm {
    Full,
    Medium,
    Narrow,
}

pub open spec fn work_row_text(
    detail: Seq<char>,
    actions: nat,
    expanded: bool,
    form: WorkRowForm,
) -> Seq<char> {
    let head = (if expanded {
        "▾ "@
    } else {
        "▸ "@
    }) + "Work"@;
    match form {
        WorkRowForm::Full => head + ": "@ + detail,
        WorkRowForm::Medium => head + ": "@ + text::decimal(actions) + " actions"@,
        WorkRowForm::Narrow => head,
    }
}

/// The text of a Work row in one of its forms.
pub fn work_row(detail: &str, action_count: usize, expanded: bool, form: WorkRowForm) -> (r: String)
    ensures
        r@ == work_row_text(detail@, action_count as nat, expanded, form),
{
    let mut out = String::new();
    out.append(
        if expanded {
            "▾ "
        } else {
            "▸ "
        },
    );
    out.append("Work");
    proof {
        assert(out@ =~= (if expanded {
            "▾ "@
        } else {
            "▸ "@
        }) + "Work"@);
    }
    match form {
        WorkRowForm::Full => {
            out.append(": ");
            out.append(detail);
        },
        WorkRowForm::Medium => {
            out.append(": ");
            out.append(text::decimal_string(action_count as u64).as_str());
            out.append(" actions");
        },
        WorkRowForm::Narrow => {},
    }
    out
}

/// The columns that a line of text takes on the screen.
pub uninterp spec fn text_columns(line: Seq<char>) -> usize;

/// Calls `ratatui::text::Line::width` on a line of one span: the columns that it takes on the
/// screen. An ellipsis takes one.
#[verifier::external_body]
fn count_columns(line: &str) -> (r: usize)
    ensures
        r == text_columns(line@),
        line@ == seq!['…'] ==> r == 1,
{
    ratatui::text::Line::from(ratatui::text::Span::raw(line)).width()
}

/// The characters of a line as a reader sees them, each with the marks that belong to it.
pub uninterp spec fn graphemes_of(line: Seq<char>) -> Seq<Seq<char>>;

/// Calls `ratatui::text::Span::styled_graphemes` on an unstyled span: the graphemes of the line,
/// in order. Line breaks are left out; a line without one is what its graphemes make up.
#[verifier::external_body]
fn split_graphemes(line: &str) -> (r: Vec<String>)
    ensures
        text::views(r@) == graphemes_of(line@),
        !line@.contains('\n') ==> text::joined(text::views(r@), Seq::empty()) == line@,
{
    let span = ratatui::text::Span::raw(line);
    span.styled_graphemes(ratatui::style::Style::default()).map(
        |grapheme| grapheme.symbol.to_string(),
    ).collect()
}

/// The first `kept` graphemes of a line, with an ellipsis for the others.
pub open spec fn shortened(graphemes: Seq<Seq<char>>, kept: int) -> Seq<char> {
    text::joined(graphemes.take(kept), Seq::empty()).push('…')
}

/// The largest number of graphemes, up to `kept`, that fit the columns together with an ellipsis.
pub open spec fn fitting_graphemes(graphemes: Seq<Seq<char>>, kept: int, columns: int) -> int
    decreases kept,
{
    if kept <= 0 || text_columns(shortened(graphemes, kept)) <= columns {
        kept
    } else {
        fitting_graphemes(graphemes, kept - 1, columns)
    }
}

/// A line, cut off behind a grapheme with an ellipsis where it does not fit the columns.
pub open spec fn cut_line(line: Seq<char>, columns: int) -> Seq<char> {
    let graphemes = graphemes_of(line);
    if text_columns(line) <= columns {
        line
    } else {
        shortened(graphemes, fitting_graphemes(graphemes, graphemes.len() as int, columns))
    }
}

/// Cuts a line off so that it fits the columns.
pub fn truncate_line_with_ellipsis(line: &str, columns: usize) -> (r: String)
    requires
        columns > 0,
    ensures
        r@ == cut_line(line@, columns as int),
        text_columns(r@) <= columns,
        text_columns(line@) > columns && !line@.contains('\n') ==> exists|kept: int|
            0 <= kept <= line@.len() && r@ == #[trigger] line@.take(kept).push('…'),
{
    if count_columns(line) <= columns {
        return text::owned(line);
    }
    let graphemes = split_graphemes(line);
    let ghost all = text::views(graphemes@);
    let mut kept: usize = graphemes.len();
    loop
        invariant
            kept <= graphemes@.len(),
            columns > 0,
            all == text::views(graphemes@),
            all == graphemes_of(line@),
            !line@.contains('\n') ==> text::joined(all, Seq::empty()) == line@,
            text_columns(line@) > columns,
            fitting_graphemes(all, kept as int, columns as int) == fitting_graphemes(
                all,
                all.len() as int,
                columns as int,
            ),
        decreases kept,
    {
        let mut out = text::join_first(&graphemes, kept, "");
        out.push('…');
        proof {
            reveal_strlit("");
            assert(""@ =~= Seq::<char>::empty());
            assert(out@ =~= shortened(all, kept as int));
            if kept == 0 {
                assert(all.take(0) =~= Seq::<Seq<char>>::empty());
                assert(out@ =~= seq!['…']);
            }
            text::lemma_joined_prefix_of(all, kept as int);
            let head = text::joined(all.take(kept as int), Seq::empty());
            if !line@.contains('\n') {
                assert(out@ == line@.take(head.len() as int).push('…'));
            }
        }
        if count_columns(out.as_str()) <= columns || kept == 0 {
            return out;
        }
        kept -= 1;
    }
}

/// The columns that the full and the medium form of a Work row take on the screen.
#[derive(Clone, Copy, Debug, PartialEq, Eq, Structural)]
pub struct WorkRowColumns {
    pub full: usize,
    pub medium: usize,
}

/// The longest form that fits the width; the narrow form is used even where it does not fit.
pub open spec fn fitting_form(columns: WorkRowColumns, width: u16) -> WorkRowForm {
    if columns.full <= width {
        WorkRowForm::Full
    } else if columns.medium <= width {
        WorkRowForm::Medium
    } else {
        WorkRowForm::Narrow
    }
}

/// The one row of a group.
pub struct WorkRow {
    pub text: String,
}

/// The columns that the forms of a row take.
pub open spec fn row_columns(detail: Seq<char>, actions: nat, expanded: bool) -> WorkRowColumns {
    WorkRowColumns {
        full: text_columns(work_row_text(detail, actions, expanded, WorkRowForm::Full)),
        medium: text_columns(work_row_text(detail, actions, expanded, WorkRowForm::Medium)),
    }
}

/// The columns of a row at a width; a row never has less than one.
pub open spec fn room_at(width: u16) -> int {
    if width == 0 {
        1
    } else {
        width as int
    }
}

/// The longest form that fits the width, and at the narrowest widths what fits of the last one.
pub open spec fn shown_row(detail: Seq<char>, actions: nat, expanded: bool, width: u16) -> Seq<
    char,
> {
    cut_line(
        work_row_text(
            detail,
            actions,
            expanded,
            fitting_form(row_columns(detail, actions, expanded), width),
        ),
        room_at(width),
    )
}

/// The one row that stands for a group: the longest of its forms that fits the width, cut off with
/// an ellipsis where even the last of them does not fit.
pub fn render_compact_tool_group_lines(
    detail: &str,
    action_count: usize,
    width: u16,
    expanded: bool,
) -> (r: WorkRow)
    ensures
        r.text@ == shown_row(detail@, action_count as nat, expanded, width),
        text_columns(r.text@) <= room_at(width),
{
    let full = work_row(detail, action_count, expanded, WorkRowForm::Full);
    let medium = work_row(detail, action_count, expanded, WorkRowForm::Medium);
    let columns = WorkRowColumns {
        full: count_columns(full.as_str()),
        medium: count_columns(medium.as_str()),
    };
    let row = fit_work_row(detail, action_count, width, expanded, columns);
    let room: usize = if width == 0 {
        1
    } else {
        width as usize
    };
    WorkRow { text: truncate_line_with_ellipsis(row.as_str(), room) }
}

/// The form of a row that is taken where its forms take the given columns.
pub fn fit_work_row(
    detail: &str,
    action_count: usize,
    width: u16,
    expanded: bool,
    columns: WorkRowColumns,
) -> (r: String)
    ensures
        r@ == work_row_text(detail@, action_count as nat, expanded, fitting_form(columns, width)),
{
    let form = if columns.full <= width as usize {
        WorkRowForm::Full
    } else if columns.medium <= width as usize {
        WorkRowForm::Medium
    } else {
        WorkRowForm::Narrow
    };
    work_row(detail, action_count, expanded, form)
}

/// The row that a group was last drawn with, and the width that it was drawn for.
pub struct WorkRowCache {
    pub drawn: Option<(u16, WorkRow)>,
}

/// The rendered row of a group.
pub open spec fn is_work_row(row: WorkRow, cell: CompactToolGroupCell, width: u16) -> bool {
    &&& row.text@ == shown_row(cell.detail@, cell.action_count as nat, cell.expanded, width)
    &&& text_columns(row.text@) <= room_at(width)
}

impl WorkRowCache {
    pub fn new() -> (r: Self)
        ensures
            r.drawn is None,
    {
        WorkRowCache { drawn: None }
    }

    /// The row of a group at a width, rendered only where the last draw had another width.
    pub fn display_lines(
        &mut self,
        cell: &CompactToolGroupCell,
        width: u16,
    ) -> (r: WorkRow)
        ensures
            final(self).drawn == Some((width, r)),
            match old(self).drawn {
                Some((drawn_width, row)) if drawn_width == width => r == row,
                _ => is_work_row(r, *cell, width),
            },
    {
        if let Some((drawn_width, row)) = &self.drawn {
            if *drawn_width == width {
                return WorkRow { text: row.text.clone() };
            }
        }
        let row = render_compact_tool_group_lines(
            cell.detail.as_str(),
            cell.action_count,
            width,
            cell.expanded,
        );
        self.drawn = Some(
            (width, WorkRow { text: row.text.clone() }),
        );
        row
    }
}

/// A line of a rendered transcript.
pub enum TranscriptLine {
    Blank,
    Text(String),
    Work { detail: String, action_count: usize },
}

pub enum LineModel {
    Blank,
    Text(Seq<char>),
    Work { detail: Seq<char>, actions: int },
}

impl View for TranscriptLine {
    type V = LineModel;

    open spec fn view(&self) -> LineModel {
        match *self {
            TranscriptLine::Blank => LineModel::Blank,
            TranscriptLine::Text(t) => LineModel::Text(t@),
            TranscriptLine::Work { detail, action_count } => LineModel::Work {
                detail: detail@,
                actions: action_count as int,
            },
        }
    }
}

pub open spec fn line_models(lines: Seq<TranscriptLine>) -> Seq<LineModel> {
    Seq::new(lines.len(), |i: int| lines[i]@)
}

pub open spec fn text_lines(lines: Seq<Seq<char>>) -> Seq<LineModel> {
    Seq::new(lines.len(), |i: int| LineModel::Text(lines[i]))
}

/// The blank line before a cell that starts a new paragraph, unless it is the first.
pub open spec fn separator(emitted: bool) -> Seq<LineModel> {
    if emitted {
        seq![LineModel::Blank]
    } else {
        Seq::empty()
    }
}

/// The lines of a transcript from cell `i` on. `emitted` says whether a paragraph came before.
pub open spec fn transcript_from(
    cells: Seq<Arc<HistoryCell>>,
    width: u16,
    mode: crate::history_cell::HistoryRenderMode,
    compact: bool,
    i: int,
    emitted: bool,
) -> Seq<LineModel>
    decreases cells.len() - i,
{
    if i >= cells.len() {
        Seq::empty()
    } else {
        let lines = text_lines(cells[i].lines(width, mode));
        match (if compact {
            group_at(cells, i)
        } else {
            None
        }) {
            Some(g) => if g.sources >= 1 && i + g.sources < cells.len() {
                separator(emitted) + seq![
                    LineModel::Work { detail: g.detail, actions: g.actions },
                ] + transcript_from(cells, width, mode, compact, i + g.sources + 1, true)
            } else {
                Seq::empty()
            },
            None => if lines.len() == 0 {
                transcript_from(cells, width, mode, compact, i + 1, emitted)
            } else if cells[i].stream_continuation {
                lines + transcript_from(cells, width, mode, compact, i + 1, emitted)
            } else {
                separator(emitted) + lines + transcript_from(
                    cells,
                    width,
                    mode,
                    compact,
                    i + 1,
                    true,
                )
            },
        }
    }
}

fn push_text_lines(out: &mut Vec<TranscriptLine>, lines: &Vec<String>)
    ensures
        line_models(final(out)@) == line_models(old(out)@) + text_lines(text::views(lines@)),
{
    let ghost before = line_models(out@);
    let ghost all = text_lines(text::views(lines@));
    let mut i: usize = 0;
    proof {
        assert(before + all.take(0) =~= before);
    }
    while i < lines.len()
        invariant
            i <= lines@.len(),
            all == text_lines(text::views(lines@)),
            line_models(out@) == before + all.take(i as int),
        decreases lines@.len() - i,
    {
        let ghost prior = out@;
        out.push(TranscriptLine::Text(lines[i].clone()));
        proof {
            assert(line_models(out@) =~= line_models(prior).push(all[i as int]));
            assert(all.take(i + 1) =~= all.take(i as int).push(all[i as int]));
            assert(line_models(out@) =~= before + all.take(i + 1));
        }
        i += 1;
    }
    proof {
        assert(all.take(lines@.len() as int) =~= all);
    }
}

fn push_separator(out: &mut Vec<TranscriptLine>, emitted: bool)
    ensures
        line_models(final(out)@) == line_models(old(out)@) + separator(emitted),
{
    let ghost before = out@;
    if emitted {
        out.push(TranscriptLine::Blank);
    }
    proof {
        assert(line_models(out@) =~= line_models(before) + separator(emitted));
    }
}

/// The lines of a transcript with the given groups folded.
#[verifier::loop_isolation(false)]
fn transcript_lines(
    cells: &Vec<Arc<HistoryCell>>,
    width: u16,
    render_mode: crate::history_cell::HistoryRenderMode,
    groups: &Vec<FoundGroup>,
    Ghost(compact_tool_groups): Ghost<bool>,
) -> (r: Vec<TranscriptLine>)
    requires
        groups@.len() == (if compact_tool_groups {
            groups_of(cells@).len()
        } else {
            0
        }),
        forall|k: int|
            0 <= k < groups@.len() ==> found_matches(
                #[trigger] groups@[k],
                groups_of(cells@)[k],
                cells@.len() as int,
            ),
    ensures
        line_models(r@) == transcript_from(
            cells@,
            width,
            render_mode,
            compact_tool_groups,
            0,
            false,
        ),
{
    let len: usize = cells.len();
    let mut k: usize = 0;
    let ghost listed = if compact_tool_groups {
        groups_of(cells@)
    } else {
        Seq::empty()
    };
    let mut lines: Vec<TranscriptLine> = Vec::new();
    let mut emitted = false;
    let mut i: usize = 0;
    let ghost all = transcript_from(cells@, width, render_mode, compact_tool_groups, 0, false);
    proof {
        assert(line_models(lines@) + all =~= all);
        assert(listed.skip(0) =~= listed);
    }
    while i < len
        invariant
            i <= len,
            len == cells@.len(),
            line_models(lines@) + transcript_from(
                cells@,
                width,
                render_mode,
                compact_tool_groups,
                i as int,
                emitted,
            ) == all,
            k <= listed.len(),
            compact_tool_groups ==> groups_from(cells@, i as int) == listed.skip(k as int),
        decreases len - i,
    {
        proof {
            lemma_group_bounds(cells@, i as int);
            lemma_groups_in_bounds(cells@, i + 1);
            if k < listed.len() {
                assert(listed.skip(k as int)[0] == listed[k as int]);
                assert(listed.skip(k as int).skip(1) =~= listed.skip(k + 1));
                assert(found_matches(groups@[k as int], listed[k as int], cells@.len() as int));
            }
            if compact_tool_groups {
                match group_at(cells@, i as int) {
                    Some(g) => {
                        let from = groups_from(cells@, i as int);
                        assert(from[0] == g);
                        assert(from.skip(1) =~= groups_from(cells@, i + g.sources + 1));
                    },
                    None => {
                        if k < listed.len() {
                            assert(groups_from(cells@, i + 1)[0] == listed[k as int]);
                        }
                    },
                }
            }
        }
        let ghost before = line_models(lines@);
        let group = if k < groups.len() && groups[k].start == i {
            Some(&groups[k].analysis)
        } else {
            None
        };
        match group {
            Some(group) => {
                let consumed: usize = group.consumed_cells;
                push_separator(&mut lines, emitted);
                let ghost separated = line_models(lines@);
                lines.push(
                    TranscriptLine::Work {
                        detail: group.detail.clone(),
                        action_count: group.action_count,
                    },
                );
                proof {
                    let g = group_at(cells@, i as int)->0;
                    let row = LineModel::Work { detail: g.detail, actions: g.actions };
                    let rest = transcript_from(
                        cells@,
                        width,
                        render_mode,
                        compact_tool_groups,
                        i + consumed,
                        true,
                    );
                    assert(line_models(lines@) =~= separated.push(row));
                    assert(before + (separator(emitted) + seq![row] + rest) =~= line_models(lines@)
                        + rest);
                }
                emitted = true;
                i = i + consumed;
                k += 1;
            },
            None => {
                let display = cells[i].display_lines_for_mode(width, render_mode);
                let ghost shown_lines = text_lines(cells@[i as int].lines(width, render_mode));
                if display.len() > 0 {
                    if !cells[i].stream_continuation {
                        push_separator(&mut lines, emitted);
                        push_text_lines(&mut lines, &display);
                        proof {
                            let rest = transcript_from(
                                cells@,
                                width,
                                render_mode,
                                compact_tool_groups,
                                i + 1,
                                true,
                            );
                            assert(before + (separator(emitted) + shown_lines + rest)
                                =~= line_models(lines@) + rest);
                        }
                        emitted = true;
                    } else {
                        push_text_lines(&mut lines, &display);
                        proof {
                            let rest = transcript_from(
                                cells@,
                                width,
                                render_mode,
                                compact_tool_groups,
                                i + 1,
                                emitted,
                            );
                            assert(before + (shown_lines + rest) =~= line_models(lines@) + rest);
                        }
                    }
                }
                i += 1;
            },
        }
    }
    proof {
        assert(all =~= line_models(lines@));
    }
    lines
}

/// Renders a transcript, and says whether rows at its top were cut off to keep within `row_cap`.
pub fn render_transcript_lines(
    metrics: &mut QuietLedger,
    cells: &Vec<Arc<HistoryCell>>,
    width: u16,
    render_mode: crate::history_cell::HistoryRenderMode,
    compact_tool_groups: bool,
    row_cap: Option<usize>,
) -> (r: (Vec<TranscriptLine>, bool))
    ensures
        ledger::counted(
            *old(metrics),
            *final(metrics),
            projection_scans(cells@, compact_tool_groups),
        ),
        ({
            let all = transcript_from(
                cells@,
                width,
                render_mode,
                compact_tool_groups,
                0,
                false,
            );
            let cut = row_cap matches Some(max) && all.len() > max;
            &&& r.1 == cut
            &&& line_models(r.0@) == (if cut {
                all.skip(all.len() - row_cap->0)
            } else {
                all
            })
        }),
{
    proof {
        ledger::lemma_counted_nothing(*metrics);
    }
    let groups = if compact_tool_groups {
        find_all_groups(metrics, cells)
    } else {
        Vec::new()
    };
    let mut lines = transcript_lines(
        cells,
        width,
        render_mode,
        &groups,
        Ghost(compact_tool_groups),
    );
    let ghost all = line_models(lines@);
    if let Some(max_rows) = row_cap {
        if lines.len() > max_rows {
            let trimmed: usize = lines.len() - max_rows;
            let kept = lines.split_off(trimmed);
            proof {
                assert(line_models(kept@) =~= all.skip(trimmed as int));
            }
            return (kept, true);
        }
    }
    (lines, false)
}

impl CompactToolGroupCell {
    /// The lines of the folded cells.
    pub fn expanded_lines(
        &self,
        width: u16,
        mode: crate::history_cell::HistoryRenderMode,
    ) -> (r: Vec<TranscriptLine>)
        ensures
            line_models(r@) == transcript_from(self.source_cells@, width, mode, false, 0, false),
    {
        let none: Vec<FoundGroup> = Vec::new();
        transcript_lines(&self.source_cells, width, mode, &none, Ghost(false))
    }
}

} // verus!
