//! Laws of folding: what a group is, how it is found and shown, and what an edit of the
//! conversation leaves alone.

use std::sync::Arc;

use vstd::prelude::*;

use crate::compact_tool_groups;
use crate::compact_tool_groups::CompactToolGroupId;
use crate::compact_tool_groups::GroupModel;
use crate::compact_tool_groups::LineModel;
use crate::compact_tool_groups::ShownCell;
use crate::history_cell::CellKind;
use crate::history_cell::HistoryCell;
use crate::history_cell::HistoryRenderMode;
use crate::ledger::Tally;
use crate::pane::PaneModel;
use crate::quiet_metrics;
use crate::quiet_metrics::QuietMetric;
use crate::quiet_metrics::RangeReplacementReason;
use crate::screen_model;
use crate::screen_model::GroupPlace;
use crate::screen_model::ScreenModel;
use crate::tool_classification;
use crate::tool_run_projection;
use crate::viewport_model::ViewportModel;

verus! {

/// The seals, and nothing else, are left out of what is shown.
pub proof fn law_only_seals_are_left_out(cells: Seq<Arc<HistoryCell>>)
    ensures
        compact_tool_groups::unsealed(cells) == cells.filter(
            |cell: Arc<HistoryCell>| !(cell.kind is Seal),
        ),
    decreases cells.len(),
{
    reveal(Seq::filter);
    if cells.len() > 0 {
        law_only_seals_are_left_out(cells.drop_last());
    }
}

/// A cell is a seal just where its record is one.
pub proof fn law_seals_are_records_of_their_own(cell: Arc<HistoryCell>)
    ensures
        tool_run_projection::seal_of(*cell) is Some <==> cell.kind is Seal,
        cell.kind matches CellKind::Seal(seal) ==> tool_run_projection::seal_of(*cell) == Some(
            seal,
        ),
{
}

/// Whether a stretch of cells is one run: it starts with a call, and holds nothing but calls that
/// may be folded and hidden summaries.
pub open spec fn one_run(cells: Seq<Arc<HistoryCell>>, start: int, end: int) -> bool {
    &&& 0 <= start < end <= cells.len()
    &&& tool_classification::cell_item(*cells[start]) is Some
    &&& forall|j: int|
        start <= j < end ==> tool_classification::cell_item(*(#[trigger] cells[j])) is Some
            || tool_classification::transparent(*cells[j])
}

spec fn is_seal_at(cells: Seq<Arc<HistoryCell>>, i: int) -> bool {
    cells[i].kind is Seal
}

/// A group is a run of calls with its seal right behind it, which counts the same calls, at least
/// two of them; and every such run is a group. It is named by its seal, and says what its calls
/// did.
pub proof fn law_group_is_a_sealed_run(cells: Seq<Arc<HistoryCell>>, start: int, end: int)
    requires
        0 <= start < end < cells.len(),
    ensures
        one_run(cells, start, end) ==> (cells[end].kind matches CellKind::Seal(seal) ==> {
            let did = compact_tool_groups::summary_of(cells.subrange(start, end));
            let says = compact_tool_groups::detail_text(did);
            seal.action_count == did.actions && seal.sources() == end - start && did.actions >= 2
                && says.len() > 0 ==> compact_tool_groups::group_at(cells, start) == Some(
                (GroupModel {
                    id: CompactToolGroupId(seal.run_id.0),
                    start,
                    sources: end - start,
                    detail: says,
                    actions: did.actions,
                }),
            )
        }),
        compact_tool_groups::group_at(cells, start) matches Some(g) ==> {
            let behind = start + g.sources;
            let did = compact_tool_groups::summary_of(cells.subrange(start, behind));
            &&& one_run(cells, start, behind)
            &&& behind < cells.len()
            &&& cells[behind].kind matches CellKind::Seal(seal) && g.id == CompactToolGroupId(
                seal.run_id.0,
            ) && seal.action_count == g.actions && seal.sources() == g.sources
            &&& g.start == start && g.actions == did.actions && g.actions >= 2
            &&& g.detail == compact_tool_groups::detail_text(did)
        },
{
    reveal(compact_tool_groups::group_at);
    compact_tool_groups::lemma_run_end_bounds(cells, start);
    if one_run(cells, start, end) && is_seal_at(cells, end) {
        assert(!compact_tool_groups::inside_run(cells[end]));
        assert forall|j: int| start <= j < end implies compact_tool_groups::inside_run(
            #[trigger] cells[j],
        ) by {}
        compact_tool_groups::lemma_run_end_of_stretch(cells, start, end);
    }
    if let Some(g) = compact_tool_groups::group_at(cells, start) {
        assert forall|j: int| start <= j < start + g.sources implies tool_classification::cell_item(
            *(#[trigger] cells[j]),
        ) is Some || tool_classification::transparent(*cells[j]) by {
            assert(compact_tool_groups::inside_run(cells[j]));
        }
    }
}

/// The groups of a conversation stand in order, none inside another, and none is missed: a run that
/// is a group is one of them, unless it lies in one that began before.
pub proof fn law_groups_are_all_found_in_order(
    cells: Seq<Arc<HistoryCell>>,
    i: int,
    k: int,
    j: int,
)
    requires
        0 <= i,
    ensures
        ({
            let groups = compact_tool_groups::groups_from(cells, i);
            &&& 0 <= k < groups.len() - 1 ==> groups[k].start + groups[k].sources
                < groups[k + 1].start
            &&& 0 <= k < groups.len() ==> i <= groups[k].start
                && compact_tool_groups::group_at(cells, groups[k].start) == Some(groups[k])
            &&& i <= j < cells.len() && compact_tool_groups::group_at(cells, j) is Some ==> exists|
                n: int|
                0 <= n < groups.len() && (#[trigger] groups[n]).start <= j <= groups[n].start
                    + groups[n].sources
        }),
    decreases cells.len() - i,
{
    compact_tool_groups::lemma_groups_in_bounds(cells, i);
    let groups = compact_tool_groups::groups_from(cells, i);
    if i < cells.len() {
        compact_tool_groups::lemma_group_bounds(cells, i);
        match compact_tool_groups::group_at(cells, i) {
            Some(g) => {
                let next = i + g.sources + 1;
                let rest = compact_tool_groups::groups_from(cells, next);
                compact_tool_groups::lemma_groups_in_bounds(cells, next);
                law_groups_are_all_found_in_order(cells, next, k - 1, j);
                assert(groups =~= seq![g] + rest);
                if rest.len() > 0 {
                    assert(rest[0].start >= next);
                    assert(groups[1] == rest[0]);
                }
                if k > 0 && k < groups.len() - 1 {
                    assert(groups[k] == rest[k - 1]);
                    assert(groups[k + 1] == rest[k]);
                }
                if i <= j < cells.len() && compact_tool_groups::group_at(cells, j) is Some {
                    if j < next {
                        assert(groups[0] == g);
                    } else {
                        let n = choose|n: int|
                            0 <= n < rest.len() && (#[trigger] rest[n]).start <= j <= rest[n].start
                                + rest[n].sources;
                        assert(groups[n + 1] == rest[n]);
                    }
                }
            },
            None => {
                law_groups_are_all_found_in_order(cells, i + 1, k, j);
            },
        }
    }
}

/// A group is found by one of its sources, by its name, and by one of its records: it is the first
/// one that fits, and there is none where none fits.
pub proof fn law_first_group_that_fits_is_found(
    cells: Seq<Arc<HistoryCell>>,
    groups: Seq<GroupModel>,
    index: int,
    id: CompactToolGroupId,
    record: u64,
    k: int,
)
    ensures
        0 <= k < groups.len() && groups[k].start <= index < groups[k].start + groups[k].sources && (
        forall|j: int|
            0 <= j < k ==> !((#[trigger] groups[j]).start <= index < groups[j].start
                + groups[j].sources)) ==> compact_tool_groups::group_of_source(groups, index)
            == Some(groups[k]),
        (forall|j: int|
            0 <= j < groups.len() ==> !((#[trigger] groups[j]).start <= index < groups[j].start
                + groups[j].sources)) ==> compact_tool_groups::group_of_source(groups, index)
            is None,
        0 <= k < groups.len() && groups[k].id == id && (forall|j: int|
            0 <= j < k ==> (#[trigger] groups[j]).id != id) ==> compact_tool_groups::group_with_id(
            groups,
            id,
        ) == Some(groups[k]),
        (forall|j: int| 0 <= j < groups.len() ==> (#[trigger] groups[j]).id != id)
            ==> compact_tool_groups::group_with_id(groups, id) is None,
        0 <= k < groups.len() && folds_record(cells, groups[k], record) && (forall|j: int|
            0 <= j < k ==> !folds_record(cells, #[trigger] groups[j], record))
            ==> compact_tool_groups::group_of_record(cells, groups, record) == Some(groups[k]),
        (forall|j: int| 0 <= j < groups.len() ==> !folds_record(cells, #[trigger] groups[j], record))
            ==> compact_tool_groups::group_of_record(cells, groups, record) is None,
    decreases groups.len(),
{
    if groups.len() > 0 {
        let rest = groups.skip(1);
        law_first_group_that_fits_is_found(cells, rest, index, id, record, k - 1);
        assert(forall|j: int| 0 <= j < rest.len() ==> #[trigger] rest[j] == groups[j + 1]);
        assert forall|g: GroupModel| #[trigger] folds_record(cells, g, record)
            == compact_tool_groups::holds_record(
            cells.subrange(g.start, g.start + g.sources),
            record,
        ) by {
            lemma_holds_record(cells, g, record);
        }
    }
}

/// Whether one of the sources of a group is a record.
pub open spec fn folds_record(cells: Seq<Arc<HistoryCell>>, g: GroupModel, record: u64) -> bool {
    exists|n: int|
        0 <= n < cells.subrange(g.start, g.start + g.sources).len() && (#[trigger] cells.subrange(
            g.start,
            g.start + g.sources,
        )[n]).id == record
}

proof fn lemma_holds_record(cells: Seq<Arc<HistoryCell>>, g: GroupModel, record: u64)
    ensures
        folds_record(cells, g, record) == compact_tool_groups::holds_record(
            cells.subrange(g.start, g.start + g.sources),
            record,
        ),
{
}

/// A group is shown as one row that names it and says what it did. Where it is unfolded, its
/// sources follow, each as it is.
pub proof fn law_group_is_shown_as_a_row(
    cells: Seq<Arc<HistoryCell>>,
    g: GroupModel,
    expanded: bool,
    n: int,
)
    requires
        0 <= g.start,
        0 <= g.sources,
        g.start + g.sources <= cells.len(),
    ensures
        ({
            let rows = compact_tool_groups::group_rows(cells, g, expanded);
            &&& rows[0] matches ShownCell::Work {
                id,
                actions,
                expanded: shown,
                sources,
                detail,
            } && id == g.id && actions == g.actions && shown == expanded && detail == g.detail
                && sources == cells.subrange(g.start, g.start + g.sources)
            &&& !expanded ==> rows.len() == 1
            &&& expanded ==> rows.len() == 1 + g.sources
            &&& expanded && 0 <= n < g.sources ==> rows[1 + n] == ShownCell::Source(
                cells[g.start + n],
            )
        }),
{
}

/// The cells of a projection, from the front: a group is shown by its rows, a seal not at all, and
/// any other cell as it is.
pub proof fn law_projection_shows_each_cell_in_its_place(
    cells: Seq<Arc<HistoryCell>>,
    expanded: Seq<CompactToolGroupId>,
    i: int,
)
    requires
        0 <= i < cells.len(),
    ensures
        ({
            let shown = compact_tool_groups::folded_from(cells, expanded, i);
            let group = compact_tool_groups::group_at(cells, i);
            &&& group matches Some(g) ==> shown == compact_tool_groups::group_rows(
                cells,
                g,
                expanded.contains(g.id),
            ) + compact_tool_groups::folded_from(cells, expanded, i + g.sources + 1)
            &&& group is None && cells[i].kind is Seal ==> shown
                == compact_tool_groups::folded_from(cells, expanded, i + 1)
            &&& group is None && !(cells[i].kind is Seal) ==> shown == seq![
                ShownCell::Source(cells[i]),
            ] + compact_tool_groups::folded_from(cells, expanded, i + 1)
            &&& compact_tool_groups::folded_from(cells, expanded, cells.len() as int).len() == 0
            &&& compact_tool_groups::projection(cells, true, expanded)
                == compact_tool_groups::folded_from(cells, expanded, 0)
        }),
{
    compact_tool_groups::lemma_group_bounds(cells, i);
}

/// The group that a seal completes is the run that reaches back from it to a cell that cannot lie
/// in a run.
pub proof fn law_seal_completes_the_run_before_it(
    cells: Seq<Arc<HistoryCell>>,
    start: int,
    seal: int,
)
    requires
        0 <= start <= seal < cells.len(),
        forall|j: int|
            start <= j < seal ==> tool_classification::cell_item(*(#[trigger] cells[j])) is Some
                || tool_classification::transparent(*cells[j]),
        start == 0 || !(tool_classification::cell_item(*cells[start - 1]) is Some
            || tool_classification::transparent(*cells[start - 1])),
    ensures
        cells[seal].kind is Seal ==> compact_tool_groups::group_before_seal(cells, seal)
            == compact_tool_groups::group_at(cells, start),
        !(cells[seal].kind is Seal) ==> compact_tool_groups::group_before_seal(cells, seal) is None,
{
    lemma_run_start(cells, start, seal);
}

proof fn lemma_run_start(cells: Seq<Arc<HistoryCell>>, start: int, end: int)
    requires
        0 <= start <= end <= cells.len(),
        forall|j: int|
            start <= j < end ==> tool_classification::cell_item(*(#[trigger] cells[j])) is Some
                || tool_classification::transparent(*cells[j]),
        start == 0 || !(tool_classification::cell_item(*cells[start - 1]) is Some
            || tool_classification::transparent(*cells[start - 1])),
    ensures
        compact_tool_groups::run_start(cells, end) == start,
    decreases end,
{
    if start < end {
        assert(tool_classification::cell_item(*cells[end - 1]) is Some
            || tool_classification::transparent(*cells[end - 1]));
        lemma_run_start(cells, start, end - 1);
    }
}

/// The lines of a list of cells, one after the other.
pub open spec fn all_lines(
    cells: Seq<Arc<HistoryCell>>,
    width: u16,
    mode: HistoryRenderMode,
    i: int,
) -> Seq<LineModel>
    decreases cells.len() - i,
{
    if i >= cells.len() {
        Seq::empty()
    } else {
        cells[i].lines(width, mode).map_values(|line: Seq<char>| LineModel::Text(line)) + all_lines(
            cells,
            width,
            mode,
            i + 1,
        )
    }
}

pub open spec fn without_blanks(lines: Seq<LineModel>) -> Seq<LineModel> {
    lines.filter(|line: LineModel| !(line is Blank))
}

proof fn lemma_blanks_concat(a: Seq<LineModel>, b: Seq<LineModel>)
    ensures
        without_blanks(a + b) == without_blanks(a) + without_blanks(b),
    decreases b.len(),
{
    reveal(Seq::filter);
    if b.len() == 0 {
        assert(a + b =~= a);
        assert(without_blanks(a) + without_blanks(b) =~= without_blanks(a));
    } else {
        lemma_blanks_concat(a, b.drop_last());
        assert((a + b).drop_last() =~= a + b.drop_last());
        assert((a + b).last() == b.last());
        assert(without_blanks(a + b) =~= without_blanks(a) + without_blanks(b));
    }
}

proof fn lemma_texts_stay(lines: Seq<LineModel>)
    requires
        forall|k: int| 0 <= k < lines.len() ==> !((#[trigger] lines[k]) is Blank),
    ensures
        without_blanks(lines) == lines,
    decreases lines.len(),
{
    reveal(Seq::filter);
    if lines.len() > 0 {
        lemma_texts_stay(lines.drop_last());
        assert(lines.drop_last().push(lines.last()) =~= lines);
    }
}

/// A transcript that folds nothing holds the lines of all its cells, in order, with nothing but
/// blank lines between them.
pub proof fn law_transcript_holds_every_line(
    cells: Seq<Arc<HistoryCell>>,
    width: u16,
    mode: HistoryRenderMode,
    i: int,
    emitted: bool,
)
    requires
        0 <= i <= cells.len(),
    ensures
        without_blanks(
            compact_tool_groups::transcript_from(cells, width, mode, false, i, emitted),
        ) == all_lines(cells, width, mode, i),
    decreases cells.len() - i,
{
    reveal(Seq::filter);
    if i < cells.len() {
        let lines = compact_tool_groups::text_lines(cells[i].lines(width, mode));
        let same = cells[i].lines(width, mode).map_values(|line: Seq<char>| LineModel::Text(line));
        assert(lines =~= same);
        lemma_texts_stay(lines);
        let apart = compact_tool_groups::separator(emitted);
        let after = if lines.len() == 0 || cells[i].stream_continuation {
            emitted
        } else {
            true
        };
        let rest = compact_tool_groups::transcript_from(cells, width, mode, false, i + 1, after);
        law_transcript_holds_every_line(cells, width, mode, i + 1, after);
        lemma_blanks_concat(lines, rest);
        lemma_blanks_concat(apart + lines, rest);
        lemma_blanks_concat(apart, lines);
        assert(without_blanks(apart) =~= Seq::<LineModel>::empty()) by {
            if emitted {
                assert(apart.drop_last() =~= Seq::<LineModel>::empty());
                assert(without_blanks(apart.drop_last()) =~= Seq::<LineModel>::empty());
            }
        }
        assert(Seq::<LineModel>::empty() + lines =~= lines);
        if lines.len() == 0 {
            assert(lines + all_lines(cells, width, mode, i + 1) =~= all_lines(
                cells,
                width,
                mode,
                i + 1,
            ));
        }
    }
}

/// A transcript never begins with a blank line. Behind a paragraph, one stands before the lines of
/// every cell that does not carry on the text before it, and none before those of one that does.
pub proof fn law_paragraphs_are_set_apart(
    cells: Seq<Arc<HistoryCell>>,
    width: u16,
    mode: HistoryRenderMode,
    compact: bool,
    i: int,
)
    requires
        0 <= i < cells.len(),
        compact ==> compact_tool_groups::group_at(cells, i) is None,
        cells[i].lines(width, mode).len() > 0,
    ensures
        ({
            let first = compact_tool_groups::transcript_from(cells, width, mode, compact, i, false);
            let later = compact_tool_groups::transcript_from(cells, width, mode, compact, i, true);
            let line = LineModel::Text(cells[i].lines(width, mode)[0]);
            &&& first[0] == line
            &&& cells[i].stream_continuation ==> later[0] == line
            &&& !cells[i].stream_continuation ==> later[0] is Blank && later[1] == line
        }),
{
}

/// In a transcript that folds, a group is one line that says what it did.
pub proof fn law_transcript_folds_groups(
    cells: Seq<Arc<HistoryCell>>,
    width: u16,
    mode: HistoryRenderMode,
    i: int,
    g: GroupModel,
)
    requires
        0 <= i < cells.len(),
        compact_tool_groups::group_at(cells, i) == Some(g),
    ensures
        ({
            let lines = compact_tool_groups::transcript_from(cells, width, mode, true, i, false);
            &&& lines[0] == LineModel::Work { detail: g.detail, actions: g.actions }
            &&& lines.skip(1) == compact_tool_groups::transcript_from(
                cells,
                width,
                mode,
                true,
                i + g.sources + 1,
                true,
            )
        }),
{
    compact_tool_groups::lemma_group_bounds(cells, i);
    let lines = compact_tool_groups::transcript_from(cells, width, mode, true, i, false);
    let rest = compact_tool_groups::transcript_from(
        cells,
        width,
        mode,
        true,
        i + g.sources + 1,
        true,
    );
    let work = seq![LineModel::Work { detail: g.detail, actions: g.actions }];
    assert(lines =~= work + rest);
    assert(lines.skip(1) =~= rest);
}

proof fn lemma_kept_ids(
    ids: Seq<CompactToolGroupId>,
    valid: Seq<CompactToolGroupId>,
    id: CompactToolGroupId,
    other: CompactToolGroupId,
)
    ensures
        screen_model::without(ids, id).contains(other) <==> ids.contains(other) && other != id,
        screen_model::only(ids, valid).contains(other) <==> ids.contains(other) && valid.contains(
            other,
        ),
    decreases ids.len(),
{
    if ids.len() > 0 {
        let front = ids.drop_last();
        let last = ids.last();
        lemma_kept_ids(front, valid, id, other);
        assert(ids.contains(other) <==> front.contains(other) || last == other) by {
            assert(ids =~= front.push(last));
            lemma_push_contains(front, last, other);
        }
        lemma_push_contains(screen_model::without(front, id), last, other);
        lemma_push_contains(screen_model::only(front, valid), last, other);
    }
}

proof fn lemma_push_contains(
    ids: Seq<CompactToolGroupId>,
    last: CompactToolGroupId,
    other: CompactToolGroupId,
)
    ensures
        ids.push(last).contains(other) <==> ids.contains(other) || last == other,
{
    let more = ids.push(last);
    assert(more[ids.len() as int] == last);
    if ids.contains(other) {
        let k = choose|k: int| 0 <= k < ids.len() && ids[k] == other;
        assert(more[k] == other);
    }
    if more.contains(other) {
        let k = choose|k: int| 0 <= k < more.len() && more[k] == other;
        if k < ids.len() {
            assert(ids[k] == other);
        }
    }
}

/// A group that is gone is nowhere on the screen any more, and every other one is where it was.
pub proof fn law_forgotten_group_is_nowhere(
    m: ScreenModel,
    id: CompactToolGroupId,
    other: CompactToolGroupId,
)
    ensures
        ({
            let n = m.group_forgotten(id);
            &&& !n.expanded.contains(id) && !n.pending_seals.contains(id)
            &&& n.pending_click != Some(id) && n.last_clicked != Some(id)
            &&& n.hover == 0 || n.hover != id.0
            &&& other != id ==> {
                &&& n.expanded.contains(other) == m.expanded.contains(other)
                &&& n.pending_seals.contains(other) == m.pending_seals.contains(other)
                &&& m.pending_click == Some(other) ==> n.pending_click == Some(other)
                &&& m.last_clicked == Some(other) ==> n.last_clicked == Some(other)
                &&& m.hover == other.0 ==> n.hover == other.0
            }
            &&& n.view == m.view && n.sources == m.sources
        }),
{
    lemma_kept_ids(m.expanded, Seq::empty(), id, id);
    lemma_kept_ids(m.expanded, Seq::empty(), id, other);
    lemma_kept_ids(m.pending_seals, Seq::empty(), id, id);
    lemma_kept_ids(m.pending_seals, Seq::empty(), id, other);
}

/// Of the groups, those that are still there keep what the screen knows of them, and nothing is
/// known of any other.
pub proof fn law_groups_that_stay_are_kept(
    m: ScreenModel,
    valid: Seq<CompactToolGroupId>,
    id: CompactToolGroupId,
)
    ensures
        ({
            let n = m.groups_kept(valid);
            &&& n.expanded.contains(id) <==> m.expanded.contains(id) && valid.contains(id)
            &&& n.pending_seals.contains(id) <==> m.pending_seals.contains(id) && valid.contains(id)
            &&& n.pending_click == Some(id) <==> m.pending_click == Some(id) && valid.contains(id)
            &&& n.last_clicked == Some(id) <==> m.last_clicked == Some(id) && valid.contains(id)
            &&& id.0 != 0 ==> (n.hover == id.0 <==> m.hover == id.0 && valid.contains(id))
            &&& n.view == m.view && n.sources == m.sources
        }),
{
    lemma_kept_ids(m.expanded, valid, id, id);
    lemma_kept_ids(m.pending_seals, valid, id, id);
    assert(CompactToolGroupId(m.hover).0 == m.hover);
}

/// Of new sources, the groups that were unfolded stay so where they are still there; no group waits
/// any more, and nothing is hovered over.
pub proof fn law_new_sources_keep_what_was_unfolded(
    m: ScreenModel,
    sources: Seq<Arc<HistoryCell>>,
    compact: bool,
    id: CompactToolGroupId,
)
    ensures
        ({
            let n = m.with_sources(sources, compact);
            let valid = screen_model::valid_groups(sources);
            &&& n.sources == sources && n.compact == compact
            &&& n.expanded.contains(id) <==> m.expanded.contains(id) && valid.contains(id)
            &&& n.last_clicked == Some(id) <==> m.last_clicked == Some(id) && valid.contains(id)
            &&& n.pending_seals.len() == 0
            &&& n.hover == 0 && n.hover_position is None
            &&& !compact ==> n.pending_click is None
            &&& !m.view.selecting() ==> n.view.cells == compact_tool_groups::projection(
                sources,
                compact,
                n.expanded,
            )
        }),
{
    reveal(ScreenModel::with_sources);
    reveal(ViewportModel::with_cells);
    lemma_kept_ids(m.expanded, screen_model::valid_groups(sources), id, id);
}

/// The sources of a screen are those of a transcript just where they are the same records in the
/// same order.
pub proof fn law_sources_match_record_by_record(
    m: ScreenModel,
    cells: Seq<Arc<HistoryCell>>,
    i: int,
)
    ensures
        m.sources_match(m.sources),
        m.sources_match(cells) ==> m.sources.len() == cells.len(),
        m.sources_match(cells) && 0 <= i < cells.len() ==> m.sources[i].id == cells[i].id,
        m.sources.len() == cells.len() && (forall|k: int|
            0 <= k < cells.len() ==> (#[trigger] m.sources[k]).id == cells[k].id)
            ==> m.sources_match(cells),
{
}

/// A screen that was brought in line shows the transcript of its pane, folded as the pane folds.
pub proof fn law_synced_screen_shows_the_transcript(pane: PaneModel, reason: QuietMetric, i: int)
    ensures
        pane.screen is None ==> pane.screen_synced(reason).pane == pane,
        pane.screen matches Some(screen) ==> {
            let n = pane.screen_synced(reason).pane;
            &&& n.cells == pane.cells && n.runs == pane.runs && n.facts == pane.facts
            &&& n.screen matches Some(shown) && shown.compact == pane.compact()
                && shown.sources.len() == pane.cells.len() && (0 <= i < pane.cells.len()
                ==> shown.sources[i].id == pane.cells[i].id)
        },
{
    reveal(PaneModel::screen_synced);
    reveal(ScreenModel::with_sources);
    if let Some(screen) = pane.screen {
        crate::app_laws::law_folding_is_what_was_asked_for(screen, pane.compact());
    }
}

/// A pane hands its screen what it is told: a new cell is the last source of the screen, folded as
/// the pane folds.
pub proof fn law_pane_pushes_to_its_screen(pane: PaneModel, cell: Arc<HistoryCell>)
    ensures
        pane.screen is None ==> pane.screen_pushed(cell).pane == pane,
        pane.screen matches Some(screen) ==> {
            let n = pane.screen_pushed(cell).pane;
            &&& n.cells == pane.cells && n.runs == pane.runs
            &&& n.screen matches Some(shown) && shown.sources == screen.sources.push(cell)
                && shown.compact == pane.compact() && shown.hover == 0
        },
{
    reveal(PaneModel::screen_pushed);
    if let Some(screen) = pane.screen {
        law_pushed_source_is_the_last(screen, cell, pane.compact());
    }
}

/// A source that is pushed is the last one. Unless it is a seal, it is shown behind everything
/// else; a seal shows nothing of its own.
pub proof fn law_pushed_source_is_the_last(m: ScreenModel, cell: Arc<HistoryCell>, compact: bool)
    ensures
        ({
            let n = m.source_pushed(cell, compact).screen;
            &&& n.sources == m.sources.push(cell)
            &&& n.compact == compact
            &&& n.hover == 0
            &&& !(cell.kind is Seal) && m.compact == compact && m.view.wf() && !m.view.selecting()
                ==> n.view.cells == m.view.cells.push(ShownCell::Source(cell))
            &&& cell.kind is Seal && m.compact == compact && !compact ==> n.view == m.view
        }),
{
    reveal(ScreenModel::source_pushed);
    reveal(ScreenModel::with_compact);
    reveal(ScreenModel::group_projected);
    reveal(ViewportModel::pushed);
    crate::app_laws::law_folding_is_what_was_asked_for(m.unhovered(), compact);
    assert(m.unhovered().sources == m.sources);
    lemma_folding_leaves_hover(m.unhovered(), compact);
}

proof fn lemma_folding_leaves_hover(m: ScreenModel, compact: bool)
    requires
        m.hover == 0,
    ensures
        m.with_compact(compact).screen.hover == 0,
{
    reveal(ScreenModel::with_compact);
    let valid = screen_model::valid_groups(m.sources);
    lemma_folded_hover(ScreenModel { compact: true, ..m }, valid);
}

proof fn lemma_folded_hover(m: ScreenModel, ids: Seq<CompactToolGroupId>)
    ensures
        m.groups_folded(ids).screen.hover == m.hover,
    decreases ids.len(),
{
    reveal(ScreenModel::group_projected);
    if ids.len() > 0 {
        lemma_folded_hover(m, ids.drop_last());
    }
}

/// An edit that the screen cannot show alone is refused and changes nothing: where folding is not
/// as it was asked for, past the end of the conversation, and inside a group. An edit that is done
/// exchanges just the sources that it speaks of.
pub proof fn law_refused_edits_change_nothing(
    m: ScreenModel,
    index: int,
    count: int,
    cell: Arc<HistoryCell>,
    cells: Seq<Arc<HistoryCell>>,
    compact: bool,
)
    requires
        0 <= index,
        0 <= count,
    ensures
        ({
            let one = m.source_replaced(index, cell, compact);
            let some = m.sources_spliced(index, count, cells, compact);
            &&& !one.done ==> one.screen == m
            &&& !some.done ==> some.screen == m
            &&& m.compact != compact || index >= m.sources.len() ==> !one.done
            &&& m.compact != compact || index + count > m.sources.len() ==> !some.done
            &&& one.done ==> one.screen.sources == m.sources.update(index, cell)
            &&& some.done ==> some.screen.sources == m.sources.subrange(0, index) + cells
                + m.sources.subrange(index + count, m.sources.len() as int)
            &&& m.boundary(index) is None || m.boundary(index + count) is None ==> !some.done
        }),
{
    reveal(ScreenModel::source_replaced);
    reveal(ScreenModel::sources_spliced);
    let some = m.sources_spliced(index, count, cells, compact);
    if some.done {
        assert(some.screen.sources =~= m.sources.subrange(0, index) + cells + m.sources.subrange(
            index + count,
            m.sources.len() as int,
        ));
    }
}

/// The end of the conversation is a place to edit; a place before a seal, or inside a group, is
/// none.
pub proof fn law_no_edit_begins_inside_a_group(m: ScreenModel, index: int)
    requires
        0 <= index,
    ensures
        index == m.sources.len() ==> m.boundary(index) == Some(m.view.cells.len() as int),
        index > m.sources.len() ==> m.boundary(index) is None,
        index < m.sources.len() && m.sources[index].kind is Seal ==> m.boundary(index) is None,
        index < m.sources.len() ==> (compact_tool_groups::group_of_source(
            compact_tool_groups::groups_of(m.sources),
            index,
        ) matches Some(g) ==> (g.start != index ==> m.boundary(index) is None)),
{
}

/// The row of a group is found where it first stands.
pub proof fn law_row_of_a_group_is_found(cells: Seq<ShownCell>, id: CompactToolGroupId, i: int)
    requires
        0 <= i < cells.len(),
    ensures
        is_row_of(cells[i], id) && (forall|j: int|
            0 <= j < i ==> !is_row_of(#[trigger] cells[j], id)) ==> screen_model::group_position(
            cells,
            id,
        ) == Some(i),
        (forall|j: int| 0 <= j < cells.len() ==> !is_row_of(#[trigger] cells[j], id))
            ==> screen_model::group_position(cells, id) is None,
    decreases cells.len(),
{
    let n = cells.len() - 1;
    if n > 0 {
        let k = if i < n {
            i
        } else {
            n - 1
        };
        law_row_of_a_group_is_found(cells.drop_last(), id, k);
        assert(forall|j: int| 0 <= j < n ==> cells.drop_last()[j] == #[trigger] cells[j]);
    } else {
        assert(screen_model::group_position(cells.drop_last(), id) is None);
    }
}

pub open spec fn is_row_of(cell: ShownCell, group: CompactToolGroupId) -> bool {
    cell matches ShownCell::Work { id, actions, expanded, sources, detail } && id == group
}

/// A group takes the place of its row and of what is unfolded below it, or, before it was ever
/// folded, of its sources. Those are left alone while text is being selected, and while a view that
/// does not follow the end shows them.
pub proof fn law_group_takes_the_place_of_its_cells(
    m: ScreenModel,
    g: GroupModel,
    id: CompactToolGroupId,
    respect_guard: bool,
)
    requires
        0 <= g.sources < usize::MAX,
    ensures
        ({
            let place = m.group_place(g, id, respect_guard);
            let row = screen_model::group_position(m.view.cells, id);
            let first = m.source_position(g);
            &&& row matches Some(at) ==> (place matches GroupPlace::At { start, count } && start
                == at && count == if m.expanded.contains(id) {
                1 + g.sources
            } else {
                1
            })
            &&& row is None ==> (first matches Some(at) ==> {
                let left_alone = respect_guard && (m.view.selecting() || (!m.view.following
                    && m.view.range_shows(m.width(), at, g.sources, m.conversation_area)));
                &&& left_alone ==> place is Waiting
                &&& !left_alone ==> (place matches GroupPlace::At { start, count } && start == at
                    && count == g.sources)
            })
            &&& row is None && first is None ==> (place is Waiting <==> respect_guard
                && m.view.selecting()) && !(place is At)
        }),
{
}

/// A group that is shown in another place is counted once, and by its reason.
pub proof fn law_shown_groups_are_counted_by_reason(
    m: ScreenModel,
    g: GroupModel,
    id: CompactToolGroupId,
    start: int,
    count: int,
    expanded: bool,
    reason: RangeReplacementReason,
)
    ensures
        ({
            let step = m.group_shown(g, id, start, count, expanded, reason);
            &&& step.done
            &&& step.bumps.len() == 2
            &&& step.bumps[0] == Tally::Metric(quiet_metrics::replacement_metric(reason))
            &&& step.bumps[1] == Tally::Metric(QuietMetric::RangeReplacement)
            &&& step.screen.view == m.view.with_range(
                m.width(),
                start,
                count,
                compact_tool_groups::group_rows(m.sources, g, expanded),
            )
            &&& !step.screen.pending_seals.contains(id)
        }),
{
    lemma_kept_ids(m.pending_seals, Seq::empty(), id, id);
}

/// The group that is looked into is, with none clicked, the one hovered over, else the lowest one
/// on the screen, and its sources are what is shown of it.
pub proof fn law_inspection_looks_under_the_pointer_next(pane: PaneModel, m: ScreenModel)
    ensures
        m.last_clicked is None && m.hover != 0 && screen_model::found_group(
            m.sources,
            CompactToolGroupId(m.hover),
        ) is Some ==> m.inspected_group() == Some(CompactToolGroupId(m.hover)),
        m.last_clicked is None && m.hover == 0 ==> (m.view.visible_range(
            m.conversation_area,
        ) matches Some((first, last)) ==> (m.group_of_shown(last as int) is Some && first <= last
            ==> m.inspected_group() == m.group_of_shown(last as int))),
        pane.screen == Some(m) ==> (m.inspected_group() matches Some(id) ==> (
        screen_model::found_group(m.sources, id) matches Some(g) ==> pane.inspected_cells() == Some(
            m.sources.subrange(g.start, g.start + g.sources),
        ))),
        pane.screen is None || (pane.screen == Some(m) && m.inspected_group() is None)
            ==> pane.inspected_cells() is None,
{
    reveal(PaneModel::inspected_cells);
}

/// A cell on the screen belongs to the group whose row it is, or that folds its record.
pub proof fn law_shown_cell_belongs_to_its_group(m: ScreenModel, index: int)
    ensures
        m.view.cells[index] matches ShownCell::Work { id, actions, expanded, sources, detail }
            ==> m.group_of_shown(index) == Some(id),
        m.view.cells[index] matches ShownCell::Source(cell) ==> {
            let found = compact_tool_groups::group_of_record(
                m.sources,
                compact_tool_groups::groups_of(m.sources),
                cell.id,
            );
            &&& found matches Some(g) ==> m.group_of_shown(index) == Some(g.id)
            &&& found is None ==> m.group_of_shown(index) is None
        },
{
}

} // verus!
