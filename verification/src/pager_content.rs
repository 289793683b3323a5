//! The scrolled list of items that a conversation consists of on the screen.

use std::sync::Arc;

use vstd::prelude::*;

use crate::compact_tool_groups;
use crate::compact_tool_groups::LineModel;
use crate::compact_tool_groups::ShownCell;
use crate::compact_tool_groups::TranscriptLine;
use crate::compact_tool_groups::ViewCell;
use crate::history_cell::HistoryRenderMode;
use crate::ledger;
use crate::ledger::QuietLedger;
use crate::ledger::Tally;
use crate::pager_layout;
use crate::pager_layout::PagerLayoutCache;
use crate::pager_layout::Renderable;
use crate::prepared_cell;
use crate::prepared_cell::PreparedConversationCell;
use crate::quiet_metrics::QuietMetric;
use crate::text;

verus! {

/// The number of rows that a paragraph with these lines takes at a width when its words are
/// wrapped and nothing is trimmed.
pub uninterp spec fn wrapped_rows(lines: Seq<Seq<char>>, width: u16) -> usize;

/// The largest width at which lines of every kind can be wrapped. The wrapper adds up columns in
/// 16 bits, and at this width no sum passes four times the width.
pub const WRAP_LIMIT: u16 = 16383;

/// The number of characters up to which lines can be wrapped at every width: a character takes no
/// more than three columns.
pub const LINE_LIMIT: usize = 21845;

/// The largest width at which lines of one-column characters can be wrapped. No sum passes it by
/// more than three columns.
pub const PLAIN_WRAP_LIMIT: u16 = 65000;

/// A character that takes one column and stands alone: printable ASCII, or a middle dot.
pub open spec fn one_column(c: char) -> bool {
    ' ' <= c <= '~' || c == '·'
}

pub open spec fn one_column_each(line: Seq<char>) -> bool {
    forall|k: int| 0 <= k < line.len() ==> one_column(#[trigger] line[k])
}

/// Whether a line can be wrapped at a width that is too large for lines of every kind.
pub open spec fn line_wraps(line: Seq<char>, width: u16) -> bool {
    line.len() <= LINE_LIMIT || (width <= PLAIN_WRAP_LIMIT && one_column_each(line))
}

/// Whether the lines can be wrapped at a width without running out of columns to count.
pub open spec fn wraps_at(lines: Seq<Seq<char>>, width: u16) -> bool {
    width <= WRAP_LIMIT || forall|i: int|
        0 <= i < lines.len() ==> line_wraps(#[trigger] lines[i], width)
}

/// Calls `ratatui::widgets::Paragraph::line_count` on a paragraph of unstyled lines that wraps
/// without trimming: the number of rows that the paragraph needs at the width. The call overflows
/// where both the width and a line are too large.
#[verifier::external_body]
fn count_wrapped_rows(lines: &Vec<String>, width: u16) -> (r: usize)
    requires
        wraps_at(text::views(lines@), width),
    ensures
        r == wrapped_rows(text::views(lines@), width),
{
    let lines: Vec<ratatui::text::Line> = lines.iter().map(
        |line| ratatui::text::Line::from(line.as_str()),
    ).collect();
    ratatui::widgets::Paragraph::new(ratatui::text::Text::from(lines)).wrap(
        ratatui::widgets::Wrap { trim: false },
    ).line_count(width)
}

/// The rows of some lines at a width. Lines that cannot be wrapped there are wrapped at the
/// largest width at which every line can be.
pub open spec fn rows_at(lines: Seq<Seq<char>>, width: u16) -> usize {
    if wraps_at(lines, width) {
        wrapped_rows(lines, width)
    } else {
        wrapped_rows(lines, WRAP_LIMIT)
    }
}

fn is_one_column_each(line: &str) -> (r: bool)
    ensures
        r == one_column_each(line@),
{
    let chars = text::chars_of(line);
    let mut i: usize = 0;
    while i < chars.len()
        invariant
            i <= chars@.len(),
            chars@ == line@,
            forall|k: int| 0 <= k < i ==> one_column(#[trigger] line@[k]),
        decreases chars@.len() - i,
    {
        let c = chars[i];
        if !((' ' <= c && c <= '~') || c == '·') {
            proof {
                assert(!one_column(line@[i as int]));
            }
            return false;
        }
        i += 1;
    }
    true
}

fn all_wrap(lines: &Vec<String>, width: u16) -> (r: bool)
    ensures
        r == (forall|i: int|
            0 <= i < lines@.len() ==> line_wraps(#[trigger] text::views(lines@)[i], width)),
{
    let mut i: usize = 0;
    while i < lines.len()
        invariant
            i <= lines@.len(),
            forall|j: int| 0 <= j < i ==> line_wraps(#[trigger] text::views(lines@)[j], width),
        decreases lines@.len() - i,
    {
        let line = lines[i].as_str();
        if line.unicode_len() > LINE_LIMIT && !(width <= PLAIN_WRAP_LIMIT && is_one_column_each(
            line,
        )) {
            proof {
                assert(!line_wraps(text::views(lines@)[i as int], width));
            }
            return false;
        }
        i += 1;
    }
    true
}

pub fn count_rows(lines: &Vec<String>, width: u16) -> (r: usize)
    ensures
        r == rows_at(text::views(lines@), width),
{
    if width <= WRAP_LIMIT || all_wrap(lines, width) {
        count_wrapped_rows(lines, width)
    } else {
        count_wrapped_rows(lines, WRAP_LIMIT)
    }
}

/// A row count as the height of an item. A count that is no height counts as nothing.
pub open spec fn as_height(rows: usize) -> u16 {
    if rows <= u16::MAX {
        rows as u16
    } else {
        0
    }
}

pub fn rows_to_height(rows: usize) -> (r: u16)
    ensures
        r == as_height(rows),
{
    if rows <= u16::MAX as usize {
        rows as u16
    } else {
        0
    }
}

/// A cell that is still changing, as it looks at one moment.
pub struct ActiveCellDisplaySnapshot {
    pub lines: Vec<String>,
    pub is_stream_continuation: bool,
}

pub enum ItemBody {
    Cell { cell: ViewCell, mode: HistoryRenderMode },
    Live(Arc<ActiveCellDisplaySnapshot>),
}

/// An item of the list. A spaced item has a blank row above it.
pub struct PagerItem {
    pub spaced: bool,
    pub body: ItemBody,
    /// The last layout that a frame made of the item.
    pub prepared: Option<PreparedConversationCell>,
}

/// What an item shows, as a mathematical value.
pub enum BodyModel {
    Cell { cell: ShownCell, mode: HistoryRenderMode },
    Live(Arc<ActiveCellDisplaySnapshot>),
}

pub struct ItemModel {
    pub spaced: bool,
    pub body: BodyModel,
    /// The width of the last layout that a frame made of the item.
    pub prepared: Option<u16>,
}

impl View for ItemBody {
    type V = BodyModel;

    open spec fn view(&self) -> BodyModel {
        match *self {
            ItemBody::Cell { cell, mode } => BodyModel::Cell { cell: cell@, mode },
            ItemBody::Live(live) => BodyModel::Live(live),
        }
    }
}

impl View for PagerItem {
    type V = ItemModel;

    open spec fn view(&self) -> ItemModel {
        ItemModel {
            spaced: self.spaced,
            body: self.body@,
            prepared: match self.prepared {
                Some(prepared) => Some(prepared.width),
                None => None,
            },
        }
    }
}

pub open spec fn item_models(items: Seq<PagerItem>) -> Seq<ItemModel> {
    Seq::new(items.len(), |i: int| items[i]@)
}

pub proof fn lemma_item_models_push(items: Seq<PagerItem>, item: PagerItem)
    ensures
        item_models(items.push(item)) == item_models(items).push(item@),
{
    assert(item_models(items.push(item)) =~= item_models(items).push(item@));
}

pub open spec fn line_text(line: LineModel) -> Seq<char> {
    match line {
        LineModel::Text(t) => t,
        _ => Seq::empty(),
    }
}

/// The rows of an item without its spacing. A Work row is cut to the width, so it takes one row
/// wherever there is room; in plain form it shows the cells that it stands for.
pub open spec fn body_height(body: BodyModel, width: u16) -> u16 {
    match body {
        BodyModel::Cell { cell, mode } => match cell {
            ShownCell::Source(source) => as_height(rows_at(source.lines(width, mode), width)),
            ShownCell::Work { id, actions, expanded, sources, detail } => match mode {
                HistoryRenderMode::Rich => if width == 0 {
                    0
                } else {
                    1
                },
                HistoryRenderMode::Raw => as_height(
                    rows_at(
                        compact_tool_groups::transcript_from(
                            sources,
                            u16::MAX,
                            HistoryRenderMode::Raw,
                            false,
                            0,
                            false,
                        ).map_values(|line: LineModel| line_text(line)),
                        width,
                    ),
                ),
            },
        },
        BodyModel::Live(live) => as_height(rows_at(text::views(live.lines@), width)),
    }
}

/// The rows of a body with its spacing.
pub open spec fn spaced_height(spaced: bool, inner: u16) -> u16 {
    if spaced && inner < u16::MAX {
        (inner + 1) as u16
    } else {
        inner
    }
}

pub open spec fn item_height(item: ItemModel, width: u16) -> u16 {
    spaced_height(item.spaced, body_height(item.body, width))
}

/// Every item is as its last layout says.
pub open spec fn all_ready(items: Seq<PagerItem>) -> bool {
    forall|i: int| 0 <= i < items.len() ==> (#[trigger] items[i]).ready()
}

fn transcript_texts(lines: &Vec<TranscriptLine>) -> (r: Vec<String>)
    ensures
        text::views(r@) == compact_tool_groups::line_models(lines@).map_values(
            |line: LineModel| line_text(line),
        ),
{
    let ghost all = compact_tool_groups::line_models(lines@).map_values(
        |line: LineModel| line_text(line),
    );
    let mut out: Vec<String> = Vec::new();
    let mut i: usize = 0;
    proof {
        assert(text::views(out@) =~= all.take(0));
    }
    while i < lines.len()
        invariant
            i <= lines@.len(),
            all == compact_tool_groups::line_models(lines@).map_values(
                |line: LineModel| line_text(line),
            ),
            text::views(out@) == all.take(i as int),
        decreases lines@.len() - i,
    {
        let line = match &lines[i] {
            TranscriptLine::Text(t) => t.clone(),
            TranscriptLine::Blank => String::new(),
            TranscriptLine::Work { detail: _, action_count: _ } => String::new(),
        };
        proof {
            assert(line@ =~= all[i as int]);
            assert(all.take(i + 1) =~= all.take(i as int).push(line@));
        }
        text::push_text(&mut out, line);
        i += 1;
    }
    proof {
        assert(all.take(lines@.len() as int) =~= all);
    }
    out
}

/// Lays a body out at a width, and returns its rows.
pub fn measure_body(body: &ItemBody, width: u16) -> (r: u16)
    ensures
        r == body_height(body@, width),
{
    match body {
        ItemBody::Cell { cell, mode } => match cell {
            ViewCell::Source(source) => rows_to_height(
                count_rows(&source.display_lines_for_mode(width, *mode), width),
            ),
            ViewCell::Work(work) => match *mode {
                HistoryRenderMode::Rich => if width == 0 {
                    0
                } else {
                    1
                },
                HistoryRenderMode::Raw => rows_to_height(
                    count_rows(
                        &transcript_texts(&work.expanded_lines(u16::MAX, HistoryRenderMode::Raw)),
                        width,
                    ),
                ),
            },
        },
        ItemBody::Live(live) => rows_to_height(count_rows(&live.lines, width)),
    }
}

impl PagerItem {
    /// The last layout is one of what the item shows.
    pub open spec fn ready(&self) -> bool {
        self.prepared matches Some(prepared) ==> prepared.height == body_height(
            self.body@,
            prepared.width,
        )
    }
}

impl Renderable for PagerItem {
    /// The height of the last layout, where it was made at the width.
    open spec fn height(&self, width: u16) -> u16 {
        let inner = match self.prepared {
            Some(prepared) => if prepared.width == width {
                prepared.height
            } else {
                body_height(self.body@, width)
            },
            None => body_height(self.body@, width),
        };
        spaced_height(self.spaced, inner)
    }

    open spec fn stable(&self) -> bool {
        true
    }

    fn desired_height(&self, width: u16) -> (r: u16) {
        let inner: u16 = match self.prepared {
            Some(prepared) => if prepared.width == width {
                prepared.height
            } else {
                measure_body(&self.body, width)
            },
            None => measure_body(&self.body, width),
        };
        if self.spaced {
            inner.saturating_add(1)
        } else {
            inner
        }
    }

    fn has_stable_height(&self) -> (r: bool) {
        true
    }
}

#[derive(Clone, Copy, Debug, PartialEq, Eq, Structural)]
pub enum MouseScrollDirection {
    Up,
    Down,
}

#[derive(Clone, Copy, Debug, PartialEq, Eq, Structural)]
pub enum BottomFollowMode {
    Enabled,
    Frozen,
}

pub open spec fn heights_of(items: Seq<ItemModel>, width: u16) -> Seq<u16> {
    Seq::new(items.len(), |i: int| item_height(items[i], width))
}

/// The row at which item `i` starts; the end of the list for items past it.
pub open spec fn item_top(items: Seq<ItemModel>, width: u16, i: int) -> int {
    pager_layout::top_of(
        heights_of(items, width),
        if i < items.len() {
            i
        } else {
            items.len() as int
        },
    )
}

/// The list, where it is scrolled to, and whether it keeps to its end.
pub struct PagerContent {
    pub items: Vec<PagerItem>,
    pub layout: PagerLayoutCache,
    /// The first visible row. The largest value stands for the end of the list.
    pub scroll_offset: usize,
    pub following: bool,
    /// The largest offset of the last layout.
    pub max_scroll: usize,
}

/// The item at a content row, with the row within its body. The blank row above an item belongs
/// to no body.
pub open spec fn hit_at(items: Seq<ItemModel>, width: u16, row: int, hit: (usize, usize)) -> bool {
    let top = item_top(items, width, hit.0 as int) + (if items[hit.0 as int].spaced {
        1int
    } else {
        0int
    });
    &&& hit.0 < items.len()
    &&& item_top(items, width, hit.0 as int) <= row < item_top(items, width, hit.0 + 1)
    &&& row == top + hit.1
}

/// The item whose body covers a content row, with the row within the body.
pub open spec fn hit_of(items: Seq<ItemModel>, width: u16, row: int) -> Option<(usize, usize)> {
    if exists|hit: (usize, usize)| hit_at(items, width, row, hit) {
        Some(choose|hit: (usize, usize)| hit_at(items, width, row, hit))
    } else {
        None
    }
}

/// An offset moved by rows within the list.
pub open spec fn moved_by(
    offset: usize,
    max_scroll: usize,
    direction: MouseScrollDirection,
    rows: usize,
) -> int {
    let from = in_range(offset, max_scroll as int);
    match direction {
        MouseScrollDirection::Up => if rows <= from {
            from - rows
        } else {
            0
        },
        MouseScrollDirection::Down => if from + rows <= max_scroll {
            from + rows
        } else {
            max_scroll as int
        },
    }
}

pub open spec fn in_range(offset: usize, max_scroll: int) -> int {
    if offset <= max_scroll {
        offset as int
    } else {
        max_scroll
    }
}

/// The largest offset of a list at a size.
pub open spec fn last_offset(items: Seq<ItemModel>, width: u16, height: u16) -> int {
    let total = item_top(items, width, items.len() as int);
    if total >= height {
        total - height
    } else {
        0
    }
}

/// The first items laid out at a width.
pub open spec fn prepared_items(items: Seq<ItemModel>, count: int, width: u16) -> Seq<ItemModel> {
    Seq::new(
        items.len(),
        |i: int|
            if i < count {
                ItemModel { prepared: Some(width), ..items[i] }
            } else {
                items[i]
            },
    )
}

/// What it counts to have the first items laid out at a width.
pub open spec fn layout_tallies(items: Seq<ItemModel>, count: int, width: u16) -> Seq<Tally>
    decreases count,
{
    if count <= 0 {
        Seq::empty()
    } else {
        layout_tallies(items, count - 1, width) + prepared_cell::layout_tallies(
            items[count - 1].prepared,
            width,
        )
    }
}

pub proof fn lemma_layout_tallies(items: Seq<ItemModel>, count: int, width: u16)
    ensures
        ledger::occurrences(
            layout_tallies(items, count, width),
            QuietMetric::LiveTailMaxRows,
        ) == 0,
    decreases count,
{
    if count > 0 {
        lemma_layout_tallies(items, count - 1, width);
        prepared_cell::lemma_no_live_rows(items[count - 1].prepared, width);
        ledger::lemma_occurrences_concat(
            layout_tallies(items, count - 1, width),
            prepared_cell::layout_tallies(items[count - 1].prepared, width),
            QuietMetric::LiveTailMaxRows,
        );
    }
}

/// Having items laid out does not move any of them.
pub proof fn lemma_prepared_heights(items: Seq<ItemModel>, count: int, width: u16, at: u16)
    ensures
        heights_of(prepared_items(items, count, width), at) == heights_of(items, at),
{
    assert(heights_of(prepared_items(items, count, width), at) =~= heights_of(items, at));
}

impl PagerContent {
    /// The cached layouts are those of the items that they cover.
    pub open spec fn wf(&self) -> bool {
        &&& all_ready(self.items@)
        &&& self.layout.wf()
        &&& self.layout.unstable_indices@.len() == 0
        &&& self.layout.heights@.len() <= self.items@.len()
        &&& self.layout.width matches Some(width) ==> forall|i: int|
            0 <= i < self.layout.heights@.len() ==> (#[trigger] self.layout.heights@[i])
                == item_height(self.items@[i]@, width)
    }

    /// The items, as mathematical values.
    pub open spec fn models(&self) -> Seq<ItemModel> {
        item_models(self.items@)
    }

    /// Everything but the cache is as it was.
    pub open spec fn same_but_layout(&self, other: &PagerContent) -> bool {
        &&& self.models() == other.models()
        &&& self.scroll_offset == other.scroll_offset
        &&& self.following == other.following
        &&& self.max_scroll == other.max_scroll
    }

    /// The items changed, and nothing else.
    pub open spec fn same_place(&self, other: &PagerContent) -> bool {
        &&& self.scroll_offset == other.scroll_offset
        &&& self.following == other.following
        &&& self.max_scroll == other.max_scroll
    }

    pub fn new(items: Vec<PagerItem>) -> (r: Self)
        requires
            all_ready(items@),
        ensures
            r.wf(),
            r.models() == item_models(items@),
            r.scroll_offset == usize::MAX,
            r.following,
            r.max_scroll == 0,
    {
        PagerContent {
            items,
            layout: PagerLayoutCache::new(),
            scroll_offset: usize::MAX,
            following: true,
            max_scroll: 0,
        }
    }

    pub fn len(&self) -> (r: usize)
        ensures
            r == self.items@.len(),
    {
        self.items.len()
    }

    pub fn push(&mut self, item: PagerItem)
        requires
            old(self).wf(),
            item.ready(),
        ensures
            final(self).wf(),
            final(self).models() == old(self).models().push(item@),
            final(self).same_place(old(self)),
    {
        self.items.push(item);
    }

    /// Drops the items behind the first `len`.
    pub fn truncate(&mut self, len: usize)
        requires
            old(self).wf(),
        ensures
            final(self).wf(),
            final(self).models() == (if len <= old(self).models().len() {
                old(self).models().take(len as int)
            } else {
                old(self).models()
            }),
            final(self).same_place(old(self)),
    {
        if len < self.items.len() {
            proof {
                pager_layout::lemma_below(self.layout.unstable_indices@, len as int);
            }
            self.items.truncate(len);
            self.layout.truncate(len);
        }
    }

    pub fn replace(&mut self, items: Vec<PagerItem>)
        requires
            all_ready(items@),
        ensures
            final(self).wf(),
            final(self).models() == item_models(items@),
            final(self).same_place(old(self)),
    {
        self.items = items;
        self.layout.clear();
    }

    /// Puts items in the place of a range.
    pub fn replace_range(&mut self, start: usize, count: usize, items: Vec<PagerItem>)
        requires
            old(self).wf(),
            all_ready(items@),
            start + count <= old(self).models().len(),
        ensures
            final(self).wf(),
            final(self).models() == old(self).models().take(start as int) + item_models(items@) + old(
                self,
            ).models().skip(start + count),
            final(self).same_place(old(self)),
    {
        let ghost before = self.items@;
        let mut more = items;
        let len: usize = self.items.len();
        let end: usize = start + count;
        let mut tail = self.items.split_off(end);
        self.items.truncate(start);
        self.items.append(&mut more);
        self.items.append(&mut tail);
        proof {
            pager_layout::lemma_below(self.layout.unstable_indices@, start as int);
            assert(self.items@ =~= before.take(start as int) + items@ + before.skip(end as int));
        }
        if start < self.layout.heights.len() {
            self.layout.truncate(start);
        }
    }

    pub fn scroll_offset(&self) -> (r: usize)
        ensures
            r == self.scroll_offset,
    {
        self.scroll_offset
    }

    pub fn set_scroll_offset(&mut self, scroll_offset: usize)
        requires
            old(self).wf(),
        ensures
            final(self).wf(),
            final(self).models() == old(self).models(),
            final(self).max_scroll == old(self).max_scroll,
            final(self).scroll_offset == scroll_offset,
            final(self).following == (scroll_offset == usize::MAX),
    {
        self.scroll_offset = scroll_offset;
        self.following = scroll_offset == usize::MAX;
    }

    pub fn is_following_bottom(&self) -> (r: bool)
        ensures
            r == self.following,
    {
        self.following
    }

    pub fn scroll_to_bottom(&mut self)
        requires
            old(self).wf(),
        ensures
            final(self).wf(),
            final(self).models() == old(self).models(),
            final(self).max_scroll == old(self).max_scroll,
            final(self).scroll_offset == usize::MAX,
            final(self).following,
    {
        self.scroll_offset = usize::MAX;
        self.following = true;
    }

    /// Brings the layout of all items at a width up to date.
    pub fn ensure_layout(&mut self, width: u16)
        requires
            old(self).wf(),
        ensures
            final(self).wf(),
            final(self).same_but_layout(old(self)),
            final(self).layout.width == Some(width),
            final(self).layout.heights@ == heights_of(old(self).models(), width),
    {
        let ghost before = *self;
        self.layout.ensure(&self.items, width);
        proof {
            assert(self.layout.heights@ =~= heights_of(before.models(), width)) by {
                assert forall|i: int| 0 <= i < before.items@.len() implies self.layout.heights@[i]
                    == item_height(before.items@[i]@, width) by {
                    if before.layout.width == Some(width) && i < before.layout.heights@.len() {
                        let cached = before.layout.heights@[i];
                    }
                }
            }
            assert(self.layout.unstable_indices@.len() == 0) by {
                if self.layout.unstable_indices@.len() > 0 {
                    let x = self.layout.unstable_indices@[0];
                    assert(self.layout.unstable_indices@.contains(x));
                    assert(before.items@[x as int].stable());
                    assert(x < self.layout.heights@.len());
                    assert(before.layout.unstable_indices@.contains(x));
                }
            }
        }
    }

    pub fn renderable_heights(&mut self, width: u16) -> (r: Vec<u16>)
        requires
            old(self).wf(),
        ensures
            final(self).wf(),
            final(self).same_but_layout(old(self)),
            r@ == heights_of(old(self).models(), width),
    {
        self.ensure_layout(width);
        let mut out: Vec<u16> = Vec::new();
        let mut i: usize = 0;
        while i < self.layout.heights.len()
            invariant
                i <= self.layout.heights@.len(),
                out@ == self.layout.heights@.take(i as int),
            decreases self.layout.heights@.len() - i,
        {
            out.push(self.layout.heights[i]);
            proof {
                assert(out@ =~= self.layout.heights@.take(i + 1));
            }
            i += 1;
        }
        proof {
            assert(self.layout.heights@.take(self.layout.heights@.len() as int)
                =~= self.layout.heights@);
        }
        out
    }

    /// The rows of a range of items.
    pub fn renderable_range_rows(&mut self, width: u16, start: usize, count: usize) -> (r: (
        usize,
        usize,
    ))
        requires
            old(self).wf(),
        ensures
            final(self).wf(),
            final(self).same_but_layout(old(self)),
            r.0 == item_top(old(self).models(), width, start as int),
            r.1 == item_top(old(self).models(), width, start + count),
    {
        self.ensure_layout(width);
        let len: usize = self.items.len();
        let first: usize = if start < len {
            start
        } else {
            len
        };
        let past: usize = start.saturating_add(count);
        let end: usize = if past < len {
            past
        } else {
            len
        };
        (self.layout.start(first), self.layout.start(end))
    }

    /// The item whose body covers a content row.
    pub fn renderable_hit(&mut self, width: u16, row: usize) -> (r: Option<(usize, usize)>)
        requires
            old(self).wf(),
        ensures
            final(self).wf(),
            final(self).same_but_layout(old(self)),
            r == hit_of(old(self).models(), width, row as int),
    {
        self.ensure_layout(width);
        let ghost items = self.models();
        let ghost heights = heights_of(items, width);
        proof {
            assert forall|i: int| 0 <= i <= items.len() implies #[trigger] item_top(items, width, i)
                == pager_layout::top_of(heights, i) by {}
        }
        if row == usize::MAX {
            proof {
                assert forall|hit: (usize, usize)| !#[trigger] hit_at(
                    items,
                    width,
                    row as int,
                    hit,
                ) by {
                    if hit.0 < items.len() {
                        pager_layout::lemma_top_of_bounds(heights, hit.0 + 1);
                    }
                }
            }
            return None;
        }
        let index = self.layout.first_with_end_at_least(row + 1);
        proof {
            assert forall|hit: (usize, usize)| #[trigger] hit_at(
                items,
                width,
                row as int,
                hit,
            ) implies hit.0 == index by {
                if hit.0 < index {
                    assert(pager_layout::bottom_of(heights, hit.0 as int) < row + 1);
                } else if hit.0 > index {
                    pager_layout::lemma_top_of_monotone(heights, index + 1, hit.0 as int);
                }
            }
        }
        if index >= self.items.len() {
            return None;
        }
        let top: usize = self.layout.start(index);
        proof {
            if index > 0 {
                assert(pager_layout::bottom_of(heights, index - 1) < row + 1);
            }
        }
        let offset: usize = row - top;
        if self.items[index].spaced {
            if offset == 0 {
                return None;
            }
            proof {
                assert(hit_at(items, width, row as int, (index, (offset - 1) as usize)));
            }
            return Some((index, offset - 1));
        }
        proof {
            assert(hit_at(items, width, row as int, (index, offset)));
        }
        Some((index, offset))
    }

    /// Moves the view by rows, and says by how many it moved.
    pub fn scroll_rows(&mut self, direction: MouseScrollDirection, rows: usize) -> (r: usize)
        requires
            old(self).wf(),
        ensures
            final(self).wf(),
            final(self).models() == old(self).models(),
            final(self).max_scroll == old(self).max_scroll,
            final(self).scroll_offset == moved_by(
                old(self).scroll_offset,
                old(self).max_scroll,
                direction,
                rows,
            ),
            final(self).following == (final(self).scroll_offset == old(self).max_scroll),
            r == (if final(self).scroll_offset >= in_range(
                old(self).scroll_offset,
                old(self).max_scroll as int,
            ) {
                final(self).scroll_offset - in_range(
                    old(self).scroll_offset,
                    old(self).max_scroll as int,
                )
            } else {
                in_range(old(self).scroll_offset, old(self).max_scroll as int) - final(self).scroll_offset
            }),
    {
        let from: usize = if self.scroll_offset <= self.max_scroll {
            self.scroll_offset
        } else {
            self.max_scroll
        };
        let to: usize = match direction {
            MouseScrollDirection::Up => from.saturating_sub(rows),
            MouseScrollDirection::Down => if rows <= self.max_scroll - from {
                from + rows
            } else {
                self.max_scroll
            },
        };
        self.scroll_offset = to;
        self.following = to == self.max_scroll;
        if to >= from {
            to - from
        } else {
            from - to
        }
    }

    /// Has the first items laid out at a width.
    pub fn lay_out(&mut self, metrics: &mut QuietLedger, count: usize, width: u16)
        requires
            old(self).wf(),
            count <= old(self).models().len(),
        ensures
            final(self).wf(),
            final(self).models() == prepared_items(old(self).models(), count as int, width),
            final(self).same_place(old(self)),
            ledger::counted(
                *old(metrics),
                *final(metrics),
                layout_tallies(old(self).models(), count as int, width),
            ),
    {
        let ghost items = self.models();
        let ghost counters = *metrics;
        proof {
            ledger::lemma_counted_nothing(counters);
            assert(prepared_items(items, 0, width) =~= items);
        }
        let mut i: usize = 0;
        while i < count
            invariant
                i <= count <= self.items@.len(),
                self.items@.len() == items.len(),
                items == old(self).models(),
                counters == *old(metrics),
                self.wf(),
                self.models() == prepared_items(items, i as int, width),
                self.same_place(old(self)),
                ledger::counted(counters, *metrics, layout_tallies(items, i as int, width)),
            decreases count - i,
        {
            let ghost before = *metrics;
            let ghost earlier = self.items@;
            proof {
                ledger::lemma_counted_nothing(before);
                assert(self.models()[i as int] == self.items@[i as int]@);
                assert(prepared_items(items, i as int, width)[i as int] == items[i as int]);
            }
            let is_laid_out = match self.items[i].prepared {
                Some(last) => last.width == width,
                None => false,
            };
            if !is_laid_out {
                let _ = self.items[i].prepare(metrics, width);
            }
            proof {
                assert forall|j: int| 0 <= j < items.len() implies (#[trigger] self.models()[j])
                    == prepared_items(items, i + 1, width)[j] by {
                    assert(item_models(earlier)[j] == prepared_items(items, i as int, width)[j]);
                }
                assert(self.models() =~= prepared_items(items, i + 1, width));
                assert forall|j: int| 0 <= j < items.len() implies item_height(
                    #[trigger] self.items@[j]@,
                    width,
                ) == item_height(earlier[j]@, width) by {}
                ledger::lemma_counted_concat(
                    counters,
                    before,
                    *metrics,
                    layout_tallies(items, i as int, width),
                    prepared_cell::layout_tallies(items[i as int].prepared, width),
                );
            }
            i += 1;
        }
    }

    /// Draws an item at a width.
    pub fn draw(&mut self, metrics: &mut QuietLedger, index: usize, width: u16)
        requires
            old(self).wf(),
            index < old(self).models().len(),
        ensures
            final(self).wf(),
            final(self).models() == old(self).models().update(
                index as int,
                ItemModel { prepared: Some(width), ..old(self).models()[index as int] },
            ),
            final(self).same_place(old(self)),
            ledger::counted(
                *old(metrics),
                *final(metrics),
                prepared_cell::draw_tallies(old(self).models()[index as int].prepared, width),
            ),
    {
        let _ = self.items[index].render(metrics, width);
    }

    /// Settles the view for a frame of the given size: it keeps to the end where it follows it,
    /// and stays within the list otherwise.
    pub fn settle(&mut self, width: u16, height: u16, bottom_follow: BottomFollowMode)
        requires
            old(self).wf(),
        ensures
            final(self).wf(),
            final(self).models() == old(self).models(),
            final(self).max_scroll == last_offset(old(self).models(), width, height),
            final(self).scroll_offset == (if bottom_follow == BottomFollowMode::Enabled && old(
                self,
            ).following {
                last_offset(old(self).models(), width, height)
            } else {
                in_range(
                    old(self).scroll_offset,
                    last_offset(old(self).models(), width, height),
                )
            }),
            final(self).following == (if bottom_follow == BottomFollowMode::Enabled {
                final(self).scroll_offset == final(self).max_scroll
            } else {
                old(self).following
            }),
    {
        self.ensure_layout(width);
        let total: usize = self.layout.total_height();
        let max: usize = total.saturating_sub(height as usize);
        let enabled = bottom_follow == BottomFollowMode::Enabled;
        if (enabled && self.following) || self.scroll_offset > max {
            self.scroll_offset = max;
        }
        self.max_scroll = max;
        if enabled {
            self.following = self.scroll_offset == max;
        }
    }
}

} // verus!
