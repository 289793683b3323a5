//! Frames that are drawn over and over to measure what one costs.

use std::sync::Arc;

use vstd::prelude::*;

use crate::compact_tool_groups;
use crate::compact_tool_groups::ViewCell;
use crate::conversation_viewport::ConversationViewport;
use crate::geometry;
use crate::geometry::Position;
use crate::geometry::Rect;
use crate::history_cell;
use crate::history_cell::CellKind;
use crate::history_cell::HistoryCell;
use crate::history_cell::HistoryRenderMode;
use crate::ledger;
use crate::ledger::QuietLedger;
use crate::ledger::Tally;
use crate::pager_content;
use crate::pager_content::ItemModel;
use crate::pager_layout;
use crate::quiet_metrics;
use crate::quiet_metrics::QuietMetric;
use crate::text;
use crate::viewport_model;
use crate::viewport_model::ConversationCellHit;
use crate::viewport_model::ViewportModel;

verus! {

/// The cells of the retained conversation.
pub const BENCH_CELLS: usize = 4096;

/// The rows of the footer, where there is room for them.
pub const FOOTER_ROWS: u16 = 4;

/// The bytes of the first and of the last symbol of an area in which one line was drawn.
pub uninterp spec fn corner_bytes(line: Seq<char>, width: u16, height: u16) -> (u32, u32);

/// Draws a line with `ratatui::widgets::Paragraph` into a blank `ratatui::buffer::Buffer`, and
/// returns how many bytes its first and its last symbol take. A buffer without cells has no
/// symbols. The columns of the line are added up in 16 bits, so the line must not be too long.
#[verifier::external_body]
fn draw_line(line: &str, width: u16, height: u16) -> (r: (u32, u32))
    requires
        width > 0,
        height > 0,
        line@.len() <= pager_content::WRAP_LIMIT,
    ensures
        r == corner_bytes(line@, width, height),
{
    let area = ratatui::layout::Rect::new(0, 0, width, height);
    let mut buffer = ratatui::buffer::Buffer::empty(area);
    let paragraph = ratatui::widgets::Paragraph::new(ratatui::text::Line::from(line));
    ratatui::widgets::Widget::render(paragraph, area, &mut buffer);
    let first = buffer.content.first().map_or(0, |cell| cell.symbol().len());
    let last = buffer.content.last().map_or(0, |cell| cell.symbol().len());
    (first as u32, last as u32)
}

/// The bytes of the first symbol of a row of wrapped lines.
pub uninterp spec fn row_bytes(lines: Seq<Seq<char>>, width: u16, row: u16) -> u32;

/// Lines that wrap into rows no wider than the width, at every width.
pub open spec fn plain_lines(lines: Seq<Seq<char>>) -> bool {
    forall|i: int| 0 <= i < lines.len() ==> plain_line(#[trigger] lines[i])
}

pub open spec fn plain_line(line: Seq<char>) -> bool {
    &&& line.len() <= pager_content::WRAP_LIMIT
    &&& forall|k: int| 0 <= k < line.len() ==> pager_content::one_column(#[trigger] line[k])
}

/// Draws one row of a wrapping `ratatui::widgets::Paragraph`, scrolled to that row, into a blank
/// `ratatui::buffer::Buffer`, and returns how many bytes its first symbol takes. The row behind
/// the drawn one must have a number too, and a row of symbols that take more or less than one
/// column can pass the edge of the buffer.
#[verifier::external_body]
fn draw_row(lines: &Vec<String>, width: u16, row: u16) -> (r: u32)
    requires
        width > 0,
        row < u16::MAX,
        plain_lines(text::views(lines@)),
    ensures
        r == row_bytes(text::views(lines@), width, row),
{
    let area = ratatui::layout::Rect::new(0, 0, width, 1);
    let mut buffer = ratatui::buffer::Buffer::empty(area);
    let lines: Vec<ratatui::text::Line> = lines.iter().map(
        |line| ratatui::text::Line::from(line.as_str()),
    ).collect();
    let paragraph = ratatui::widgets::Paragraph::new(ratatui::text::Text::from(lines)).wrap(
        ratatui::widgets::Wrap { trim: false },
    ).scroll((row, 0));
    ratatui::widgets::Widget::render(paragraph, area, &mut buffer);
    buffer.content.first().map_or(0, |cell| cell.symbol().len()) as u32
}

pub open spec fn footer_text(tick: u64) -> Seq<char> {
    "esc interrupt · Working "@ + text::decimal(tick as nat) + "s"@
}

proof fn lemma_footer_is_short(tick: u64)
    ensures
        footer_text(tick).len() <= pager_content::WRAP_LIMIT,
{
    text::lemma_decimal_of_counter(tick);
    reveal_strlit("esc interrupt · Working ");
    reveal_strlit("s");
}

/// The status line of a frame.
pub fn footer_line(tick: u64) -> (r: String)
    ensures
        r@ == footer_text(tick),
{
    let mut out = text::owned("esc interrupt · Working ");
    out.append(text::decimal_string(tick).as_str());
    out.append("s");
    out
}

pub open spec fn next_tick(tick: u64) -> u64 {
    if tick == u64::MAX {
        0
    } else {
        (tick + 1) as u64
    }
}

pub open spec fn footer_rows(height: u16) -> u16 {
    if height < FOOTER_ROWS {
        height
    } else {
        FOOTER_ROWS
    }
}

/// A number that depends on what was drawn, so that no draw is left out.
pub open spec fn frame_mark(tick: u64, first: u32, last: u32) -> u64 {
    tick ^ (first as u64) ^ (last as u64)
}

/// A footer without a conversation above it.
pub struct FooterOnlyFrameFixture {
    pub area: Rect,
    pub status_tick: u64,
}

impl FooterOnlyFrameFixture {
    pub fn new(width: u16, height: u16) -> (r: Self)
        ensures
            r.area == geometry::rect_at(0, 0, width, footer_rows(height)),
            r.status_tick == 0,
    {
        let rows: u16 = if height < FOOTER_ROWS {
            height
        } else {
            FOOTER_ROWS
        };
        FooterOnlyFrameFixture { area: Rect::new(0, 0, width, rows), status_tick: 0 }
    }

    /// Draws the footer of the next tick.
    pub fn render_status_frame(&mut self) -> (r: u64)
        requires
            !old(self).area.empty_area(),
        ensures
            final(self).area == old(self).area,
            final(self).status_tick == next_tick(old(self).status_tick),
            ({
                let tick = next_tick(old(self).status_tick);
                let drawn = corner_bytes(
                    footer_text(tick),
                    old(self).area.width,
                    old(self).area.height,
                );
                r == frame_mark(tick, drawn.0, drawn.1)
            }),
    {
        self.status_tick = self.status_tick.wrapping_add(1);
        let footer = footer_line(self.status_tick);
        proof {
            lemma_footer_is_short(self.status_tick);
        }
        let (first, last) = draw_line(footer.as_str(), self.area.width, self.area.height);
        self.status_tick ^ (first as u64) ^ (last as u64)
    }
}

pub open spec fn marker_of(index: nat) -> Seq<char> {
    if index % 4 == 0 {
        "read source"@
    } else if index % 4 == 1 {
        "searched symbols"@
    } else if index % 4 == 2 {
        "ran focused tests"@
    } else {
        "updated projection"@
    }
}

/// The four last decimal digits.
pub open spec fn four_digits(n: nat) -> Seq<char> {
    text::decimal(n / 1000 % 10) + text::decimal(n / 100 % 10) + text::decimal(n / 10 % 10)
        + text::decimal(n % 10)
}

pub open spec fn bench_line(index: nat) -> Seq<char> {
    "  "@ + marker_of(index) + " "@ + four_digits(index) + " · cache-stable retained row"@
}

proof fn lemma_plain_concat(a: Seq<char>, b: Seq<char>)
    requires
        plain_line(a),
        plain_line(b),
        a.len() + b.len() <= pager_content::WRAP_LIMIT,
    ensures
        plain_line(a + b),
{
    assert forall|k: int| 0 <= k < (a + b).len() implies pager_content::one_column(#[trigger] (a + b)[k]) by {
        if k < a.len() {
            assert(pager_content::one_column(a[k]));
        } else {
            assert(pager_content::one_column(b[k - a.len()]));
        }
    }
}

proof fn lemma_digit_is_plain(n: nat)
    requires
        n < 10,
    ensures
        plain_line(text::decimal(n)),
        text::decimal(n).len() == 1,
{
}

proof fn lemma_bench_line_is_plain(index: nat)
    ensures
        plain_line(bench_line(index)),
{
    reveal_strlit("  ");
    reveal_strlit("read source");
    reveal_strlit("searched symbols");
    reveal_strlit("ran focused tests");
    reveal_strlit("updated projection");
    reveal_strlit(" ");
    reveal_strlit(" · cache-stable retained row");
    let marker = marker_of(index);
    let a = text::decimal(index / 1000 % 10);
    let b = text::decimal(index / 100 % 10);
    let c = text::decimal(index / 10 % 10);
    let d = text::decimal(index % 10);
    lemma_digit_is_plain(index / 1000 % 10);
    lemma_digit_is_plain(index / 100 % 10);
    lemma_digit_is_plain(index / 10 % 10);
    lemma_digit_is_plain(index % 10);
    lemma_plain_concat(a, b);
    lemma_plain_concat(a + b, c);
    lemma_plain_concat(a + b + c, d);
    lemma_plain_concat("  "@, marker);
    lemma_plain_concat("  "@ + marker, " "@);
    lemma_plain_concat("  "@ + marker + " "@, four_digits(index));
    lemma_plain_concat(
        "  "@ + marker + " "@ + four_digits(index),
        " · cache-stable retained row"@,
    );
}

fn make_bench_line(index: u64) -> (r: String)
    ensures
        r@ == bench_line(index as nat),
{
    let mut digits = text::decimal_string(index / 1000 % 10);
    digits.append(text::decimal_string(index / 100 % 10).as_str());
    digits.append(text::decimal_string(index / 10 % 10).as_str());
    digits.append(text::decimal_string(index % 10).as_str());
    let mut out = text::owned("  ");
    out.append(
        if index % 4 == 0 {
            "read source"
        } else if index % 4 == 1 {
            "searched symbols"
        } else if index % 4 == 2 {
            "ran focused tests"
        } else {
            "updated projection"
        },
    );
    out.append(" ");
    out.append(digits.as_str());
    out.append(" · cache-stable retained row");
    out
}

/// A cell of the retained conversation: the same line in both modes.
pub open spec fn is_bench_cell(cell: HistoryCell, index: nat) -> bool {
    &&& cell.id == index
    &&& cell.kind == CellKind::Other
    &&& !cell.stream_continuation
    &&& cell.layouts@.len() == 0
    &&& text::views(cell.rich_lines@) == seq![bench_line(index)]
    &&& text::views(cell.raw_lines@) == seq![bench_line(index)]
}

fn bench_cell(index: u64) -> (r: HistoryCell)
    ensures
        is_bench_cell(r, index as nat),
{
    let mut rich_lines: Vec<String> = Vec::new();
    proof {
        assert(text::views(rich_lines@) =~= Seq::empty());
    }
    text::push_text(&mut rich_lines, make_bench_line(index));
    let raw_lines = text::copy_strings(&rich_lines);
    proof {
        assert(text::views(rich_lines@) =~= seq![bench_line(index as nat)]);
    }
    HistoryCell {
        id: index,
        kind: CellKind::Other,
        stream_continuation: false,
        rich_lines,
        layouts: Vec::new(),
        raw_lines,
    }
}

/// A long retained conversation above a footer.
pub struct OwnedFrameFixture {
    pub viewport: ConversationViewport,
    pub cells: Vec<Arc<HistoryCell>>,
    pub conversation_area: Rect,
    pub footer_area: Rect,
    pub status_tick: u64,
    pub input_down: bool,
    pub metrics: QuietLedger,
}

/// The row within a cell that is hit is no row behind the largest height.
proof fn lemma_hit_row(view: ViewportModel, area: Rect, hit: ConversationCellHit)
    requires
        view.hit(area, Position { x: area.x, y: area.y }) == Some(hit),
    ensures
        hit.row_within_cell < u16::MAX,
{
    reveal(ViewportModel::hit);
    let row = pager_layout::row_sum(view.scroll as int, 0);
    let found = (hit.index, hit.row_within_cell);
    assert(pager_content::hit_at(view.items, area.width, row, found));
    let heights = pager_content::heights_of(view.items, area.width);
    let i = hit.index as int;
    assert(heights[i] == pager_content::item_height(view.items[i], area.width));
    assert(pager_layout::top_of(heights, i + 1) <= pager_layout::top_of(heights, i) + heights[i]);
}

impl OwnedFrameFixture {
    pub open spec fn wf(&self) -> bool {
        &&& self.viewport.wf()
        &&& self.viewport@.cells == compact_tool_groups::as_sources(self.cells@)
        &&& !self.viewport@.selecting()
        &&& self.viewport@.select.cache is None
        &&& self.cells@.len() == BENCH_CELLS
        &&& forall|i: int|
            0 <= i < BENCH_CELLS ==> is_bench_cell(*(#[trigger] self.cells@[i]), i as nat)
        &&& self.conversation_area.width == self.footer_area.width
        &&& !self.footer_area.empty_area()
    }

    /// The bytes of the first symbol on the screen: of the footer, of the cell in the first row,
    /// or of a blank.
    pub open spec fn first_bytes(&self, view: ViewportModel, footer: (u32, u32)) -> u32 {
        let area = self.conversation_area;
        if area.height == 0 {
            footer.0
        } else {
            match view.hit(area, Position { x: area.x, y: area.y }) {
                Some(hit) => row_bytes(
                    self.cells@[hit.index as int].lines(area.width, HistoryRenderMode::Rich),
                    area.width,
                    hit.row_within_cell as u16,
                ),
                None => 1,
            }
        }
    }

    /// Everything but the view, the tick and the counters is the same.
    pub open spec fn same_frame(&self, before: &OwnedFrameFixture) -> bool {
        &&& self.cells == before.cells
        &&& self.conversation_area == before.conversation_area
        &&& self.footer_area == before.footer_area
        &&& self.input_down == before.input_down
    }

    /// The fixture after a frame whose view was the given one before it was settled.
    pub open spec fn drew(&self, before: &OwnedFrameFixture, view: ViewportModel, mark: u64) -> bool {
        let area = before.conversation_area;
        let settled = view.rendered(area, None);
        let tick = next_tick(before.status_tick);
        let footer = corner_bytes(
            footer_text(tick),
            before.footer_area.width,
            before.footer_area.height,
        );
        &&& self.viewport@ == settled
        &&& self.status_tick == tick
        &&& mark == frame_mark(tick, before.first_bytes(settled, footer), footer.1)
        &&& ledger::counted(before.metrics, self.metrics, view.frame_tallies(area, None))
    }

    /// Draws an unchanged conversation and the footer of the next tick.
    pub fn render_status_frame(&mut self) -> (r: u64)
        requires
            old(self).wf(),
        ensures
            final(self).wf(),
            final(self).same_frame(old(self)),
            final(self).drew(old(self), old(self).viewport@, r),
    {
        let area = self.conversation_area;
        self.status_tick = self.status_tick.wrapping_add(1);
        self.viewport.render(&mut self.metrics, area, None);
        proof {
            reveal(ViewportModel::rendered);
        }
        let ghost settled = self.viewport@;
        let footer = footer_line(self.status_tick);
        proof {
            lemma_footer_is_short(self.status_tick);
        }
        let drawn = draw_line(
            footer.as_str(),
            self.footer_area.width,
            self.footer_area.height,
        );
        let first: u32 = if area.height == 0 {
            drawn.0
        } else {
            proof {
                reveal(ViewportModel::hit);
            }
            match self.viewport.committed_cell_hit(area, Position { x: area.x, y: area.y }) {
                Some(hit) => {
                    let lines = self.cells[hit.index].display_lines_for_mode(
                        area.width,
                        HistoryRenderMode::Rich,
                    );
                    proof {
                        lemma_bench_line_is_plain(hit.index as nat);
                        lemma_hit_row(settled, area, hit);
                    }
                    draw_row(&lines, area.width, hit.row_within_cell as u16)
                },
                None => 1,
            }
        };
        self.status_tick ^ (first as u64) ^ (drawn.1 as u64)
    }

    /// The offset that the next page key stands for: a page up and a page down in turn.
    pub open spec fn page_target(&self) -> usize {
        let offset = self.viewport@.scroll;
        let rows = self.conversation_area.height;
        if self.input_down {
            pager_layout::row_sum(offset as int, rows as int) as usize
        } else if rows <= offset {
            (offset - rows) as usize
        } else {
            0
        }
    }

    /// Moves the view a page up and a page down in turn, and draws it.
    pub fn handle_input_and_render(&mut self) -> (r: u64)
        requires
            old(self).wf(),
        ensures
            final(self).wf(),
            final(self).cells == old(self).cells,
            final(self).conversation_area == old(self).conversation_area,
            final(self).footer_area == old(self).footer_area,
            final(self).input_down == !old(self).input_down,
            final(self).drew(old(self), old(self).viewport@.at_offset(old(self).page_target()), r),
    {
        let offset: usize = self.viewport.scroll_offset();
        let rows: usize = self.conversation_area.height as usize;
        let target: usize = if self.input_down {
            offset.saturating_add(rows)
        } else {
            offset.saturating_sub(rows)
        };
        self.input_down = !self.input_down;
        let _ = self.viewport.handle_navigation_key(Some(target));
        self.render_status_frame()
    }

    /// How often a layout was taken from the last one, and how often it was not.
    pub fn prepared_cache_counts(&self) -> (r: (u64, u64))
        ensures
            r.0 == self.metrics.counters.count(QuietMetric::PreparedCellCacheHit),
            r.1 == self.metrics.counters.count(QuietMetric::PreparedCellCacheMiss),
    {
        (
            quiet_metrics::get_for_bench(&self.metrics.counters, QuietMetric::PreparedCellCacheHit),
            quiet_metrics::get_for_bench(&self.metrics.counters, QuietMetric::PreparedCellCacheMiss),
        )
    }

    /// The fixture for a screen, after three frames.
    pub fn new(width: u16, height: u16) -> (r: Self)
        requires
            width > 0,
            height > 0,
        ensures
            r.wf(),
            r.conversation_area == geometry::rect_at(
                0,
                0,
                width,
                (height - footer_rows(height)) as u16,
            ),
            r.footer_area == geometry::rect_at(
                0,
                (height - footer_rows(height)) as u16,
                width,
                footer_rows(height),
            ),
            r.status_tick == 3,
            !r.input_down,
            r.viewport@.following,
            r.viewport@.scroll == pager_content::last_offset(
                r.viewport@.items,
                width,
                (height - footer_rows(height)) as u16,
            ),
            r.viewport@.laid_out_at(width),
            ({
                let frame = r.viewport@.warm_tallies(r.conversation_area, BENCH_CELLS as int);
                ledger::holds(
                    r.metrics,
                    first_layouts(BENCH_CELLS as int) + frame + frame + frame,
                )
            }),
    {
        let mut cells: Vec<Arc<HistoryCell>> = Vec::new();
        let mut views: Vec<ViewCell> = Vec::new();
        let mut i: usize = 0;
        while i < BENCH_CELLS
            invariant
                i <= BENCH_CELLS,
                cells@.len() == i,
                views@.len() == i,
                forall|j: int| 0 <= j < i ==> is_bench_cell(*(#[trigger] cells@[j]), j as nat),
                forall|j: int| 0 <= j < i ==> (#[trigger] views@[j])
                    == ViewCell::Source(cells@[j]),
            decreases BENCH_CELLS - i,
        {
            let cell = Arc::new(bench_cell(i as u64));
            views.push(ViewCell::Source(history_cell::share(&cell)));
            cells.push(cell);
            i += 1;
        }
        let footer_height: u16 = if height < FOOTER_ROWS {
            height
        } else {
            FOOTER_ROWS
        };
        let conversation_height: u16 = height - footer_height;
        let conversation_area = Rect::new(0, 0, width, conversation_height);
        let footer_area = Rect::new(0, conversation_height, width, footer_height);
        proof {
            assert(compact_tool_groups::shown(views@) =~= compact_tool_groups::as_sources(cells@));
        }
        let viewport = ConversationViewport::new(views, HistoryRenderMode::Rich);
        let mut fixture = OwnedFrameFixture {
            viewport,
            cells,
            conversation_area,
            footer_area,
            status_tick: 0,
            input_down: false,
            metrics: QuietLedger::new(),
        };
        proof {
            reveal(ViewportModel::rendered);
        }
        let ghost zero = fixture;
        let ghost area = fixture.conversation_area;
        let ghost first = first_layouts(BENCH_CELLS as int);
        let _ = fixture.render_status_frame();
        let ghost one = fixture;
        let _ = fixture.render_status_frame();
        let ghost two = fixture;
        let _ = fixture.render_status_frame();
        proof {
            let view = fixture.viewport@;
            let n = BENCH_CELLS as int;
            let frame = view.warm_tallies(area, n);
            let all = zero.viewport@.items;
            pager_content::lemma_prepared_heights(all, n, width, width);
            assert(one.viewport@.items == pager_content::prepared_items(all, n, width));
            assert(pager_content::prepared_items(one.viewport@.items, n, width)
                =~= one.viewport@.items);
            assert(two.viewport@ =~= one.viewport@);
            assert(view =~= two.viewport@);
            reveal(ViewportModel::frame_tallies);
            lemma_first_layouts(all, n, width);
            viewport_model::lemma_warm_tallies(view, area, n);
            viewport_model::law_warm_frames_lay_nothing_out(one.viewport@, area, None);
            viewport_model::law_warm_frames_lay_nothing_out(two.viewport@, area, None);
            ledger::lemma_counted_concat(
                zero.metrics,
                one.metrics,
                two.metrics,
                first + frame,
                frame,
            );
            ledger::lemma_counted_concat(
                zero.metrics,
                two.metrics,
                fixture.metrics,
                first + frame + frame,
                frame,
            );
            ledger::lemma_counted_from_new(
                zero.metrics,
                fixture.metrics,
                first + frame + frame + frame,
            );
        }
        fixture
    }
}

/// What the first layout of that many cells counts.
pub open spec fn first_layouts(count: int) -> Seq<Tally>
    decreases count,
{
    if count <= 0 {
        Seq::empty()
    } else {
        first_layouts(count - 1) + seq![
            Tally::Metric(QuietMetric::PreparedCellCacheMiss),
            Tally::Metric(QuietMetric::LayoutStableCellMeasurement),
        ]
    }
}

proof fn lemma_first_layouts(items: Seq<ItemModel>, count: int, width: u16)
    requires
        count <= items.len(),
        forall|i: int| 0 <= i < count ==> (#[trigger] items[i]).prepared is None,
    ensures
        pager_content::layout_tallies(items, count, width) == first_layouts(count),
    decreases count,
{
    if count > 0 {
        lemma_first_layouts(items, count - 1, width);
        assert(items[count - 1].prepared is None);
    }
}

} // verus!
