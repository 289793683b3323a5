//! The last layout of a retained cell, and what its layouts and draws count.

use vstd::prelude::*;

use crate::ledger;
use crate::ledger::QuietLedger;
use crate::ledger::Tally;
use crate::pager_content;
use crate::pager_content::ItemModel;
use crate::pager_content::PagerItem;
use crate::quiet_metrics::QuietMetric;

verus! {

/// The rows of a cell at one width, without the blank row above it.
#[derive(Clone, Copy, Debug, PartialEq, Eq, Structural)]
pub struct PreparedConversationCell {
    pub width: u16,
    pub height: u16,
}

/// What a layout at a width counts, where the cell was last laid out at the given one.
pub open spec fn prepare_tallies(prepared: Option<u16>, width: u16) -> Seq<Tally> {
    match prepared {
        Some(last) => if last == width {
            seq![Tally::Metric(QuietMetric::PreparedCellCacheHit)]
        } else {
            seq![
                Tally::Metric(QuietMetric::PreparedCellCacheInvalidation),
                Tally::Metric(QuietMetric::PreparedCellCacheMiss),
                Tally::Metric(QuietMetric::LayoutStableCellMeasurement),
            ]
        },
        None => seq![
            Tally::Metric(QuietMetric::PreparedCellCacheMiss),
            Tally::Metric(QuietMetric::LayoutStableCellMeasurement),
        ],
    }
}

/// What the layout of a frame counts for a cell: nothing where it is laid out at that width.
pub open spec fn layout_tallies(prepared: Option<u16>, width: u16) -> Seq<Tally> {
    if prepared == Some(width) {
        Seq::empty()
    } else {
        prepare_tallies(prepared, width)
    }
}

/// What a draw at a width counts.
pub open spec fn draw_tallies(prepared: Option<u16>, width: u16) -> Seq<Tally> {
    seq![Tally::Metric(QuietMetric::LayoutVisibleCellDraw)] + prepare_tallies(prepared, width)
}

impl PagerItem {
    /// The rows of the cell at a width. It is laid out only where the last layout was at another
    /// one.
    pub fn prepare(&mut self, metrics: &mut QuietLedger, width: u16) -> (r: u16)
        requires
            old(self).ready(),
        ensures
            final(self).ready(),
            r == pager_content::body_height(old(self)@.body, width),
            final(self)@ == (ItemModel { prepared: Some(width), ..old(self)@ }),
            ledger::counted(
                *old(metrics),
                *final(metrics),
                prepare_tallies(old(self)@.prepared, width),
            ),
    {
        let ghost start = *metrics;
        proof {
            ledger::lemma_counted_nothing(*metrics);
        }
        if let Some(last) = self.prepared {
            if last.width == width {
                ledger::bump(metrics, QuietMetric::PreparedCellCacheHit);
                return last.height;
            }
            ledger::bump(metrics, QuietMetric::PreparedCellCacheInvalidation);
        }
        let ghost one = *metrics;
        ledger::bump(metrics, QuietMetric::PreparedCellCacheMiss);
        let ghost two = *metrics;
        ledger::bump(metrics, QuietMetric::LayoutStableCellMeasurement);
        proof {
            let a = if self.prepared is Some {
                seq![Tally::Metric(QuietMetric::PreparedCellCacheInvalidation)]
            } else {
                Seq::empty()
            };
            let b = seq![Tally::Metric(QuietMetric::PreparedCellCacheMiss)];
            let c = seq![Tally::Metric(QuietMetric::LayoutStableCellMeasurement)];
            ledger::lemma_counted_concat(start, one, two, a, b);
            ledger::lemma_counted_concat(start, two, *metrics, a + b, c);
            assert(a + b + c =~= prepare_tallies(self@.prepared, width));
        }
        let height = pager_content::measure_body(&self.body, width);
        self.prepared = Some(PreparedConversationCell { width, height });
        height
    }

    /// The rows of the cell as it is drawn at a width.
    pub fn render(&mut self, metrics: &mut QuietLedger, width: u16) -> (r: u16)
        requires
            old(self).ready(),
        ensures
            final(self).ready(),
            r == pager_content::body_height(old(self)@.body, width),
            final(self)@ == (ItemModel { prepared: Some(width), ..old(self)@ }),
            ledger::counted(
                *old(metrics),
                *final(metrics),
                draw_tallies(old(self)@.prepared, width),
            ),
    {
        let ghost start = *metrics;
        ledger::bump(metrics, QuietMetric::LayoutVisibleCellDraw);
        let ghost one = *metrics;
        let height = self.prepare(metrics, width);
        proof {
            ledger::lemma_counted_concat(
                start,
                one,
                *metrics,
                seq![Tally::Metric(QuietMetric::LayoutVisibleCellDraw)],
                prepare_tallies(old(self)@.prepared, width),
            );
        }
        height
    }
}

pub proof fn lemma_no_live_rows(prepared: Option<u16>, width: u16)
    ensures
        ledger::occurrences(
            layout_tallies(prepared, width),
            QuietMetric::LiveTailMaxRows,
        ) == 0,
        ledger::occurrences(draw_tallies(prepared, width), QuietMetric::LiveTailMaxRows) == 0,
{
    reveal_with_fuel(ledger::occurrences, 5);
}

/// A cell that was laid out at a width is not laid out again at it, neither for the layout of a
/// frame nor for a draw.
pub proof fn law_same_width_is_laid_out_once(width: u16)
    ensures
        layout_tallies(Some(width), width) == Seq::<Tally>::empty(),
        draw_tallies(Some(width), width) == seq![
            Tally::Metric(QuietMetric::LayoutVisibleCellDraw),
            Tally::Metric(QuietMetric::PreparedCellCacheHit),
        ],
{
    assert(draw_tallies(Some(width), width) =~= seq![
        Tally::Metric(QuietMetric::LayoutVisibleCellDraw),
        Tally::Metric(QuietMetric::PreparedCellCacheHit),
    ]);
}

} // verus!
