//! The counters of a conversation beside what was classified in it.

use vstd::prelude::*;

use crate::classification_memo::CellState;
use crate::classification_memo::ClassificationMemo;
use crate::quiet_metrics;
use crate::quiet_metrics::QuietCounters;
use crate::quiet_metrics::QuietMetric;
use crate::quiet_metrics::RangeReplacementReason;
use crate::quiet_metrics::ToolRunSealReason;

verus! {

/// The counters, and the classifications that are kept.
pub struct QuietLedger {
    pub counters: QuietCounters,
    pub memo: ClassificationMemo,
}

/// Something that is counted: an event of one metric, or a look at a tool call, which counts by
/// what is kept of the call.
pub enum Tally {
    Metric(QuietMetric),
    Look { id: u64, state: CellState },
}

/// What a look at a call counts. A call in flight is passed over, and an unchanged one is taken
/// from the memo. Any other is scanned and kept; where another state of it was kept, that one is
/// dropped.
pub open spec fn look_metrics(memo: Map<u64, CellState>, id: u64, state: CellState) -> Seq<
    QuietMetric,
> {
    let known = memo.contains_key(id);
    let dropped = if known && memo[id] != state {
        seq![QuietMetric::ClassificationCacheInvalidation]
    } else {
        Seq::empty()
    };
    if state == CellState::InFlight {
        dropped + seq![QuietMetric::ClassificationInFlightBypass]
    } else if known && memo[id] == state {
        seq![QuietMetric::ClassificationCacheHit]
    } else {
        dropped + seq![
            QuietMetric::ClassificationCacheMiss,
            QuietMetric::ClassificationOutputScan,
            QuietMetric::ClassificationMemoPopulate,
        ]
    }
}

/// What is kept after the given tallies.
pub open spec fn memo_after(memo: Map<u64, CellState>, tallies: Seq<Tally>) -> Map<u64, CellState>
    decreases tallies.len(),
{
    if tallies.len() == 0 {
        memo
    } else {
        let before = memo_after(memo, tallies.drop_last());
        match tallies.last() {
            Tally::Metric(_) => before,
            Tally::Look { id, state } => before.insert(id, state),
        }
    }
}

/// The metrics that the given tallies move, in order.
pub open spec fn metrics_of(memo: Map<u64, CellState>, tallies: Seq<Tally>) -> Seq<QuietMetric>
    decreases tallies.len(),
{
    if tallies.len() == 0 {
        Seq::empty()
    } else {
        metrics_of(memo, tallies.drop_last()) + (match tallies.last() {
            Tally::Metric(metric) => seq![metric],
            Tally::Look { id, state } => look_metrics(
                memo_after(memo, tallies.drop_last()),
                id,
                state,
            ),
        })
    }
}

/// The ledger after the given tallies, in order.
#[verifier::opaque]
pub open spec fn counted(before: QuietLedger, after: QuietLedger, tallies: Seq<Tally>) -> bool {
    &&& after.memo.states() == memo_after(before.memo.states(), tallies)
    &&& quiet_metrics::counted(
        before.counters,
        after.counters,
        metrics_of(before.memo.states(), tallies),
    )
}

/// The ledger after a value was recorded for one metric.
pub open spec fn recorded(
    before: QuietLedger,
    after: QuietLedger,
    metric: QuietMetric,
    value: u64,
) -> bool {
    &&& after.memo == before.memo
    &&& quiet_metrics::recorded(before.counters, after.counters, metric, value)
}

/// The ledger after the given tallies, and after the rows of a live tail were recorded, where
/// there was one to record.
#[verifier::opaque]
pub open spec fn drawn(
    before: QuietLedger,
    after: QuietLedger,
    tallies: Seq<Tally>,
    rows: Option<u64>,
) -> bool {
    &&& after.memo.states() == memo_after(before.memo.states(), tallies)
    &&& quiet_metrics::drawn(
        before.counters,
        after.counters,
        metrics_of(before.memo.states(), tallies),
        rows,
    )
}

/// The ledger after the given tallies, and nothing else, were ever counted.
pub open spec fn holds(ledger: QuietLedger, tallies: Seq<Tally>) -> bool {
    &&& ledger.memo.states() == memo_after(Map::empty(), tallies)
    &&& quiet_metrics::holds_counts(ledger.counters, metrics_of(Map::empty(), tallies))
}

pub proof fn lemma_counted_from_new(before: QuietLedger, after: QuietLedger, tallies: Seq<Tally>)
    requires
        before.is_new(),
        counted(before, after, tallies),
    ensures
        holds(after, tallies),
{
    reveal(counted);
    assert(before.memo.states() =~= Map::empty());
    quiet_metrics::lemma_counted_from_zero(
        before.counters,
        after.counters,
        metrics_of(before.memo.states(), tallies),
    );
}

/// How often a metric is counted as such.
pub open spec fn occurrences(tallies: Seq<Tally>, m: QuietMetric) -> nat
    decreases tallies.len(),
{
    if tallies.len() == 0 {
        0
    } else {
        occurrences(tallies.drop_last(), m) + (if tallies.last() == Tally::Metric(m) {
            1nat
        } else {
            0nat
        })
    }
}

pub proof fn lemma_occurrences_concat(a: Seq<Tally>, b: Seq<Tally>, m: QuietMetric)
    ensures
        occurrences(a + b, m) == occurrences(a, m) + occurrences(b, m),
    decreases b.len(),
{
    if b.len() == 0 {
        assert(a + b =~= a);
    } else {
        assert((a + b).drop_last() =~= a + b.drop_last());
        lemma_occurrences_concat(a, b.drop_last(), m);
    }
}

impl QuietLedger {
    pub fn new() -> (r: Self)
        ensures
            r.is_new(),
    {
        QuietLedger { counters: QuietCounters::new(), memo: ClassificationMemo::new() }
    }

    /// Whether nothing was counted or kept yet.
    pub open spec fn is_new(&self) -> bool {
        &&& forall|m: QuietMetric|
            self.counters.count(m) == 0 && self.counters.test_count(m) == 0
        &&& self.memo.states() == Map::<u64, CellState>::empty()
    }
}

proof fn lemma_one_metric(memo: Map<u64, CellState>, metric: QuietMetric)
    ensures
        memo_after(memo, seq![Tally::Metric(metric)]) == memo,
        metrics_of(memo, seq![Tally::Metric(metric)]) == seq![metric],
{
    let one = seq![Tally::Metric(metric)];
    assert(one.drop_last() =~= Seq::<Tally>::empty());
    reveal_with_fuel(memo_after, 2);
    reveal_with_fuel(metrics_of, 2);
    assert(metrics_of(memo, one) =~= seq![metric]);
}

proof fn lemma_one_look(memo: Map<u64, CellState>, id: u64, state: CellState)
    ensures
        ({
            let one = seq![Tally::Look { id, state }];
            &&& memo_after(memo, one) == memo.insert(id, state)
            &&& metrics_of(memo, one) == look_metrics(memo, id, state)
        }),
{
    let one = seq![Tally::Look { id, state }];
    assert(one.drop_last() =~= Seq::<Tally>::empty());
    reveal_with_fuel(memo_after, 2);
    reveal_with_fuel(metrics_of, 2);
    assert(metrics_of(memo, one) =~= look_metrics(memo, id, state));
}

/// A look at a call that counted what it should and kept the state of the call.
pub proof fn lemma_looked(before: QuietLedger, after: QuietLedger, id: u64, state: CellState)
    requires
        after.memo.states() == before.memo.states().insert(id, state),
        quiet_metrics::counted(
            before.counters,
            after.counters,
            look_metrics(before.memo.states(), id, state),
        ),
    ensures
        counted(before, after, seq![Tally::Look { id, state }]),
{
    reveal(counted);
    lemma_one_look(before.memo.states(), id, state);
}

/// Counts one event.
pub fn bump(ledger: &mut QuietLedger, metric: QuietMetric)
    ensures
        counted(*old(ledger), *final(ledger), seq![Tally::Metric(metric)]),
        final(ledger).memo == old(ledger).memo,
        quiet_metrics::counted(old(ledger).counters, final(ledger).counters, seq![metric]),
{
    quiet_metrics::bump(&mut ledger.counters, metric);
    proof {
        reveal(counted);
        lemma_one_metric(ledger.memo.states(), metric);
    }
}

/// Keeps the largest value seen.
pub fn record_max(ledger: &mut QuietLedger, metric: QuietMetric, value: u64)
    ensures
        recorded(*old(ledger), *final(ledger), metric, value),
{
    quiet_metrics::record_max(&mut ledger.counters, metric, value);
}

/// Counts a seal, as such and by its reason.
pub fn bump_seal(ledger: &mut QuietLedger, reason: ToolRunSealReason)
    ensures
        counted(
            *old(ledger),
            *final(ledger),
            seq![
                Tally::Metric(QuietMetric::ToolRunSeal),
                Tally::Metric(quiet_metrics::seal_metric(reason)),
            ],
        ),
{
    quiet_metrics::bump_seal(&mut ledger.counters, reason);
    proof {
        reveal(counted);
        let memo = ledger.memo.states();
        let a = seq![Tally::Metric(QuietMetric::ToolRunSeal)];
        let b = seq![Tally::Metric(quiet_metrics::seal_metric(reason))];
        lemma_one_metric(memo, QuietMetric::ToolRunSeal);
        lemma_one_metric(memo, quiet_metrics::seal_metric(reason));
        lemma_tallies_concat(memo, a, b);
        assert(a + b =~= seq![
            Tally::Metric(QuietMetric::ToolRunSeal),
            Tally::Metric(quiet_metrics::seal_metric(reason)),
        ]);
        assert(metrics_of(memo, a + b) =~= seq![
            QuietMetric::ToolRunSeal,
            quiet_metrics::seal_metric(reason),
        ]);
    }
}

/// Counts a replacement by its reason.
pub fn bump_range_replacement(ledger: &mut QuietLedger, reason: RangeReplacementReason)
    ensures
        counted(
            *old(ledger),
            *final(ledger),
            seq![Tally::Metric(quiet_metrics::replacement_metric(reason))],
        ),
{
    quiet_metrics::bump_range_replacement(&mut ledger.counters, reason);
    proof {
        reveal(counted);
        lemma_one_metric(ledger.memo.states(), quiet_metrics::replacement_metric(reason));
    }
}

proof fn lemma_tallies_concat(memo: Map<u64, CellState>, a: Seq<Tally>, b: Seq<Tally>)
    ensures
        memo_after(memo, a + b) == memo_after(memo_after(memo, a), b),
        metrics_of(memo, a + b) == metrics_of(memo, a) + metrics_of(memo_after(memo, a), b),
    decreases b.len(),
{
    if b.len() == 0 {
        assert(a + b =~= a);
        assert(metrics_of(memo, a) + Seq::<QuietMetric>::empty() =~= metrics_of(memo, a));
    } else {
        assert((a + b).drop_last() =~= a + b.drop_last());
        lemma_tallies_concat(memo, a, b.drop_last());
        assert(metrics_of(memo, a + b) =~= metrics_of(memo, a) + metrics_of(
            memo_after(memo, a),
            b,
        ));
    }
}

pub proof fn lemma_counted_nothing(ledger: QuietLedger)
    ensures
        counted(ledger, ledger, Seq::empty()),
{
    reveal(counted);
    quiet_metrics::lemma_counted_nothing(ledger.counters);
}

/// Counting one list of tallies and then another is counting both.
pub proof fn lemma_counted_concat(
    first: QuietLedger,
    second: QuietLedger,
    third: QuietLedger,
    a: Seq<Tally>,
    b: Seq<Tally>,
)
    requires
        counted(first, second, a),
        counted(second, third, b),
    ensures
        counted(first, third, a + b),
{
    reveal(counted);
    let memo = first.memo.states();
    lemma_tallies_concat(memo, a, b);
    quiet_metrics::lemma_counted_concat(
        first.counters,
        second.counters,
        third.counters,
        metrics_of(memo, a),
        metrics_of(memo_after(memo, a), b),
    );
}

pub proof fn lemma_drawn_of_counted(before: QuietLedger, after: QuietLedger, tallies: Seq<Tally>)
    requires
        counted(before, after, tallies),
    ensures
        drawn(before, after, tallies, None),
{
    reveal(counted);
    reveal(drawn);
    quiet_metrics::lemma_drawn_of_counted(
        before.counters,
        after.counters,
        metrics_of(before.memo.states(), tallies),
    );
}

pub proof fn lemma_drawn_of_recorded(
    before: QuietLedger,
    middle: QuietLedger,
    after: QuietLedger,
    tallies: Seq<Tally>,
    rows: u64,
)
    requires
        counted(before, middle, tallies),
        recorded(middle, after, QuietMetric::LiveTailMaxRows, rows),
    ensures
        drawn(before, after, tallies, Some(rows)),
{
    reveal(counted);
    reveal(drawn);
    quiet_metrics::lemma_drawn_of_recorded(
        before.counters,
        middle.counters,
        after.counters,
        metrics_of(before.memo.states(), tallies),
        rows,
    );
}

/// What was counted before a frame was drawn counts with it.
pub proof fn lemma_drawn_after(
    first: QuietLedger,
    second: QuietLedger,
    third: QuietLedger,
    a: Seq<Tally>,
    b: Seq<Tally>,
    rows: Option<u64>,
)
    requires
        counted(first, second, a),
        drawn(second, third, b, rows),
    ensures
        drawn(first, third, a + b, rows),
{
    reveal(counted);
    reveal(drawn);
    let memo = first.memo.states();
    lemma_tallies_concat(memo, a, b);
    quiet_metrics::lemma_drawn_after(
        first.counters,
        second.counters,
        third.counters,
        metrics_of(memo, a),
        metrics_of(memo_after(memo, a), b),
        rows,
    );
}

/// What is counted after the live tail counts with the frame.
pub proof fn lemma_counted_after_drawn(
    first: QuietLedger,
    second: QuietLedger,
    third: QuietLedger,
    a: Seq<Tally>,
    b: Seq<Tally>,
    rows: Option<u64>,
)
    requires
        drawn(first, second, a, rows),
        counted(second, third, b),
        occurrences(b, QuietMetric::LiveTailMaxRows) == 0,
    ensures
        drawn(first, third, a + b, rows),
{
    reveal(counted);
    reveal(drawn);
    let memo = first.memo.states();
    lemma_tallies_concat(memo, a, b);
    lemma_no_live_rows(memo_after(memo, a), b);
    quiet_metrics::lemma_counted_after_drawn(
        first.counters,
        second.counters,
        third.counters,
        metrics_of(memo, a),
        metrics_of(memo_after(memo, a), b),
        rows,
    );
}

/// A look at a call does not count live rows.
proof fn lemma_no_live_rows(memo: Map<u64, CellState>, tallies: Seq<Tally>)
    requires
        occurrences(tallies, QuietMetric::LiveTailMaxRows) == 0,
    ensures
        quiet_metrics::occurrences(metrics_of(memo, tallies), QuietMetric::LiveTailMaxRows) == 0,
    decreases tallies.len(),
{
    if tallies.len() > 0 {
        let rest = tallies.drop_last();
        lemma_no_live_rows(memo, rest);
        let last = match tallies.last() {
            Tally::Metric(metric) => seq![metric],
            Tally::Look { id, state } => look_metrics(memo_after(memo, rest), id, state),
        };
        lemma_none_of(last, QuietMetric::LiveTailMaxRows);
        quiet_metrics::lemma_occurrences_concat(
            metrics_of(memo, rest),
            last,
            QuietMetric::LiveTailMaxRows,
        );
    }
}

proof fn lemma_none_of(metrics: Seq<QuietMetric>, m: QuietMetric)
    requires
        forall|i: int| 0 <= i < metrics.len() ==> metrics[i] != m,
    ensures
        quiet_metrics::occurrences(metrics, m) == 0,
    decreases metrics.len(),
{
    if metrics.len() > 0 {
        lemma_none_of(metrics.drop_last(), m);
    }
}

/// A finished call is scanned once: a second look at it, in the same state, is taken from the memo
/// and scans nothing, whatever other calls were looked at in between.
pub proof fn law_an_unchanged_call_is_scanned_once(
    memo: Map<u64, CellState>,
    id: u64,
    state: CellState,
    between: Seq<Tally>,
)
    requires
        state != CellState::InFlight,
        forall|k: int|
            0 <= k < between.len() ==> match #[trigger] between[k] {
                Tally::Look { id: other, state: _ } => other != id,
                Tally::Metric(_) => true,
            },
    ensures
        look_metrics(memo_after(memo, seq![Tally::Look { id, state }] + between), id, state)
            == seq![QuietMetric::ClassificationCacheHit],
    decreases between.len(),
{
    let first = seq![Tally::Look { id, state }];
    lemma_one_look(memo, id, state);
    lemma_tallies_concat(memo, first, between);
    lemma_look_stays(memo_after(memo, first), id, between);
}

proof fn lemma_look_stays(memo: Map<u64, CellState>, id: u64, between: Seq<Tally>)
    requires
        memo.contains_key(id),
        forall|k: int|
            0 <= k < between.len() ==> match #[trigger] between[k] {
                Tally::Look { id: other, state: _ } => other != id,
                Tally::Metric(_) => true,
            },
    ensures
        memo_after(memo, between).contains_key(id),
        memo_after(memo, between)[id] == memo[id],
    decreases between.len(),
{
    if between.len() > 0 {
        let last = between[between.len() - 1];
        lemma_look_stays(memo, id, between.drop_last());
    }
}

/// A call whose output, completion or failure changed is scanned again, and what was kept of it is
/// dropped.
pub proof fn law_a_changed_call_is_scanned_again(
    memo: Map<u64, CellState>,
    id: u64,
    kept: CellState,
    state: CellState,
)
    requires
        state != CellState::InFlight,
        kept != state,
    ensures
        look_metrics(memo_after(memo, seq![Tally::Look { id, state: kept }]), id, state) == seq![
            QuietMetric::ClassificationCacheInvalidation,
            QuietMetric::ClassificationCacheMiss,
            QuietMetric::ClassificationOutputScan,
            QuietMetric::ClassificationMemoPopulate,
        ],
{
    lemma_one_look(memo, id, kept);
    assert(look_metrics(memo.insert(id, kept), id, state) =~= seq![
        QuietMetric::ClassificationCacheInvalidation,
        QuietMetric::ClassificationCacheMiss,
        QuietMetric::ClassificationOutputScan,
        QuietMetric::ClassificationMemoPopulate,
    ]);
}

} // verus!
