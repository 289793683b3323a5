//! Fixed-cardinality counters for the quiet retained-render pipeline.
//!
//! These counters deliberately have no dynamic labels, paths, commands, or session identifiers.
//! They make render-cost regressions observable without retaining user content or allowing metric
//! cardinality to grow with conversation length.

use vstd::prelude::*;

verus! {

#[derive(Clone, Copy, Debug, PartialEq, Eq, Structural)]
pub enum QuietMetric {
    SourceAppend,
    ToolRunSeal,
    FullProjection,
    RangeReplacement,
    InlineReflow,
    ClassificationCacheHit,
    ClassificationCacheMiss,
    ClassificationCacheInvalidation,
    ClassificationInFlightBypass,
    PreparedCellCacheHit,
    PreparedCellCacheMiss,
    LivePrimaryRebuild,
    LiveTokenRebuild,
    LiveRateLimitRebuild,
    FrameRequestImmediate,
    FrameRequestDelayed,
    FrameEmitted,
    RenderUnder1Ms,
    RenderUnder2Ms,
    RenderUnder4Ms,
    RenderUnder8Ms,
    RenderUnder12Ms,
    RenderUnder16Ms,
    RenderUnder33Ms,
    RenderOver33Ms,
    RenderMaxMicros,
    SourceAppendOpen,
    RangeReplacementSeal,
    RangeReplacementLifecycle,
    RangeReplacementStructural,
    RangeReplacementUserToggle,
    SealAssistantStream,
    SealPlanStream,
    SealReasoningStream,
    SealBarrier,
    SealTurnBoundary,
    SealTurnComplete,
    SealReplayEnd,
    FullProjectionReset,
    FullProjectionReplayCommit,
    FullProjectionGlobalMode,
    FullProjectionUnexpected,
    InlineReflowSeal,
    InlineReflowStructural,
    ClassificationMemoPopulate,
    ClassificationOutputScan,
    SealClassificationDivergence,
    PreparedCellCacheInvalidation,
    LayoutStableCellMeasurement,
    LayoutVisibleCellDraw,
    LiveTailMaxRows,
    LiveTailHoleObservation,
    BottomHeightOrdinaryChange,
    BottomHeightDetailedChange,
    BottomHeightModalChange,
}

/// The number of metrics.
pub const METRIC_COUNT: usize = 55;

/// The place of a metric among the counters.
pub open spec fn metric_index(metric: QuietMetric) -> int {
    match metric {
        QuietMetric::SourceAppend => 0,
        QuietMetric::ToolRunSeal => 1,
        QuietMetric::FullProjection => 2,
        QuietMetric::RangeReplacement => 3,
        QuietMetric::InlineReflow => 4,
        QuietMetric::ClassificationCacheHit => 5,
        QuietMetric::ClassificationCacheMiss => 6,
        QuietMetric::ClassificationCacheInvalidation => 7,
        QuietMetric::ClassificationInFlightBypass => 8,
        QuietMetric::PreparedCellCacheHit => 9,
        QuietMetric::PreparedCellCacheMiss => 10,
        QuietMetric::LivePrimaryRebuild => 11,
        QuietMetric::LiveTokenRebuild => 12,
        QuietMetric::LiveRateLimitRebuild => 13,
        QuietMetric::FrameRequestImmediate => 14,
        QuietMetric::FrameRequestDelayed => 15,
        QuietMetric::FrameEmitted => 16,
        QuietMetric::RenderUnder1Ms => 17,
        QuietMetric::RenderUnder2Ms => 18,
        QuietMetric::RenderUnder4Ms => 19,
        QuietMetric::RenderUnder8Ms => 20,
        QuietMetric::RenderUnder12Ms => 21,
        QuietMetric::RenderUnder16Ms => 22,
        QuietMetric::RenderUnder33Ms => 23,
        QuietMetric::RenderOver33Ms => 24,
        QuietMetric::RenderMaxMicros => 25,
        QuietMetric::SourceAppendOpen => 26,
        QuietMetric::RangeReplacementSeal => 27,
        QuietMetric::RangeReplacementLifecycle => 28,
        QuietMetric::RangeReplacementStructural => 29,
        QuietMetric::RangeReplacementUserToggle => 30,
        QuietMetric::SealAssistantStream => 31,
        QuietMetric::SealPlanStream => 32,
        QuietMetric::SealReasoningStream => 33,
        QuietMetric::SealBarrier => 34,
        QuietMetric::SealTurnBoundary => 35,
        QuietMetric::SealTurnComplete => 36,
        QuietMetric::SealReplayEnd => 37,
        QuietMetric::FullProjectionReset => 38,
        QuietMetric::FullProjectionReplayCommit => 39,
        QuietMetric::FullProjectionGlobalMode => 40,
        QuietMetric::FullProjectionUnexpected => 41,
        QuietMetric::InlineReflowSeal => 42,
        QuietMetric::InlineReflowStructural => 43,
        QuietMetric::ClassificationMemoPopulate => 44,
        QuietMetric::ClassificationOutputScan => 45,
        QuietMetric::SealClassificationDivergence => 46,
        QuietMetric::PreparedCellCacheInvalidation => 47,
        QuietMetric::LayoutStableCellMeasurement => 48,
        QuietMetric::LayoutVisibleCellDraw => 49,
        QuietMetric::LiveTailMaxRows => 50,
        QuietMetric::LiveTailHoleObservation => 51,
        QuietMetric::BottomHeightOrdinaryChange => 52,
        QuietMetric::BottomHeightDetailedChange => 53,
        QuietMetric::BottomHeightModalChange => 54,
    }
}

fn index_of_metric(metric: QuietMetric) -> (r: usize)
    ensures
        r == metric_index(metric),
        r < METRIC_COUNT,
{
    match metric {
        QuietMetric::SourceAppend => 0,
        QuietMetric::ToolRunSeal => 1,
        QuietMetric::FullProjection => 2,
        QuietMetric::RangeReplacement => 3,
        QuietMetric::InlineReflow => 4,
        QuietMetric::ClassificationCacheHit => 5,
        QuietMetric::ClassificationCacheMiss => 6,
        QuietMetric::ClassificationCacheInvalidation => 7,
        QuietMetric::ClassificationInFlightBypass => 8,
        QuietMetric::PreparedCellCacheHit => 9,
        QuietMetric::PreparedCellCacheMiss => 10,
        QuietMetric::LivePrimaryRebuild => 11,
        QuietMetric::LiveTokenRebuild => 12,
        QuietMetric::LiveRateLimitRebuild => 13,
        QuietMetric::FrameRequestImmediate => 14,
        QuietMetric::FrameRequestDelayed => 15,
        QuietMetric::FrameEmitted => 16,
        QuietMetric::RenderUnder1Ms => 17,
        QuietMetric::RenderUnder2Ms => 18,
        QuietMetric::RenderUnder4Ms => 19,
        QuietMetric::RenderUnder8Ms => 20,
        QuietMetric::RenderUnder12Ms => 21,
        QuietMetric::RenderUnder16Ms => 22,
        QuietMetric::RenderUnder33Ms => 23,
        QuietMetric::RenderOver33Ms => 24,
        QuietMetric::RenderMaxMicros => 25,
        QuietMetric::SourceAppendOpen => 26,
        QuietMetric::RangeReplacementSeal => 27,
        QuietMetric::RangeReplacementLifecycle => 28,
        QuietMetric::RangeReplacementStructural => 29,
        QuietMetric::RangeReplacementUserToggle => 30,
        QuietMetric::SealAssistantStream => 31,
        QuietMetric::SealPlanStream => 32,
        QuietMetric::SealReasoningStream => 33,
        QuietMetric::SealBarrier => 34,
        QuietMetric::SealTurnBoundary => 35,
        QuietMetric::SealTurnComplete => 36,
        QuietMetric::SealReplayEnd => 37,
        QuietMetric::FullProjectionReset => 38,
        QuietMetric::FullProjectionReplayCommit => 39,
        QuietMetric::FullProjectionGlobalMode => 40,
        QuietMetric::FullProjectionUnexpected => 41,
        QuietMetric::InlineReflowSeal => 42,
        QuietMetric::InlineReflowStructural => 43,
        QuietMetric::ClassificationMemoPopulate => 44,
        QuietMetric::ClassificationOutputScan => 45,
        QuietMetric::SealClassificationDivergence => 46,
        QuietMetric::PreparedCellCacheInvalidation => 47,
        QuietMetric::LayoutStableCellMeasurement => 48,
        QuietMetric::LayoutVisibleCellDraw => 49,
        QuietMetric::LiveTailMaxRows => 50,
        QuietMetric::LiveTailHoleObservation => 51,
        QuietMetric::BottomHeightOrdinaryChange => 52,
        QuietMetric::BottomHeightDetailedChange => 53,
        QuietMetric::BottomHeightModalChange => 54,
    }
}

/// The metric at a place.
spec fn metric_at(i: int) -> QuietMetric {
    if i == 0 {
        QuietMetric::SourceAppend
    } else if i == 1 {
        QuietMetric::ToolRunSeal
    } else if i == 2 {
        QuietMetric::FullProjection
    } else if i == 3 {
        QuietMetric::RangeReplacement
    } else if i == 4 {
        QuietMetric::InlineReflow
    } else if i == 5 {
        QuietMetric::ClassificationCacheHit
    } else if i == 6 {
        QuietMetric::ClassificationCacheMiss
    } else if i == 7 {
        QuietMetric::ClassificationCacheInvalidation
    } else if i == 8 {
        QuietMetric::ClassificationInFlightBypass
    } else if i == 9 {
        QuietMetric::PreparedCellCacheHit
    } else if i == 10 {
        QuietMetric::PreparedCellCacheMiss
    } else if i == 11 {
        QuietMetric::LivePrimaryRebuild
    } else if i == 12 {
        QuietMetric::LiveTokenRebuild
    } else if i == 13 {
        QuietMetric::LiveRateLimitRebuild
    } else if i == 14 {
        QuietMetric::FrameRequestImmediate
    } else if i == 15 {
        QuietMetric::FrameRequestDelayed
    } else if i == 16 {
        QuietMetric::FrameEmitted
    } else if i == 17 {
        QuietMetric::RenderUnder1Ms
    } else if i == 18 {
        QuietMetric::RenderUnder2Ms
    } else if i == 19 {
        QuietMetric::RenderUnder4Ms
    } else if i == 20 {
        QuietMetric::RenderUnder8Ms
    } else if i == 21 {
        QuietMetric::RenderUnder12Ms
    } else if i == 22 {
        QuietMetric::RenderUnder16Ms
    } else if i == 23 {
        QuietMetric::RenderUnder33Ms
    } else if i == 24 {
        QuietMetric::RenderOver33Ms
    } else if i == 25 {
        QuietMetric::RenderMaxMicros
    } else if i == 26 {
        QuietMetric::SourceAppendOpen
    } else if i == 27 {
        QuietMetric::RangeReplacementSeal
    } else if i == 28 {
        QuietMetric::RangeReplacementLifecycle
    } else if i == 29 {
        QuietMetric::RangeReplacementStructural
    } else if i == 30 {
        QuietMetric::RangeReplacementUserToggle
    } else if i == 31 {
        QuietMetric::SealAssistantStream
    } else if i == 32 {
        QuietMetric::SealPlanStream
    } else if i == 33 {
        QuietMetric::SealReasoningStream
    } else if i == 34 {
        QuietMetric::SealBarrier
    } else if i == 35 {
        QuietMetric::SealTurnBoundary
    } else if i == 36 {
        QuietMetric::SealTurnComplete
    } else if i == 37 {
        QuietMetric::SealReplayEnd
    } else if i == 38 {
        QuietMetric::FullProjectionReset
    } else if i == 39 {
        QuietMetric::FullProjectionReplayCommit
    } else if i == 40 {
        QuietMetric::FullProjectionGlobalMode
    } else if i == 41 {
        QuietMetric::FullProjectionUnexpected
    } else if i == 42 {
        QuietMetric::InlineReflowSeal
    } else if i == 43 {
        QuietMetric::InlineReflowStructural
    } else if i == 44 {
        QuietMetric::ClassificationMemoPopulate
    } else if i == 45 {
        QuietMetric::ClassificationOutputScan
    } else if i == 46 {
        QuietMetric::SealClassificationDivergence
    } else if i == 47 {
        QuietMetric::PreparedCellCacheInvalidation
    } else if i == 48 {
        QuietMetric::LayoutStableCellMeasurement
    } else if i == 49 {
        QuietMetric::LayoutVisibleCellDraw
    } else if i == 50 {
        QuietMetric::LiveTailMaxRows
    } else if i == 51 {
        QuietMetric::LiveTailHoleObservation
    } else if i == 52 {
        QuietMetric::BottomHeightOrdinaryChange
    } else if i == 53 {
        QuietMetric::BottomHeightDetailedChange
    } else {
        QuietMetric::BottomHeightModalChange
    }
}

proof fn lemma_metric_index(metric: QuietMetric)
    ensures
        0 <= metric_index(metric) < METRIC_COUNT,
        metric_at(metric_index(metric)) == metric,
{
}

/// The counters of a process, and the counters that a test resets and reads.
pub struct QuietCounters {
    process: Vec<u64>,
    test: Vec<u64>,
}

impl QuietCounters {
    #[verifier::type_invariant]
    spec fn sized(&self) -> bool {
        self.process@.len() == METRIC_COUNT && self.test@.len() == METRIC_COUNT
    }

    /// The process counter of a metric. It wraps around.
    pub closed spec fn count(&self, metric: QuietMetric) -> u64 {
        self.process@[metric_index(metric)]
    }

    /// The test counter of a metric. It stops at the largest value.
    pub closed spec fn test_count(&self, metric: QuietMetric) -> u64 {
        self.test@[metric_index(metric)]
    }

    pub fn new() -> (r: Self)
        ensures
            forall|m: QuietMetric| r.count(m) == 0 && r.test_count(m) == 0,
    {
        let process = zeros();
        let test = zeros();
        proof {
            assert forall|m: QuietMetric|
                process@[metric_index(m)] == 0 && test@[metric_index(m)] == 0 by {
                lemma_metric_index(m);
            }
        }
        QuietCounters { process, test }
    }

    fn store(&mut self, metric: QuietMetric, process_value: u64, test_value: u64)
        ensures
            final(self).count(metric) == process_value,
            final(self).test_count(metric) == test_value,
            forall|m: QuietMetric|
                m != metric ==> final(self).count(m) == old(self).count(m) && final(self).test_count(
                    m,
                ) == old(self).test_count(m),
    {
        proof {
            use_type_invariant(&*self);
        }
        let index = index_of_metric(metric);
        let mut process: Vec<u64> = Vec::new();
        let mut test: Vec<u64> = Vec::new();
        let mut i: usize = 0;
        while i < METRIC_COUNT
            invariant
                i <= METRIC_COUNT,
                index == metric_index(metric),
                self.process@.len() == METRIC_COUNT,
                self.test@.len() == METRIC_COUNT,
                process@.len() == i,
                test@.len() == i,
                *self == *old(self),
                forall|j: int|
                    0 <= j < i ==> process@[j] == (if j == index {
                        process_value
                    } else {
                        self.process@[j]
                    }),
                forall|j: int|
                    0 <= j < i ==> test@[j] == (if j == index {
                        test_value
                    } else {
                        self.test@[j]
                    }),
            decreases METRIC_COUNT - i,
        {
            process.push(
                if i == index {
                    process_value
                } else {
                    self.process[i]
                },
            );
            test.push(
                if i == index {
                    test_value
                } else {
                    self.test[i]
                },
            );
            i += 1;
        }
        *self = QuietCounters { process, test };
        proof {
            assert forall|m: QuietMetric| m != metric implies self.count(m) == old(self).count(m)
                && self.test_count(m) == old(self).test_count(m) by {
                lemma_metric_index(m);
                lemma_metric_index(metric);
            }
        }
    }

    fn load(&self, metric: QuietMetric) -> (r: (u64, u64))
        ensures
            r.0 == self.count(metric),
            r.1 == self.test_count(metric),
    {
        proof {
            use_type_invariant(self);
        }
        let index = index_of_metric(metric);
        (self.process[index], self.test[index])
    }
}

fn zeros() -> (r: Vec<u64>)
    ensures
        r@.len() == METRIC_COUNT,
        forall|i: int| 0 <= i < METRIC_COUNT ==> r@[i] == 0,
{
    let mut out: Vec<u64> = Vec::new();
    let mut i: usize = 0;
    while i < METRIC_COUNT
        invariant
            i <= METRIC_COUNT,
            out@.len() == i,
            forall|j: int| 0 <= j < i ==> out@[j] == 0,
        decreases METRIC_COUNT - i,
    {
        out.push(0);
        i += 1;
    }
    out
}

/// Why a run was sealed.
#[derive(Clone, Copy, Debug, PartialEq, Eq, Structural)]
pub enum ToolRunSealReason {
    AssistantStream,
    PlanStream,
    ReasoningStream,
    Barrier,
    TurnBoundary,
    TurnComplete,
    ReplayEnd,
}

/// Why a range of the retained conversation was replaced.
#[derive(Clone, Copy, Debug, PartialEq, Eq, Structural)]
pub enum RangeReplacementReason {
    Seal,
    Lifecycle,
    StructuralEdit,
    UserToggle,
}

/// The counters after the given metrics were counted once each, in order.
#[verifier::opaque]
pub open spec fn counted(before: QuietCounters, after: QuietCounters, metrics: Seq<QuietMetric>) -> bool {
    forall|m: QuietMetric|
        #![trigger after.count(m)]
        #![trigger after.test_count(m)]
        {
            let n = occurrences(metrics, m);
            &&& after.count(m) == wrapped_sum(before.count(m), n)
            &&& after.test_count(m) == stopped_sum(before.test_count(m), n)
        }
}

pub open spec fn occurrences(metrics: Seq<QuietMetric>, m: QuietMetric) -> nat
    decreases metrics.len(),
{
    if metrics.len() == 0 {
        0
    } else {
        occurrences(metrics.drop_last(), m) + (if metrics.last() == m {
            1nat
        } else {
            0nat
        })
    }
}

/// The sum, wrapped around at the size of a counter.
pub open spec fn wrapped_sum(a: u64, n: nat) -> u64
    decreases n,
{
    if n == 0 {
        a
    } else if wrapped_sum(a, (n - 1) as nat) == u64::MAX {
        0
    } else {
        (wrapped_sum(a, (n - 1) as nat) + 1) as u64
    }
}

/// The sum, stopped at the largest value of a counter.
pub open spec fn stopped_sum(a: u64, n: nat) -> u64 {
    if a + n <= u64::MAX {
        (a + n) as u64
    } else {
        u64::MAX
    }
}

proof fn lemma_counted_one(metric: QuietMetric, m: QuietMetric)
    ensures
        occurrences(seq![metric], m) == (if m == metric {
            1nat
        } else {
            0nat
        }),
{
    assert(seq![metric].drop_last() =~= Seq::empty());
    reveal_with_fuel(occurrences, 2);
}

/// Counts one event.
pub fn bump(counters: &mut QuietCounters, metric: QuietMetric)
    ensures
        counted(*old(counters), *final(counters), seq![metric]),
{
    let (process, test) = counters.load(metric);
    let next: u64 = if process == u64::MAX {
        0
    } else {
        process + 1
    };
    counters.store(metric, next, test.saturating_add(1));
    proof {
        reveal(counted);
        reveal_with_fuel(wrapped_sum, 2);
        assert forall|m: QuietMetric|
            #![trigger counters.count(m)]
            #![trigger counters.test_count(m)]
            {
                let n = occurrences(seq![metric], m);
                &&& counters.count(m) == wrapped_sum(old(counters).count(m), n)
                &&& counters.test_count(m) == stopped_sum(old(counters).test_count(m), n)
            } by {
            lemma_counted_one(metric, m);
        }
    }
}

/// Keeps the largest value seen.
pub fn record_max(counters: &mut QuietCounters, metric: QuietMetric, value: u64)
    ensures
        recorded(*old(counters), *final(counters), metric, value),
{
    let (process, test) = counters.load(metric);
    counters.store(
        metric,
        if process < value {
            value
        } else {
            process
        },
        if test < value {
            value
        } else {
            test
        },
    );
}

pub open spec fn larger(a: u64, b: u64) -> u64 {
    if a < b {
        b
    } else {
        a
    }
}

/// The counters after a value was recorded for one metric.
pub open spec fn recorded(
    before: QuietCounters,
    after: QuietCounters,
    metric: QuietMetric,
    value: u64,
) -> bool {
    forall|m: QuietMetric|
        #![trigger after.count(m)]
        #![trigger after.test_count(m)]
        {
            &&& after.count(m) == (if m == metric {
                larger(before.count(m), value)
            } else {
                before.count(m)
            })
            &&& after.test_count(m) == (if m == metric {
                larger(before.test_count(m), value)
            } else {
                before.test_count(m)
            })
        }
}

pub open spec fn seal_metric(reason: ToolRunSealReason) -> QuietMetric {
    match reason {
        ToolRunSealReason::AssistantStream => QuietMetric::SealAssistantStream,
        ToolRunSealReason::PlanStream => QuietMetric::SealPlanStream,
        ToolRunSealReason::ReasoningStream => QuietMetric::SealReasoningStream,
        ToolRunSealReason::Barrier => QuietMetric::SealBarrier,
        ToolRunSealReason::TurnBoundary => QuietMetric::SealTurnBoundary,
        ToolRunSealReason::TurnComplete => QuietMetric::SealTurnComplete,
        ToolRunSealReason::ReplayEnd => QuietMetric::SealReplayEnd,
    }
}

/// A count, or the largest value recorded beside it for the metric of live rows.
pub open spec fn peaked(m: QuietMetric, count: u64, rows: Option<u64>) -> u64 {
    match rows {
        Some(rows) => if m == QuietMetric::LiveTailMaxRows {
            larger(count, rows)
        } else {
            count
        },
        None => count,
    }
}

/// The counters after the given metrics, and after the rows of a live tail were recorded, where
/// there was one to record.
#[verifier::opaque]
pub open spec fn drawn(
    before: QuietCounters,
    after: QuietCounters,
    metrics: Seq<QuietMetric>,
    rows: Option<u64>,
) -> bool {
    forall|m: QuietMetric|
        #![trigger after.count(m)]
        #![trigger after.test_count(m)]
        {
            let n = occurrences(metrics, m);
            &&& after.count(m) == peaked(m, wrapped_sum(before.count(m), n), rows)
            &&& after.test_count(m) == peaked(m, stopped_sum(before.test_count(m), n), rows)
        }
}

pub proof fn lemma_drawn_of_counted(
    before: QuietCounters,
    after: QuietCounters,
    metrics: Seq<QuietMetric>,
)
    requires
        counted(before, after, metrics),
    ensures
        drawn(before, after, metrics, None),
{
    reveal(counted);
    reveal(drawn);
}

pub proof fn lemma_drawn_of_recorded(
    before: QuietCounters,
    middle: QuietCounters,
    after: QuietCounters,
    metrics: Seq<QuietMetric>,
    rows: u64,
)
    requires
        counted(before, middle, metrics),
        recorded(middle, after, QuietMetric::LiveTailMaxRows, rows),
    ensures
        drawn(before, after, metrics, Some(rows)),
{
    reveal(counted);
    reveal(drawn);
    assert forall|m: QuietMetric|
        #![trigger after.count(m)]
        #![trigger after.test_count(m)]
        {
            let n = occurrences(metrics, m);
            &&& after.count(m) == peaked(m, wrapped_sum(before.count(m), n), Some(rows))
            &&& after.test_count(m) == peaked(m, stopped_sum(before.test_count(m), n), Some(rows))
        } by {
        let keep = middle.count(m);
    }
}

/// Counting and then drawing is drawing with more that is counted.
pub proof fn lemma_drawn_after(
    first: QuietCounters,
    second: QuietCounters,
    third: QuietCounters,
    a: Seq<QuietMetric>,
    b: Seq<QuietMetric>,
    rows: Option<u64>,
)
    requires
        counted(first, second, a),
        drawn(second, third, b, rows),
    ensures
        drawn(first, third, a + b, rows),
{
    reveal(counted);
    reveal(drawn);
    assert forall|m: QuietMetric|
        #![trigger third.count(m)]
        #![trigger third.test_count(m)]
        {
            let n = occurrences(a + b, m);
            &&& third.count(m) == peaked(m, wrapped_sum(first.count(m), n), rows)
            &&& third.test_count(m) == peaked(m, stopped_sum(first.test_count(m), n), rows)
        } by {
        lemma_occurrences_concat(a, b, m);
        let keep = second.count(m);
        lemma_wrapped_sum_adds(first.count(m), occurrences(a, m), occurrences(b, m));
    }
}

/// Drawing and then counting other metrics than the live rows is drawing with more that is
/// counted.
pub proof fn lemma_counted_after_drawn(
    first: QuietCounters,
    second: QuietCounters,
    third: QuietCounters,
    a: Seq<QuietMetric>,
    b: Seq<QuietMetric>,
    rows: Option<u64>,
)
    requires
        drawn(first, second, a, rows),
        counted(second, third, b),
        occurrences(b, QuietMetric::LiveTailMaxRows) == 0,
    ensures
        drawn(first, third, a + b, rows),
{
    reveal(counted);
    reveal(drawn);
    assert forall|m: QuietMetric|
        #![trigger third.count(m)]
        #![trigger third.test_count(m)]
        {
            let n = occurrences(a + b, m);
            &&& third.count(m) == peaked(m, wrapped_sum(first.count(m), n), rows)
            &&& third.test_count(m) == peaked(m, stopped_sum(first.test_count(m), n), rows)
        } by {
        lemma_occurrences_concat(a, b, m);
        let keep = second.count(m);
        lemma_wrapped_sum_adds(first.count(m), occurrences(a, m), occurrences(b, m));
    }
}

/// Counts a seal, as such and by its reason.
pub fn bump_seal(counters: &mut QuietCounters, reason: ToolRunSealReason)
    ensures
        counted(
            *old(counters),
            *final(counters),
            seq![QuietMetric::ToolRunSeal, seal_metric(reason)],
        ),
{
    let metric = match reason {
        ToolRunSealReason::AssistantStream => QuietMetric::SealAssistantStream,
        ToolRunSealReason::PlanStream => QuietMetric::SealPlanStream,
        ToolRunSealReason::ReasoningStream => QuietMetric::SealReasoningStream,
        ToolRunSealReason::Barrier => QuietMetric::SealBarrier,
        ToolRunSealReason::TurnBoundary => QuietMetric::SealTurnBoundary,
        ToolRunSealReason::TurnComplete => QuietMetric::SealTurnComplete,
        ToolRunSealReason::ReplayEnd => QuietMetric::SealReplayEnd,
    };
    bump(counters, QuietMetric::ToolRunSeal);
    let ghost middle = *counters;
    bump(counters, metric);
    proof {
        lemma_counted_concat(
            *old(counters),
            middle,
            *counters,
            seq![QuietMetric::ToolRunSeal],
            seq![metric],
        );
        assert(seq![QuietMetric::ToolRunSeal] + seq![metric] =~= seq![
            QuietMetric::ToolRunSeal,
            metric,
        ]);
    }
}

pub proof fn lemma_occurrences_concat(a: Seq<QuietMetric>, b: Seq<QuietMetric>, m: QuietMetric)
    ensures
        occurrences(a + b, m) == occurrences(a, m) + occurrences(b, m),
    decreases b.len(),
{
    if b.len() == 0 {
        assert(a + b =~= a);
    } else {
        assert((a + b).drop_last() =~= a + b.drop_last());
        lemma_occurrences_concat(a, b.drop_last(), m);
    }
}

proof fn lemma_wrapped_sum_adds(a: u64, i: nat, j: nat)
    ensures
        wrapped_sum(wrapped_sum(a, i), j) == wrapped_sum(a, i + j),
    decreases j,
{
    if j > 0 {
        lemma_wrapped_sum_adds(a, i, (j - 1) as nat);
    }
}

pub proof fn lemma_counted_nothing(counters: QuietCounters)
    ensures
        counted(counters, counters, Seq::empty()),
{
    reveal(counted);
}

/// The counters after the given metrics, and nothing else, were ever counted.
pub open spec fn holds_counts(counters: QuietCounters, metrics: Seq<QuietMetric>) -> bool {
    forall|m: QuietMetric|
        #![trigger counters.count(m)]
        #![trigger counters.test_count(m)]
        {
            let n = occurrences(metrics, m);
            &&& counters.count(m) == wrapped_sum(0, n)
            &&& counters.test_count(m) == stopped_sum(0, n)
        }
}

pub proof fn lemma_counted_from_zero(
    before: QuietCounters,
    after: QuietCounters,
    metrics: Seq<QuietMetric>,
)
    requires
        forall|m: QuietMetric| before.count(m) == 0 && before.test_count(m) == 0,
        counted(before, after, metrics),
    ensures
        holds_counts(after, metrics),
{
    reveal(counted);
}

/// Counting one list of metrics and then another is counting both.
pub proof fn lemma_counted_concat(
    first: QuietCounters,
    second: QuietCounters,
    third: QuietCounters,
    a: Seq<QuietMetric>,
    b: Seq<QuietMetric>,
)
    requires
        counted(first, second, a),
        counted(second, third, b),
    ensures
        counted(first, third, a + b),
{
    reveal(counted);
    assert forall|m: QuietMetric|
        #![trigger third.count(m)]
        #![trigger third.test_count(m)]
        {
            let n = occurrences(a + b, m);
            &&& third.count(m) == wrapped_sum(first.count(m), n)
            &&& third.test_count(m) == stopped_sum(first.test_count(m), n)
        } by {
        lemma_occurrences_concat(a, b, m);
        let keep = second.count(m);
        lemma_wrapped_sum_adds(first.count(m), occurrences(a, m), occurrences(b, m));
    }
}

pub open spec fn replacement_metric(reason: RangeReplacementReason) -> QuietMetric {
    match reason {
        RangeReplacementReason::Seal => QuietMetric::RangeReplacementSeal,
        RangeReplacementReason::Lifecycle => QuietMetric::RangeReplacementLifecycle,
        RangeReplacementReason::StructuralEdit => QuietMetric::RangeReplacementStructural,
        RangeReplacementReason::UserToggle => QuietMetric::RangeReplacementUserToggle,
    }
}

/// Counts a replacement by its reason.
pub fn bump_range_replacement(counters: &mut QuietCounters, reason: RangeReplacementReason)
    ensures
        counted(*old(counters), *final(counters), seq![replacement_metric(reason)]),
{
    bump(
        counters,
        match reason {
            RangeReplacementReason::Seal => QuietMetric::RangeReplacementSeal,
            RangeReplacementReason::Lifecycle => QuietMetric::RangeReplacementLifecycle,
            RangeReplacementReason::StructuralEdit => QuietMetric::RangeReplacementStructural,
            RangeReplacementReason::UserToggle => QuietMetric::RangeReplacementUserToggle,
        },
    );
}

/// The bucket of a render time, given in nanoseconds.
pub open spec fn render_bucket(nanos: int) -> QuietMetric {
    if nanos < 1_000_000 {
        QuietMetric::RenderUnder1Ms
    } else if nanos < 2_000_000 {
        QuietMetric::RenderUnder2Ms
    } else if nanos < 4_000_000 {
        QuietMetric::RenderUnder4Ms
    } else if nanos < 8_000_000 {
        QuietMetric::RenderUnder8Ms
    } else if nanos < 12_000_000 {
        QuietMetric::RenderUnder12Ms
    } else if nanos < 16_000_000 {
        QuietMetric::RenderUnder16Ms
    } else if nanos < 33_000_000 {
        QuietMetric::RenderUnder33Ms
    } else {
        QuietMetric::RenderOver33Ms
    }
}

/// Whole microseconds, stopped at the largest value.
pub open spec fn micros_of(nanos: u128) -> u64 {
    if nanos / 1000 <= u64::MAX {
        (nanos / 1000) as u64
    } else {
        u64::MAX
    }
}

/// Records how long a frame took to render.
pub fn record_render_time(counters: &mut QuietCounters, elapsed_nanos: u128)
    ensures
        exists|middle: QuietCounters|
            recorded(
                *old(counters),
                middle,
                QuietMetric::RenderMaxMicros,
                micros_of(elapsed_nanos),
            ) && #[trigger] counted(
                middle,
                *final(counters),
                seq![render_bucket(elapsed_nanos as int)],
            ),
{
    let whole: u128 = elapsed_nanos / 1000;
    let micros: u64 = if whole <= u64::MAX as u128 {
        whole as u64
    } else {
        u64::MAX
    };
    record_max(counters, QuietMetric::RenderMaxMicros, micros);
    let metric = if elapsed_nanos < 1_000_000 {
        QuietMetric::RenderUnder1Ms
    } else if elapsed_nanos < 2_000_000 {
        QuietMetric::RenderUnder2Ms
    } else if elapsed_nanos < 4_000_000 {
        QuietMetric::RenderUnder4Ms
    } else if elapsed_nanos < 8_000_000 {
        QuietMetric::RenderUnder8Ms
    } else if elapsed_nanos < 12_000_000 {
        QuietMetric::RenderUnder12Ms
    } else if elapsed_nanos < 16_000_000 {
        QuietMetric::RenderUnder16Ms
    } else if elapsed_nanos < 33_000_000 {
        QuietMetric::RenderUnder33Ms
    } else {
        QuietMetric::RenderOver33Ms
    };
    bump(counters, metric);
}

/// Sets the test counters to zero.
pub fn reset_for_test(counters: &mut QuietCounters)
    ensures
        forall|m: QuietMetric|
            final(counters).test_count(m) == 0 && final(counters).count(m) == old(counters).count(
                m,
            ),
{
    counters.reset_test();
}

impl QuietCounters {
    fn reset_test(&mut self)
        ensures
            forall|m: QuietMetric|
                final(self).test_count(m) == 0 && final(self).count(m) == old(self).count(m),
    {
        proof {
            use_type_invariant(&*self);
        }
        let mut process: Vec<u64> = Vec::new();
        let mut i: usize = 0;
        while i < METRIC_COUNT
            invariant
                i <= METRIC_COUNT,
                self.process@.len() == METRIC_COUNT,
                process@.len() == i,
                *self == *old(self),
                forall|j: int| 0 <= j < i ==> process@[j] == self.process@[j],
            decreases METRIC_COUNT - i,
        {
            process.push(self.process[i]);
            i += 1;
        }
        let test = zeros();
        *self = QuietCounters { process, test };
        proof {
            assert forall|m: QuietMetric|
                self.test_count(m) == 0 && self.count(m) == old(self).count(m) by {
                lemma_metric_index(m);
            }
        }
    }
}

pub fn get_for_test(counters: &QuietCounters, metric: QuietMetric) -> (r: u64)
    ensures
        r == counters.test_count(metric),
{
    counters.load(metric).1
}

pub fn get_for_bench(counters: &QuietCounters, metric: QuietMetric) -> (r: u64)
    ensures
        r == counters.count(metric),
{
    counters.load(metric).0
}

/// Counting one metric leaves all others as they were.
pub proof fn law_bump_counts_one_metric(
    before: QuietCounters,
    after: QuietCounters,
    metric: QuietMetric,
    other: QuietMetric,
)
    requires
        counted(before, after, seq![metric]),
    ensures
        other != metric ==> after.count(other) == before.count(other) && after.test_count(other)
            == before.test_count(other),
        before.test_count(metric) < u64::MAX ==> after.test_count(metric) == before.test_count(
            metric,
        ) + 1,
        before.count(metric) < u64::MAX ==> after.count(metric) == before.count(metric) + 1,
{
    reveal(counted);
    lemma_counted_one(metric, metric);
    lemma_counted_one(metric, other);
    reveal_with_fuel(wrapped_sum, 2);
}

} // verus!
