use quiet_tui::quiet_metrics::{
    bump, bump_range_replacement, bump_seal, get_for_bench, get_for_test, record_max,
    record_render_time, reset_for_test, QuietCounters, QuietMetric, RangeReplacementReason,
    ToolRunSealReason,
};

#[test]
fn counter_positive_control_detects_one_increment() {
    let mut counters = QuietCounters::new();
    reset_for_test(&mut counters);
    assert_eq!(get_for_test(&counters, QuietMetric::RangeReplacement), 0);
    bump(&mut counters, QuietMetric::RangeReplacement);
    assert_eq!(get_for_test(&counters, QuietMetric::RangeReplacement), 1);
}

#[test]
fn max_and_dimension_positive_controls_turn_red() {
    let mut counters = QuietCounters::new();
    reset_for_test(&mut counters);
    record_max(&mut counters, QuietMetric::LiveTailMaxRows, 3);
    record_max(&mut counters, QuietMetric::LiveTailMaxRows, 2);
    bump_seal(&mut counters, ToolRunSealReason::ReasoningStream);
    bump_range_replacement(&mut counters, RangeReplacementReason::StructuralEdit);

    assert_eq!(get_for_test(&counters, QuietMetric::LiveTailMaxRows), 3);
    assert_eq!(get_for_test(&counters, QuietMetric::ToolRunSeal), 1);
    assert_eq!(get_for_test(&counters, QuietMetric::SealReasoningStream), 1);
    assert_eq!(get_for_test(&counters, QuietMetric::RangeReplacementStructural), 1);
}

#[test]
fn a_bump_leaves_every_other_counter_alone() {
    let mut counters = QuietCounters::new();
    bump(&mut counters, QuietMetric::RangeReplacement);
    assert_eq!(get_for_bench(&counters, QuietMetric::RangeReplacement), 1);
    assert_eq!(get_for_bench(&counters, QuietMetric::ToolRunSeal), 0);
    assert_eq!(get_for_bench(&counters, QuietMetric::LiveTailMaxRows), 0);
}
