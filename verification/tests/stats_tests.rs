use sched_latency::sampler::allocation_burst;
use sched_latency::stats::{aggregate, run, Stats, BEST_SENTINEL_NANOS};

#[test]
fn fresh_stats_hold_initial_values() {
    let st = Stats::new();
    assert_eq!(st.sum, 0);
    assert_eq!(st.best, BEST_SENTINEL_NANOS);
    assert_eq!(st.best, 1_000_000_000);
    assert_eq!(st.worst, 0);
}

#[test]
fn record_folds_min_max_sum() {
    let mut st = Stats::new();
    st.record(2000);
    st.record(9000);
    st.record(4000);
    assert_eq!(st.sum, 15000);
    assert_eq!(st.best, 2000);
    assert_eq!(st.worst, 9000);
}

#[test]
fn aggregate_matches_manual_fold() {
    let st = aggregate(&vec![2000, 9000, 4000]);
    assert_eq!(st.sum, 15000);
    assert_eq!(st.best, 2000);
    assert_eq!(st.worst, 9000);
}

#[test]
fn summary_truncates_to_microseconds() {
    let st = aggregate(&vec![2000, 4000, 9000]);
    let summary = st.summary(3);
    assert_eq!(summary.avg_us, 5); // (15000 / 3) / 1000
    assert_eq!(summary.best_us, 2);
    assert_eq!(summary.worst_us, 9);
}

#[test]
fn average_divides_by_cycle_count() {
    // Four cycles record four samples; the average divides the sum by
    // the cycle count with integer truncation: (16000 / 4) / 1000 = 4.
    let summary = run(4, &vec![2000, 4000, 9000, 1000]);
    assert_eq!(summary.avg_us, 4);
}

#[test]
fn average_truncates_before_reporting() {
    // (3000 / 2) / 1000 = 1: the division truncates at each step.
    let summary = run(2, &vec![1500, 1500]);
    assert_eq!(summary.avg_us, 1);
    assert_eq!(summary.best_us, 1);
    assert_eq!(summary.worst_us, 1);
}

#[test]
fn single_cycle_reports_its_sample() {
    // One requested cycle performs one trial and reports that sample.
    let summary = run(1, &vec![2500]);
    assert_eq!(summary.avg_us, 2);
    assert_eq!(summary.best_us, 2);
    assert_eq!(summary.worst_us, 2);
}

#[test]
fn single_large_sample_keeps_sentinel_as_best() {
    // The running minimum is seeded with one second, so a lone sample
    // above it leaves the best case at the sentinel; the report stays
    // ordered.
    let summary = run(1, &vec![2_000_000_000]);
    assert_eq!(summary.best_us, 1_000_000);
    assert_eq!(summary.avg_us, 2_000_000);
    assert_eq!(summary.worst_us, 2_000_000);
}

#[test]
fn report_is_ordered() {
    let summary = run(2, &vec![5000, 7000]);
    assert!(summary.best_us <= summary.avg_us);
    assert!(summary.avg_us <= summary.worst_us);
    assert_eq!(summary.best_us, 5);
    assert_eq!(summary.avg_us, 6);
    assert_eq!(summary.worst_us, 7);
}

#[test]
fn burst_does_not_change_the_computation() {
    // The aggregates are a pure function of the samples: running the
    // allocation burst between runs leaves the report unchanged.
    let before = run(3, &vec![2000, 4000, 9000]);
    allocation_burst();
    let after = run(3, &vec![2000, 4000, 9000]);
    assert_eq!(before.avg_us, after.avg_us);
    assert_eq!(before.best_us, after.best_us);
    assert_eq!(before.worst_us, after.worst_us);
}

#[test]
fn worst_case_tracks_largest_sample() {
    let summary = run(4, &vec![1000, 250_000, 3000, 2000]);
    assert_eq!(summary.worst_us, 250);
    assert_eq!(summary.best_us, 1);
}
