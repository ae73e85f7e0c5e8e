use sched_latency::sampler::{allocation_burst, fill_buffer, overshoot_nanos, BUFFER_SIZE};

#[test]
fn overshoot_exact_difference() {
    assert_eq!(overshoot_nanos(5_000_000, 4_000_000), 1_000_000);
}

#[test]
fn overshoot_zero_when_exact() {
    assert_eq!(overshoot_nanos(4_000_000, 4_000_000), 0);
}

#[test]
fn overshoot_saturates_on_early_wake() {
    assert_eq!(overshoot_nanos(3, 5), 0);
}

#[test]
fn overshoot_keeps_whole_seconds() {
    // An overshoot of more than a second is reported in full, not
    // reduced to its sub-second remainder.
    assert_eq!(overshoot_nanos(3_500_000_000, 1_000_000_000), 2_500_000_000);
}

#[test]
fn fill_buffer_counts_up() {
    let buf = fill_buffer(5);
    assert_eq!(buf, vec![0, 1, 2, 3, 4]);
}

#[test]
fn fill_buffer_burst_size() {
    let buf = fill_buffer(BUFFER_SIZE);
    assert_eq!(buf.len(), 40960);
    assert_eq!(buf[0], 0);
    assert_eq!(buf[40959], 40959);
}

#[test]
fn allocation_burst_completes() {
    allocation_burst();
}
