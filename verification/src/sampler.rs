//! The measurement primitive: overshoot of one observed sleep, and the
//! allocation burst that optionally precedes it.

use vstd::prelude::*;

verus! {

/// Number of elements in one allocation-burst buffer.
pub const BUFFER_SIZE: usize = 40960;

/// Number of buffers allocated and filled by one allocation burst.
pub const ALLOC_ROUNDS: u64 = 9;

/// Overshoot of one observed sleep: elapsed time minus the requested
/// period, in nanoseconds, saturating at zero so that an early wake
/// reports no overshoot rather than underflowing.
pub open spec fn spec_overshoot(elapsed_nanos: u64, period_nanos: u64) -> u64 {
    if elapsed_nanos >= period_nanos {
        (elapsed_nanos - period_nanos) as u64
    } else {
        0
    }
}

/// Computes the overshoot of one sleep from its measured elapsed time
/// and the requested period, both in nanoseconds.
pub fn overshoot_nanos(elapsed_nanos: u64, period_nanos: u64) -> (r: u64)
    ensures
        r == spec_overshoot(elapsed_nanos, period_nanos),
{
    if elapsed_nanos >= period_nanos {
        elapsed_nanos - period_nanos
    } else {
        0
    }
}

/// An elapsed time that exceeds the requested period by at most
/// `slack` nanoseconds yields an overshoot of at most `slack`.
pub proof fn lemma_overshoot_small(elapsed_nanos: u64, period_nanos: u64, slack: u64)
    requires
        elapsed_nanos <= period_nanos + slack,
    ensures
        spec_overshoot(elapsed_nanos, period_nanos) <= slack,
{
}

/// Allocates a buffer of `len` elements and fills it with the sequence
/// `0, 1, ..., len - 1`.
pub fn fill_buffer(len: usize) -> (r: Vec<u32>)
    requires
        len <= u32::MAX,
    ensures
        r@.len() == len,
        forall|i: int| 0 <= i < len ==> r@[i] == i as u32,
{
    let mut buf: Vec<u32> = Vec::with_capacity(len);
    let mut j: usize = 0;
    while j < len
        invariant
            j <= len,
            len <= u32::MAX,
            buf@.len() == j,
            forall|i: int| 0 <= i < j ==> buf@[i] == i as u32,
        decreases len - j,
    {
        buf.push(j as u32);
        j = j + 1;
    }
    buf
}

/// Performs the allocation burst: `ALLOC_ROUNDS` rounds, each of which
/// allocates a `BUFFER_SIZE`-element buffer, fills it with the sequence
/// `0..BUFFER_SIZE`, and drops it at the end of the round. Its only
/// purpose is to exercise the allocator before a sleep is measured; it
/// leaves nothing behind and returns nothing.
pub fn allocation_burst() {
    let mut round: u64 = 0;
    while round < ALLOC_ROUNDS
        invariant
            round <= ALLOC_ROUNDS,
        decreases ALLOC_ROUNDS - round,
    {
        let _buf = fill_buffer(BUFFER_SIZE);
        round = round + 1;
    }
}

} // verus!
