//! Running aggregates over the overshoot samples of a measurement run,
//! and the microsecond summary computed from them.

use vstd::prelude::*;

verus! {

/// Initial value of the running minimum: one second in nanoseconds.
/// A run that records no samples reports this value (divided down to
/// microseconds) as its best case.
pub const BEST_SENTINEL_NANOS: u64 = 1000000000;

/// Sum of a sequence of samples, as an unbounded integer.
pub open spec fn sum_of(s: Seq<u64>) -> int
    decreases s.len(),
{
    if s.len() == 0 {
        0
    } else {
        sum_of(s.drop_last()) + s.last()
    }
}

/// Running minimum of a sequence of samples, folded from the sentinel.
pub open spec fn min_fold(s: Seq<u64>) -> u64
    decreases s.len(),
{
    if s.len() == 0 {
        BEST_SENTINEL_NANOS
    } else if s.last() < min_fold(s.drop_last()) {
        s.last()
    } else {
        min_fold(s.drop_last())
    }
}

/// Running maximum of a sequence of samples, folded from zero.
pub open spec fn max_fold(s: Seq<u64>) -> u64
    decreases s.len(),
{
    if s.len() == 0 {
        0
    } else if s.last() > max_fold(s.drop_last()) {
        s.last()
    } else {
        max_fold(s.drop_last())
    }
}

/// Running aggregates of the samples recorded so far. The ghost
/// `samples` field remembers the recorded sequence, so that the
/// aggregate fields can be stated as folds over it.
pub struct Stats {
    pub sum: u64,
    pub best: u64,
    pub worst: u64,
    pub samples: Ghost<Seq<u64>>,
}

/// Reported statistics of one run, in whole microseconds.
pub struct Summary {
    pub avg_us: u64,
    pub best_us: u64,
    pub worst_us: u64,
}

impl Stats {
    /// The aggregate fields are exactly the folds of the recorded samples.
    pub open spec fn wf(self) -> bool {
        &&& self.sum == sum_of(self.samples@)
        &&& self.best == min_fold(self.samples@)
        &&& self.worst == max_fold(self.samples@)
    }

    /// Fresh aggregates: no samples recorded, minimum at the sentinel,
    /// maximum and sum at zero.
    pub fn new() -> (r: Stats)
        ensures
            r.wf(),
            r.samples@ == Seq::<u64>::empty(),
    {
        Stats {
            sum: 0,
            best: BEST_SENTINEL_NANOS,
            worst: 0,
            samples: Ghost(Seq::empty()),
        }
    }

    /// Folds one sample into the aggregates.
    pub fn record(&mut self, sample: u64)
        requires
            old(self).wf(),
            sum_of(old(self).samples@) + sample <= u64::MAX,
        ensures
            final(self).wf(),
            final(self).samples@ == old(self).samples@.push(sample),
    {
        proof {
            let s0 = self.samples@;
            assert(s0.push(sample).drop_last() =~= s0);
        }
        if sample < self.best {
            self.best = sample;
        }
        if sample > self.worst {
            self.worst = sample;
        }
        self.sum = self.sum + sample;
        self.samples = Ghost(self.samples@.push(sample));
    }

    /// Reports the run's statistics in whole microseconds. The average
    /// divides the sum of the samples by the requested cycle count
    /// (not by the number of samples recorded), then truncates to
    /// microseconds; minimum and maximum are truncated directly.
    pub fn summary(&self, cycles: u64) -> (r: Summary)
        requires
            self.wf(),
            cycles >= 1,
        ensures
            r.avg_us == sum_of(self.samples@) / (cycles as int) / 1000,
            r.best_us == min_fold(self.samples@) / 1000,
            r.worst_us == max_fold(self.samples@) / 1000,
    {
        Summary {
            avg_us: self.sum / cycles / 1000,
            best_us: self.best / 1000,
            worst_us: self.worst / 1000,
        }
    }
}

/// A sum of unsigned samples is never negative.
pub proof fn lemma_sum_nonneg(s: Seq<u64>)
    ensures
        sum_of(s) >= 0,
    decreases s.len(),
{
    if s.len() > 0 {
        lemma_sum_nonneg(s.drop_last());
    }
}

/// Extending a prefix by one element adds that element to its sum.
proof fn lemma_sum_take_succ(s: Seq<u64>, i: int)
    requires
        0 <= i < s.len(),
    ensures
        sum_of(s.take(i + 1)) == sum_of(s.take(i)) + s[i],
{
    assert(s.take(i + 1).drop_last() =~= s.take(i));
    assert(s.take(i + 1).last() == s[i]);
}

/// The sum of a prefix never exceeds the sum of the whole sequence.
proof fn lemma_sum_take_le(s: Seq<u64>, i: int)
    requires
        0 <= i <= s.len(),
    ensures
        sum_of(s.take(i)) <= sum_of(s),
    decreases s.len() - i,
{
    if i == s.len() {
        assert(s.take(i) =~= s);
    } else {
        lemma_sum_take_succ(s, i);
        lemma_sum_take_le(s, i + 1);
    }
}

/// Folds a whole vector of samples into fresh aggregates.
pub fn aggregate(samples: &Vec<u64>) -> (r: Stats)
    requires
        sum_of(samples@) <= u64::MAX,
    ensures
        r.wf(),
        r.samples@ == samples@,
{
    let mut st = Stats::new();
    let mut i: usize = 0;
    proof {
        assert(samples@.take(0) =~= Seq::<u64>::empty());
    }
    while i < samples.len()
        invariant
            i <= samples@.len(),
            st.wf(),
            st.samples@ == samples@.take(i as int),
            sum_of(samples@) <= u64::MAX,
        decreases samples@.len() - i,
    {
        proof {
            lemma_sum_take_succ(samples@, i as int);
            lemma_sum_take_le(samples@, i as int + 1);
            lemma_sum_nonneg(samples@.take(i as int));
            assert(samples@.take(i as int).push(samples@[i as int]) =~= samples@.take(
                i as int + 1,
            ));
        }
        st.record(samples[i]);
        i = i + 1;
    }
    proof {
        assert(samples@.take(samples@.len() as int) =~= samples@);
    }
    st
}

/// The sum of a run's samples is at most their count times the running
/// maximum.
proof fn lemma_sum_le_len_times_max(s: Seq<u64>)
    ensures
        sum_of(s) <= s.len() * max_fold(s),
    decreases s.len(),
{
    if s.len() > 0 {
        let d = s.drop_last();
        lemma_sum_le_len_times_max(d);
        assert(sum_of(s) <= s.len() * max_fold(s)) by (nonlinear_arith)
            requires
                sum_of(s) == sum_of(d) + s.last(),
                sum_of(d) <= d.len() * max_fold(d),
                max_fold(d) <= max_fold(s),
                s.last() <= max_fold(s),
                s.len() == d.len() + 1;
    }
}

/// The sum of a run's samples is at least their count times the running
/// minimum.
proof fn lemma_sum_ge_len_times_min(s: Seq<u64>)
    ensures
        sum_of(s) >= s.len() * min_fold(s),
    decreases s.len(),
{
    if s.len() > 0 {
        let d = s.drop_last();
        lemma_sum_ge_len_times_min(d);
        assert(sum_of(s) >= s.len() * min_fold(s)) by (nonlinear_arith)
            requires
                sum_of(s) == sum_of(d) + s.last(),
                sum_of(d) >= d.len() * min_fold(d),
                min_fold(d) >= min_fold(s),
                s.last() >= min_fold(s),
                s.len() == d.len() + 1;
    }
}

/// The reported statistics are ordered: over the `cycles` samples of a
/// run, the truncated best case is at most the truncated average, which
/// is at most the truncated worst case, for every `cycles >= 1`.
pub proof fn lemma_report_ordered(samples: Seq<u64>, cycles: u64)
    requires
        cycles >= 1,
        samples.len() == cycles,
    ensures
        min_fold(samples) / 1000 <= sum_of(samples) / (cycles as int) / 1000,
        sum_of(samples) / (cycles as int) / 1000 <= max_fold(samples) / 1000,
{
    let c = cycles as int;
    let m = min_fold(samples) as int;
    let w = max_fold(samples) as int;
    lemma_sum_ge_len_times_min(samples);
    vstd::arithmetic::div_mod::lemma_div_is_ordered(c * m, sum_of(samples), c);
    vstd::arithmetic::div_mod::lemma_div_multiples_vanish(m, c);
    vstd::arithmetic::div_mod::lemma_div_is_ordered(m, sum_of(samples) / c, 1000);
    lemma_sum_le_len_times_max(samples);
    vstd::arithmetic::div_mod::lemma_div_is_ordered(sum_of(samples), c * w, c);
    vstd::arithmetic::div_mod::lemma_div_multiples_vanish(w, c);
    vstd::arithmetic::div_mod::lemma_div_is_ordered(sum_of(samples) / c, w, 1000);
}

/// A run requested with a single cycle performs exactly one trial and
/// reports that sample: the sum and maximum are the sample itself, and
/// the minimum is the sample unless it exceeds the sentinel seed.
pub proof fn lemma_single_cycle(samples: Seq<u64>, cycles: u64)
    requires
        cycles == 1,
        samples.len() == cycles,
    ensures
        sum_of(samples) == samples[0],
        max_fold(samples) == samples[0],
        min_fold(samples) == if samples[0] < BEST_SENTINEL_NANOS {
            samples[0]
        } else {
            BEST_SENTINEL_NANOS
        },
{
    let d = samples.drop_last();
    assert(sum_of(d) == 0);
    assert(max_fold(d) == 0);
    assert(min_fold(d) == BEST_SENTINEL_NANOS);
    assert(samples.last() == samples[0]);
}

/// One full run: each requested cycle contributes one sample, so
/// `samples` holds `cycles` entries and the average divides their sum
/// by the cycle count. A single-cycle run therefore reports its one
/// real sample rather than the idle sentinel. The report is always
/// ordered: best <= avg <= worst.
pub fn run(cycles: u64, samples: &Vec<u64>) -> (r: Summary)
    requires
        cycles >= 1,
        samples@.len() == cycles,
        sum_of(samples@) <= u64::MAX,
    ensures
        r.avg_us == sum_of(samples@) / (cycles as int) / 1000,
        r.best_us == min_fold(samples@) / 1000,
        r.worst_us == max_fold(samples@) / 1000,
        r.best_us <= r.avg_us <= r.worst_us,
{
    proof {
        lemma_report_ordered(samples@, cycles);
    }
    let st = aggregate(samples);
    st.summary(cycles)
}

} // verus!
