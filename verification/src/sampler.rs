//! Throughput sampler of a server: counts the items that the ordering engine
//! delivers and, on a cadence measured from the previous sample, hands out
//! the figures from which the instantaneous and the average rate follow.
//!
//! Time is a count of ticks of the caller's monotonic clock; the sampler does
//! not care how long a tick is.

use vstd::prelude::*;

verus! {

/// The cadence of one second, for a clock that ticks in nanoseconds.
pub const SAMPLE_CADENCE_NANOS: u64 = 1_000_000_000;

/// The figures of one sample. The instantaneous rate is `fresh / interval`,
/// the average rate `total / elapsed`.
#[derive(Clone, Copy, Debug, PartialEq, Eq, Structural)]
pub struct Sample {
    /// Ticks since the first delivery.
    pub elapsed: u64,
    /// Items delivered so far.
    pub total: u64,
    /// Items delivered since the previous sample.
    pub fresh: u64,
    /// Ticks since the previous sample, or since the sampler was made if this
    /// is the first one.
    pub interval: u64,
}

/// A sampler, mathematically.
pub struct SamplerView {
    /// Ticks that must have passed since the previous sample for the next.
    pub cadence: nat,
    /// Items delivered so far.
    pub total: nat,
    /// Items that had been delivered when the previous sample was taken.
    pub sampled: nat,
    /// Time of the first delivery, once there was one.
    pub start: Option<nat>,
    /// Time of the previous sample, or of the sampler's making.
    pub refreshed: nat,
}

/// Ticks from `then` to `now`; none if the clock has not moved on.
pub open spec fn ticks_since(now: nat, then: nat) -> nat {
    if now >= then {
        (now - then) as nat
    } else {
        0
    }
}

/// The invariant of a sampler: the start is set exactly when something was
/// delivered, and no sample has counted more than was delivered.
pub open spec fn sampler_wf(s: SamplerView) -> bool {
    &&& s.sampled <= s.total
    &&& s.start is Some <==> s.total > 0
}

/// A sampler made at time `now`.
pub open spec fn sampler_init(now: nat, cadence: nat) -> SamplerView {
    SamplerView { cadence, total: 0, sampled: 0, start: None, refreshed: now }
}

/// Whether a delivery at time `now` is due a sample: more than the cadence
/// has passed since the previous one.
pub open spec fn sample_due(s: SamplerView, now: nat) -> bool {
    ticks_since(now, s.refreshed) > s.cadence
}

/// The time of the first delivery, given that one arrives at `now`.
pub open spec fn start_given(s: SamplerView, now: nat) -> nat {
    match s.start {
        Some(start) => start,
        None => now,
    }
}

/// The sampler after a delivery at time `now`.
pub open spec fn sampler_after(s: SamplerView, now: nat) -> SamplerView {
    if sample_due(s, now) {
        SamplerView {
            total: s.total + 1,
            sampled: s.total + 1,
            start: Some(start_given(s, now)),
            refreshed: now,
            ..s
        }
    } else {
        SamplerView { total: s.total + 1, start: Some(start_given(s, now)), ..s }
    }
}

/// The figures of the sample that a delivery at time `now` is due.
pub open spec fn sample_at(s: SamplerView, now: nat) -> Sample {
    Sample {
        elapsed: ticks_since(now, start_given(s, now)) as u64,
        total: (s.total + 1) as u64,
        fresh: (s.total + 1 - s.sampled) as u64,
        interval: ticks_since(now, s.refreshed) as u64,
    }
}

/// Counter of delivered items with the state of the sampling cadence.
#[derive(Clone, Copy, Debug)]
pub struct Sampler {
    cadence: u64,
    total: u64,
    sampled: u64,
    start: Option<u64>,
    refreshed: u64,
}

impl View for Sampler {
    type V = SamplerView;

    closed spec fn view(&self) -> SamplerView {
        SamplerView {
            cadence: self.cadence as nat,
            total: self.total as nat,
            sampled: self.sampled as nat,
            start: match self.start {
                Some(start) => Some(start as nat),
                None => None,
            },
            refreshed: self.refreshed as nat,
        }
    }
}

impl Sampler {
    /// The invariant that `new` establishes and `deliver` keeps.
    pub open spec fn wf(&self) -> bool {
        sampler_wf(self@)
    }

    /// A sampler made at time `now` that has seen no delivery yet and takes a
    /// sample whenever more than `cadence` ticks have passed since the last.
    pub fn new(now: u64, cadence: u64) -> (sampler: Sampler)
        ensures
            sampler.wf(),
            sampler@ == sampler_init(now as nat, cadence as nat),
    {
        Sampler { cadence, total: 0, sampled: 0, start: None, refreshed: now }
    }

    /// The number of items delivered so far.
    pub fn total(&self) -> (total: u64)
        ensures
            total == self@.total,
    {
        self.total
    }

    /// Counts one delivery that arrived at time `now`. The first delivery
    /// sets the start from which the average is taken. If more than the
    /// cadence has passed since the previous sample, the answer is a sample,
    /// and the cadence starts anew at `now`; else there is no answer.
    pub fn deliver(&mut self, now: u64) -> (sample: Option<Sample>)
        requires
            old(self).wf(),
            old(self)@.total < u64::MAX,
        ensures
            final(self).wf(),
            final(self)@ == sampler_after(old(self)@, now as nat),
            sample == if sample_due(old(self)@, now as nat) {
                Some(sample_at(old(self)@, now as nat))
            } else {
                None
            },
    {
        let start: u64 = match self.start {
            Some(start) => start,
            None => now,
        };
        self.start = Some(start);
        self.total = self.total + 1;
        let interval: u64 = if now >= self.refreshed {
            now - self.refreshed
        } else {
            0
        };
        if interval > self.cadence {
            let elapsed: u64 = if now >= start {
                now - start
            } else {
                0
            };
            let sample = Sample {
                elapsed,
                total: self.total,
                fresh: self.total - self.sampled,
                interval,
            };
            self.sampled = self.total;
            self.refreshed = now;
            Some(sample)
        } else {
            None
        }
    }
}

} // verus!
