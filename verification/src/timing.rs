//! The adaptive timeout: a running latency estimate and the wait budget derived from it.

use vstd::prelude::*;

verus! {

/// The shortest wait budget that adaptation may hand out, in microseconds.
pub const FLOOR_MICROS: u64 = 20_000;

/// The factor by which the wait budget exceeds the latency estimate.
pub const SAFETY_FACTOR: u64 = 3;

/// The weight of the old estimate against one new sample.
pub const SMOOTHING: u64 = 7;

/// The estimate after one more sample: the first sample as it is, then a weighted mean.
pub open spec fn blend(estimate: Option<u64>, sample: u64) -> u64 {
    match estimate {
        None => sample,
        Some(e) => ((SMOOTHING as int * e + sample) / (SMOOTHING as int + 1)) as u64,
    }
}

/// The wait budget for an estimate under a ceiling: the estimate times the safety
/// factor, raised to the floor, then cut to the ceiling.
pub open spec fn budget(estimate: u64, ceiling: u64) -> u64 {
    let scaled: int = estimate as int * SAFETY_FACTOR as int;
    let raised: int = if scaled < FLOOR_MICROS as int { FLOOR_MICROS as int } else { scaled };
    if raised > ceiling as int { ceiling } else { raised as u64 }
}

/// The controller of the wait budget. All times are in microseconds.
#[derive(Clone, Copy, Debug, PartialEq, Eq, Structural)]
pub struct AdaptiveTimeout {
    pub enabled: bool,
    pub ceiling: u64,
    pub estimate: Option<u64>,
}

impl AdaptiveTimeout {
    /// The wait budget for the next probe.
    pub open spec fn effective_spec(&self) -> u64 {
        match self.estimate {
            Some(e) if self.enabled => budget(e, self.ceiling),
            _ => self.ceiling,
        }
    }

    /// The controller after the latency of one answered probe.
    pub open spec fn observed(&self, latency: u64) -> AdaptiveTimeout {
        if self.enabled {
            AdaptiveTimeout { estimate: Some(blend(self.estimate, latency)), ..*self }
        } else {
            *self
        }
    }

    /// The controller after the latencies of a series of answered probes, in order.
    pub open spec fn observed_all(&self, latencies: Seq<u64>) -> AdaptiveTimeout
        decreases latencies.len(),
    {
        if latencies.len() == 0 {
            *self
        } else {
            self.observed_all(latencies.drop_last()).observed(latencies.last())
        }
    }

    /// A controller with no estimate yet.
    pub fn new(enabled: bool, ceiling: u64) -> (r: AdaptiveTimeout)
        ensures
            r == (AdaptiveTimeout { enabled, ceiling, estimate: None }),
            r.effective_spec() == ceiling,
    {
        AdaptiveTimeout { enabled, ceiling, estimate: None }
    }

    /// The wait budget for the next probe: the configured one unless adaptation is on and
    /// a latency has been observed.
    pub fn effective(&self) -> (r: u64)
        ensures
            r == self.effective_spec(),
            r <= self.ceiling,
            self.ceiling >= FLOOR_MICROS ==> r >= FLOOR_MICROS,
            !self.enabled ==> r == self.ceiling,
    {
        match self.estimate {
            Some(e) => {
                if self.enabled {
                    let scaled: u128 = e as u128 * SAFETY_FACTOR as u128;
                    let raised: u128 = if scaled < FLOOR_MICROS as u128 { FLOOR_MICROS as u128 } else { scaled };
                    if raised > self.ceiling as u128 { self.ceiling } else { raised as u64 }
                } else {
                    self.ceiling
                }
            },
            None => self.ceiling,
        }
    }

    /// Feeds the latency of one answered probe into the estimate, if adaptation is on.
    pub fn observe(&mut self, latency: u64)
        ensures
            *final(self) == old(self).observed(latency),
            final(self).ceiling == old(self).ceiling,
            final(self).enabled == old(self).enabled,
    {
        if self.enabled {
            let next: u64 = match self.estimate {
                None => latency,
                Some(e) => {
                    let sum: u128 = SMOOTHING as u128 * e as u128 + latency as u128;
                    (sum / (SMOOTHING as u128 + 1)) as u64
                },
            };
            self.estimate = Some(next);
        }
    }
}

/// Whatever latencies have been observed, the wait budget never exceeds the configured
/// one, and never falls below the floor unless the configured one does.
pub proof fn lemma_budget_bounds(start: AdaptiveTimeout, latencies: Seq<u64>)
    ensures
        start.observed_all(latencies).ceiling == start.ceiling,
        start.observed_all(latencies).enabled == start.enabled,
        start.observed_all(latencies).effective_spec() <= start.ceiling,
        start.ceiling >= FLOOR_MICROS ==> start.observed_all(latencies).effective_spec() >= FLOOR_MICROS,
    decreases latencies.len(),
{
    if latencies.len() > 0 {
        lemma_budget_bounds(start, latencies.drop_last());
    }
}

} // verus!
