//! The scan engine as a state machine: it decides what to do next, and its caller
//! performs the probes and hands their outcomes back.

use vstd::prelude::*;
use crate::address::{contains_address, IpAddress, ScanTarget};
use crate::probe::{classified, result_for, ConnectOutcome, PortState, ScanResult};
use crate::range::ScanRange;
use crate::skipping::{lemma_down_host_leaves, not_at};
use crate::timing::{AdaptiveTimeout, FLOOR_MICROS};

verus! {

/// How many results the channel to the consumer holds before the engine has to wait.
pub const RESULT_CHANNEL_CAPACITY: usize = 10;

/// The settings of one run. The wait budget is in microseconds.
#[derive(Clone, Copy, Debug, PartialEq, Eq, Structural)]
pub struct ScanParameters {
    pub concurrent_scans: usize,
    pub enable_adaptive_timing: bool,
    pub wait_timeout: u64,
}

/// What the caller of the engine is to do next.
#[derive(Clone, Copy, Debug, PartialEq, Eq, Structural)]
pub enum Step {
    /// Start a probe of `target` with the wait budget `timeout`.
    Dispatch { target: ScanTarget, timeout: u64 },
    /// Wait for a probe in flight to complete.
    Wait,
    /// Close the result channel: the run is over.
    Close,
}

/// The state of one run.
///
/// The two ghost counters keep the account of a run: every probe dispatched is either in
/// flight or has had its result handed out, and while the run is not cancelled and no
/// host goes down, the probes dispatched and the targets still to come add up to the
/// same number. So a run that closes without either has handed out one result for each
/// target of its range.
pub struct Scanner {
    pub params: ScanParameters,
    pub range: ScanRange,
    pub timing: AdaptiveTimeout,
    /// The hosts found down so far.
    pub down: Vec<IpAddress>,
    /// The probes dispatched whose outcome has not come back.
    pub in_flight: usize,
    pub closed: bool,
    /// How many probes were dispatched so far.
    pub issued: Ghost<nat>,
    /// How many results were handed out so far.
    pub delivered: Ghost<nat>,
}

impl Scanner {
    pub open spec fn wf(&self) -> bool {
        &&& self.params.concurrent_scans > 0
        &&& self.range.wf()
        &&& self.in_flight <= self.params.concurrent_scans
        &&& self.timing.ceiling == self.params.wait_timeout
        &&& self.timing.enabled == self.params.enable_adaptive_timing
        &&& self.closed ==> self.in_flight == 0 && self.range.finished
        &&& self.issued@ == self.delivered@ + self.in_flight
    }

    /// The hosts found down so far, as a set.
    pub open spec fn down_set(&self) -> Set<IpAddress> {
        self.down@.to_set()
    }

    /// The targets that are still to be dispatched if no further host goes down.
    pub open spec fn pending(&self) -> Seq<ScanTarget> {
        self.range.remaining(self.down_set())
    }

    /// A run over `range` with nothing dispatched yet.
    pub fn new(params: ScanParameters, range: ScanRange) -> (r: Scanner)
        requires
            params.concurrent_scans > 0,
            range.wf(),
        ensures
            r.wf(),
            r.params == params,
            r.range == range,
            r.timing == (AdaptiveTimeout {
                enabled: params.enable_adaptive_timing,
                ceiling: params.wait_timeout,
                estimate: None,
            }),
            r.down@.len() == 0,
            r.in_flight == 0,
            r.closed == range.finished,
            r.issued@ == 0,
            r.delivered@ == 0,
    {
        let closed = range.is_finished();
        Scanner {
            params,
            range,
            timing: AdaptiveTimeout::new(params.enable_adaptive_timing, params.wait_timeout),
            down: Vec::new(),
            in_flight: 0,
            closed,
            issued: Ghost(0),
            delivered: Ghost(0),
        }
    }

    /// Decides the next step.
    ///
    /// A probe is dispatched exactly when a slot is free, the run is not cancelled and a
    /// target is left; its wait budget is the one in force now. The run closes exactly
    /// when nothing is in flight and nothing can be dispatched. Otherwise the caller waits.
    pub fn poll(&mut self, cancelled: bool) -> (r: Step)
        requires
            old(self).wf(),
        ensures
            final(self).wf(),
            final(self).params == old(self).params,
            final(self).range.same_space(&old(self).range),
            final(self).timing == old(self).timing,
            final(self).down@ == old(self).down@,
            final(self).in_flight <= final(self).params.concurrent_scans,
            r is Dispatch <==> !cancelled && old(self).in_flight < old(self).params.concurrent_scans
                && old(self).pending().len() > 0,
            r is Close <==> old(self).in_flight == 0 && (cancelled || old(self).pending().len() == 0),
            r matches Step::Dispatch { target, timeout } ==> {
                &&& old(self).pending() == seq![target] + final(self).pending()
                &&& final(self).in_flight == old(self).in_flight + 1
                &&& timeout == old(self).timing.effective_spec()
                &&& timeout <= old(self).params.wait_timeout
                &&& old(self).params.wait_timeout >= FLOOR_MICROS ==> timeout >= FLOOR_MICROS
                &&& !old(self).params.enable_adaptive_timing ==> timeout == old(self).params.wait_timeout
                &&& target.address.wf()
                &&& !old(self).range.excludes@.contains(target.address)
                &&& !old(self).down@.contains(target.address)
                &&& old(self).range.ports.first <= target.port <= old(self).range.ports.last
                &&& exists|j: int|
                    0 <= j < old(self).range.blocks@.len() && #[trigger] old(self).range.blocks@[j].holds(
                        target.address,
                    )
            },
            !(r is Dispatch) ==> final(self).in_flight == old(self).in_flight,
            final(self).delivered@ == old(self).delivered@,
            final(self).issued@ == old(self).issued@ + if r is Dispatch { 1nat } else { 0nat },
            final(self).issued@ + final(self).pending().len() <= old(self).issued@ + old(self).pending().len(),
            !cancelled ==> final(self).issued@ + final(self).pending().len() == old(self).issued@ + old(
                self,
            ).pending().len(),
            r is Close ==> final(self).delivered@ == final(self).issued@,
            r is Close && !cancelled ==> final(self).pending().len() == 0,
            r is Close ==> final(self).closed,
            !(r is Close) ==> final(self).closed == old(self).closed,
            old(self).range.finished ==> final(self).range.finished && !(r is Dispatch),
            cancelled ==> final(self).range.finished && !(r is Dispatch),
            !cancelled && old(self).in_flight == old(self).params.concurrent_scans ==> final(self).range
                == old(self).range,
    {
        if self.closed {
            return Step::Close;
        }
        if self.in_flight >= self.params.concurrent_scans {
            if cancelled {
                self.range.stop();
            }
        } else {
            let next = self.range.next(cancelled, &self.down);
            match next {
                Some(target) => {
                    self.in_flight = self.in_flight + 1;
                    self.issued = Ghost(self.issued@ + 1);
                    let timeout = self.timing.effective();
                    proof {
                        assert(old(self).range.blocks@[self.range.block as int].holds(target.address));
                    }
                    return Step::Dispatch { target, timeout };
                },
                None => {},
            }
        }
        if self.in_flight > 0 {
            Step::Wait
        } else {
            self.closed = true;
            Step::Close
        }
    }

    /// Ends the issuing of targets, as when the consumer of the results is gone: no probe
    /// is dispatched afterwards, and the run closes once nothing is in flight.
    pub fn halt(&mut self)
        requires
            old(self).wf(),
        ensures
            final(self).wf(),
            final(self).range.finished,
            final(self).pending() == Seq::<ScanTarget>::empty(),
            final(self).range.same_space(&old(self).range),
            final(self).params == old(self).params,
            final(self).timing == old(self).timing,
            final(self).down@ == old(self).down@,
            final(self).in_flight == old(self).in_flight,
            final(self).closed == old(self).closed,
            final(self).issued@ == old(self).issued@,
            final(self).delivered@ == old(self).delivered@,
    {
        self.range.stop();
    }

    /// Takes the outcome of one probe in flight.
    ///
    /// The slot is released, a host reported unreachable joins the hosts that are down and
    /// its targets leave those still to come, the latency of an answered probe feeds the
    /// wait budget, and the result to deliver is returned.
    pub fn complete(&mut self, target: ScanTarget, outcome: ConnectOutcome, elapsed: u64, timeout: u64) -> (r:
        ScanResult)
        requires
            old(self).wf(),
            old(self).in_flight > 0,
        ensures
            final(self).wf(),
            r == (ScanResult {
                address: target.address,
                port: target.port,
                state: classified(outcome, elapsed, timeout),
            }),
            final(self).in_flight == old(self).in_flight - 1,
            final(self).delivered@ == old(self).delivered@ + 1,
            final(self).issued@ == old(self).issued@,
            final(self).pending().len() <= old(self).pending().len(),
            final(self).params == old(self).params,
            final(self).range == old(self).range,
            final(self).closed == old(self).closed,
            final(self).down@ == if r.state is HostDown && !old(self).down@.contains(target.address) {
                old(self).down@.push(target.address)
            } else {
                old(self).down@
            },
            r.state is HostDown ==> final(self).down@.contains(target.address),
            final(self).pending() == if r.state is HostDown {
                old(self).pending().filter(not_at(target.address))
            } else {
                old(self).pending()
            },
            forall|a: IpAddress| old(self).down@.contains(a) ==> final(self).down@.contains(a),
            final(self).timing == match r.state.latency_spec() {
                Some(l) => old(self).timing.observed(l),
                None => old(self).timing,
            },
    {
        let r = result_for(target, outcome, elapsed, timeout);
        self.in_flight = self.in_flight - 1;
        self.delivered = Ghost(self.delivered@ + 1);
        match r.state.latency() {
            Some(l) => {
                self.timing.observe(l);
            },
            None => {},
        }
        match r.state {
            PortState::HostDown => {
                if !contains_address(&self.down, target.address) {
                    self.down.push(target.address);
                    proof {
                        let before = old(self).down@;
                        assert(self.down@[before.len() as int] == target.address);
                        assert forall|a: IpAddress| before.contains(a) implies self.down@.contains(a) by {
                            let i = choose|i: int| 0 <= i < before.len() && before[i] == a;
                            assert(self.down@[i] == a);
                        }
                        assert(self.down@.to_set() =~= before.to_set().insert(target.address));
                    }
                } else {
                    proof {
                        assert(self.down@.to_set() =~= self.down@.to_set().insert(target.address));
                    }
                }
                proof {
                    lemma_down_host_leaves(self.range, old(self).down@.to_set(), target.address);
                    old(self).pending().lemma_filter_len(not_at(target.address));
                }
            },
            _ => {},
        }
        r
    }
}

} // verus!
