//! The outcome of one probe and its classification.

use vstd::prelude::*;
use crate::address::{IpAddress, ScanTarget};

verus! {

/// What one connection attempt came to, as the network layer reports it.
#[derive(Clone, Copy, Debug, PartialEq, Eq, Structural)]
pub enum ConnectOutcome {
    /// The handshake succeeded.
    Connected,
    /// The peer refused the connection.
    Refused,
    /// Nothing came back before the network timeout.
    TimedOut,
    /// An outer execution budget ended the attempt.
    Aborted,
    /// The host or its network was reported unreachable.
    Unreachable,
}

/// The state of a port as one probe saw it. Times are in microseconds.
#[derive(Clone, Copy, Debug, PartialEq, Eq, Structural)]
pub enum PortState {
    Open(u64),
    Closed(u64),
    ConnTimeout(u64),
    CallTimeout(u64),
    HostDown,
}

impl PortState {
    /// The latency of an answered probe: open or closed.
    pub open spec fn latency_spec(&self) -> Option<u64> {
        match *self {
            PortState::Open(d) => Some(d),
            PortState::Closed(d) => Some(d),
            _ => None,
        }
    }

    /// The latency of an answered probe: open or closed.
    pub fn latency(&self) -> (r: Option<u64>)
        ensures
            r == self.latency_spec(),
    {
        match *self {
            PortState::Open(d) => Some(d),
            PortState::Closed(d) => Some(d),
            _ => None,
        }
    }

    /// Whether the port could not be resolved within the wait budget.
    pub fn is_filtered(&self) -> (r: bool)
        ensures
            r == (*self is ConnTimeout || *self is CallTimeout),
    {
        match *self {
            PortState::ConnTimeout(_) => true,
            PortState::CallTimeout(_) => true,
            _ => false,
        }
    }
}

/// The result of one probe.
#[derive(Clone, Copy, Debug, PartialEq, Eq, Structural)]
pub struct ScanResult {
    pub address: IpAddress,
    pub port: u16,
    pub state: PortState,
}

/// The state that an outcome stands for, given the time it took and the wait budget.
pub open spec fn classified(outcome: ConnectOutcome, elapsed: u64, timeout: u64) -> PortState {
    match outcome {
        ConnectOutcome::Connected => if elapsed <= timeout {
            PortState::Open(elapsed)
        } else {
            PortState::ConnTimeout(timeout)
        },
        ConnectOutcome::Refused => if elapsed <= timeout {
            PortState::Closed(elapsed)
        } else {
            PortState::ConnTimeout(timeout)
        },
        ConnectOutcome::TimedOut => PortState::ConnTimeout(timeout),
        ConnectOutcome::Aborted => PortState::CallTimeout(timeout),
        ConnectOutcome::Unreachable => PortState::HostDown,
    }
}

/// Classifies one connection attempt. An answer counts only within the wait budget;
/// a later one is silence.
pub fn classify(outcome: ConnectOutcome, elapsed: u64, timeout: u64) -> (r: PortState)
    ensures
        r == classified(outcome, elapsed, timeout),
{
    match outcome {
        ConnectOutcome::Connected => {
            if elapsed <= timeout {
                PortState::Open(elapsed)
            } else {
                PortState::ConnTimeout(timeout)
            }
        },
        ConnectOutcome::Refused => {
            if elapsed <= timeout {
                PortState::Closed(elapsed)
            } else {
                PortState::ConnTimeout(timeout)
            }
        },
        ConnectOutcome::TimedOut => PortState::ConnTimeout(timeout),
        ConnectOutcome::Aborted => PortState::CallTimeout(timeout),
        ConnectOutcome::Unreachable => PortState::HostDown,
    }
}

/// The result of the probe of `target` with the given outcome.
pub fn result_for(target: ScanTarget, outcome: ConnectOutcome, elapsed: u64, timeout: u64) -> (r: ScanResult)
    ensures
        r == (ScanResult {
            address: target.address,
            port: target.port,
            state: classified(outcome, elapsed, timeout),
        }),
{
    ScanResult { address: target.address, port: target.port, state: classify(outcome, elapsed, timeout) }
}

} // verus!
