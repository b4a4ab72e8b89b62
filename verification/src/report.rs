//! The aggregation of results per host, and the figures of the final summary.

use vstd::prelude::*;
use crate::address::IpAddress;
use crate::probe::{PortState, ScanResult};

verus! {

/// What is known of one host: its ports by state, in the order the results came, the
/// latencies of its answered probes, and whether it was reported down.
pub struct HostInfo {
    pub address: IpAddress,
    pub open_ports: Vec<u16>,
    pub closed_ports: Vec<u16>,
    pub filtered_ports: Vec<u16>,
    pub delays: Vec<u64>,
    pub down: bool,
}

/// The mathematical value of a `HostInfo`.
pub struct HostView {
    pub address: IpAddress,
    pub open: Seq<u16>,
    pub closed: Seq<u16>,
    pub filtered: Seq<u16>,
    pub delays: Seq<u64>,
    pub down: bool,
}

/// The sum of a series of latencies.
pub open spec fn total(s: Seq<u64>) -> nat
    decreases s.len(),
{
    if s.len() == 0 {
        0
    } else {
        total(s.drop_last()) + s.last() as nat
    }
}

impl HostView {
    /// A host of which nothing is known yet.
    pub open spec fn fresh(address: IpAddress) -> HostView {
        HostView {
            address,
            open: Seq::empty(),
            closed: Seq::empty(),
            filtered: Seq::empty(),
            delays: Seq::empty(),
            down: false,
        }
    }

    /// The host after one more result for `port`.
    pub open spec fn absorbed(self, port: u16, state: PortState) -> HostView {
        match state {
            PortState::Open(d) => HostView { open: self.open.push(port), delays: self.delays.push(d), ..self },
            PortState::Closed(d) => HostView {
                closed: self.closed.push(port),
                delays: self.delays.push(d),
                ..self
            },
            PortState::ConnTimeout(_) => HostView { filtered: self.filtered.push(port), ..self },
            PortState::CallTimeout(_) => HostView { filtered: self.filtered.push(port), ..self },
            PortState::HostDown => HostView { down: true, ..self },
        }
    }

    /// Whether the host belongs in the listing: it is not down and one port at least
    /// was found open or closed.
    pub open spec fn listed(self) -> bool {
        !self.down && (self.open.len() > 0 || self.closed.len() > 0)
    }

    /// The mean latency of the answered probes, rounded down; none without such a probe.
    pub open spec fn average(self) -> Option<u64> {
        if self.delays.len() == 0 {
            None
        } else {
            Some((total(self.delays) / self.delays.len()) as u64)
        }
    }
}

impl View for HostInfo {
    type V = HostView;

    open spec fn view(&self) -> HostView {
        HostView {
            address: self.address,
            open: self.open_ports@,
            closed: self.closed_ports@,
            filtered: self.filtered_ports@,
            delays: self.delays@,
            down: self.down,
        }
    }
}

impl HostInfo {
    pub fn create(address: IpAddress) -> (r: HostInfo)
        ensures
            r@ == HostView::fresh(address),
    {
        HostInfo {
            address,
            open_ports: Vec::new(),
            closed_ports: Vec::new(),
            filtered_ports: Vec::new(),
            delays: Vec::new(),
            down: false,
        }
    }

    pub fn add_open_port(&mut self, port: u16)
        ensures
            final(self)@ == (HostView { open: old(self)@.open.push(port), ..old(self)@ }),
    {
        self.open_ports.push(port);
    }

    pub fn add_closed_port(&mut self, port: u16)
        ensures
            final(self)@ == (HostView { closed: old(self)@.closed.push(port), ..old(self)@ }),
    {
        self.closed_ports.push(port);
    }

    pub fn add_filtered_port(&mut self, port: u16)
        ensures
            final(self)@ == (HostView { filtered: old(self)@.filtered.push(port), ..old(self)@ }),
    {
        self.filtered_ports.push(port);
    }

    pub fn add_delay(&mut self, delay: u64)
        ensures
            final(self)@ == (HostView { delays: old(self)@.delays.push(delay), ..old(self)@ }),
    {
        self.delays.push(delay);
    }

    pub fn mark_down(&mut self)
        ensures
            final(self)@ == (HostView { down: true, ..old(self)@ }),
    {
        self.down = true;
    }

    pub fn is_down(&self) -> (r: bool)
        ensures
            r == self@.down,
    {
        self.down
    }

    pub fn open_port_count(&self) -> (r: usize)
        ensures
            r == self@.open.len(),
    {
        self.open_ports.len()
    }

    pub fn closed_port_count(&self) -> (r: usize)
        ensures
            r == self@.closed.len(),
    {
        self.closed_ports.len()
    }

    pub fn filtered_port_count(&self) -> (r: usize)
        ensures
            r == self@.filtered.len(),
    {
        self.filtered_ports.len()
    }

    /// Whether the host belongs in the listing.
    pub fn is_listed(&self) -> (r: bool)
        ensures
            r == self@.listed(),
    {
        !self.down && (self.open_ports.len() > 0 || self.closed_ports.len() > 0)
    }

    /// The mean latency of the answered probes, rounded down.
    pub fn average_delay(&self) -> (r: Option<u64>)
        ensures
            r == self@.average(),
    {
        let n = self.delays.len();
        if n == 0 {
            return None;
        }
        let mut acc: u128 = 0;
        let mut i: usize = 0;
        while i < n
            invariant
                i <= n,
                n == self.delays@.len(),
                acc == total(self.delays@.take(i as int)),
                acc <= i * u64::MAX,
            decreases n - i,
        {
            proof {
                assert(self.delays@.take(i + 1).drop_last() =~= self.delays@.take(i as int));
            }
            acc = acc + self.delays[i] as u128;
            i += 1;
        }
        proof {
            assert(self.delays@.take(n as int) =~= self.delays@);
            let a = acc as int;
            let m = n as int;
            assert(a / m <= u64::MAX) by (nonlinear_arith)
                requires
                    0 <= a <= m * u64::MAX,
                    m > 0,
            ;
        }
        Some((acc / n as u128) as u64)
    }

    /// Takes in one result for this host.
    pub fn record(&mut self, port: u16, state: PortState)
        ensures
            final(self)@ == old(self)@.absorbed(port, state),
    {
        match state {
            PortState::Open(d) => {
                self.add_open_port(port);
                self.add_delay(d);
            },
            PortState::Closed(d) => {
                self.add_closed_port(port);
                self.add_delay(d);
            },
            PortState::ConnTimeout(_) => self.add_filtered_port(port),
            PortState::CallTimeout(_) => self.add_filtered_port(port),
            PortState::HostDown => self.mark_down(),
        }
    }
}

/// The figures of the summary line.
#[derive(Clone, Copy, Debug, PartialEq, Eq, Structural)]
pub struct Summary {
    pub hosts_scanned: usize,
    pub no_open_ports: usize,
    pub down_hosts: usize,
}

/// How many of the hosts were reported down.
pub open spec fn count_down(s: Seq<HostView>) -> nat
    decreases s.len(),
{
    if s.len() == 0 {
        0
    } else {
        count_down(s.drop_last()) + if s.last().down { 1nat } else { 0nat }
    }
}

/// How many of the hosts are not down and have no open port.
pub open spec fn count_no_open(s: Seq<HostView>) -> nat
    decreases s.len(),
{
    if s.len() == 0 {
        0
    } else {
        count_no_open(s.drop_last()) + if !s.last().down && s.last().open.len() == 0 { 1nat } else { 0nat }
    }
}

/// The indices of the hosts that belong in the listing, ascending.
pub open spec fn listed_indices(s: Seq<HostView>) -> Seq<usize>
    decreases s.len(),
{
    if s.len() == 0 {
        Seq::empty()
    } else if s.last().listed() {
        listed_indices(s.drop_last()).push((s.len() - 1) as usize)
    } else {
        listed_indices(s.drop_last())
    }
}

/// The results of a run, gathered per host in the order in which the hosts were first seen.
pub struct Report {
    pub hosts: Vec<HostInfo>,
}

impl View for Report {
    type V = Seq<HostView>;

    open spec fn view(&self) -> Seq<HostView> {
        Seq::new(self.hosts@.len(), |i: int| self.hosts@[i]@)
    }
}

impl Report {
    /// No address has two entries.
    pub open spec fn wf(&self) -> bool {
        forall|i: int, j: int|
            0 <= i < j < self@.len() ==> (#[trigger] self@[i]).address != (#[trigger] self@[j]).address
    }

    pub fn new() -> (r: Report)
        ensures
            r.wf(),
            r@ == Seq::<HostView>::empty(),
    {
        let r = Report { hosts: Vec::new() };
        assert(r@ =~= Seq::<HostView>::empty());
        r
    }

    /// Takes in one result: the entry of its host absorbs it, and a host seen for the
    /// first time gets an entry at the end.
    pub fn record(&mut self, res: ScanResult)
        requires
            old(self).wf(),
        ensures
            final(self).wf(),
            forall|i: int|
                0 <= i < old(self)@.len() && (#[trigger] old(self)@[i]).address == res.address ==> final(self)@
                    == old(self)@.update(i, old(self)@[i].absorbed(res.port, res.state)),
            (forall|i: int| 0 <= i < old(self)@.len() ==> (#[trigger] old(self)@[i]).address != res.address)
                ==> final(self)@ == old(self)@.push(HostView::fresh(res.address).absorbed(res.port, res.state)),
    {
        let mut i: usize = 0;
        let mut found = false;
        while i < self.hosts.len() && !found
            invariant
                i <= self.hosts@.len(),
                *self == *old(self),
                forall|j: int| 0 <= j < i ==> (#[trigger] self@[j]).address != res.address,
                found ==> i < self.hosts@.len() && self@[i as int].address == res.address,
            decreases self.hosts@.len() - i + (if found { 0int } else { 1int }),
        {
            if self.hosts[i].address == res.address {
                found = true;
            } else {
                i += 1;
            }
        }
        if found {
            let mut h = HostInfo::create(res.address);
            core::mem::swap(&mut h, &mut self.hosts[i]);
            h.record(res.port, res.state);
            self.hosts[i] = h;
            proof {
                assert(final(self)@ =~= old(self)@.update(i as int, old(self)@[i as int].absorbed(res.port, res.state)));
                assert forall|k: int|
                    0 <= k < old(self)@.len() && (#[trigger] old(self)@[k]).address == res.address implies k
                    == i by {
                    if k != i {
                        if k < i {
                            assert(old(self)@[k].address != old(self)@[i as int].address);
                        } else {
                            assert(old(self)@[i as int].address != old(self)@[k].address);
                        }
                    }
                }
            }
        } else {
            let mut h = HostInfo::create(res.address);
            h.record(res.port, res.state);
            self.hosts.push(h);
            proof {
                assert(final(self)@ =~= old(self)@.push(
                    HostView::fresh(res.address).absorbed(res.port, res.state),
                ));
            }
        }
    }

    /// The figures of the summary line.
    pub fn summary(&self) -> (r: Summary)
        ensures
            r.hosts_scanned == self@.len(),
            r.down_hosts == count_down(self@),
            r.no_open_ports == count_no_open(self@),
    {
        let n = self.hosts.len();
        let mut down_hosts: usize = 0;
        let mut no_open_ports: usize = 0;
        let mut i: usize = 0;
        while i < n
            invariant
                i <= n,
                n == self@.len(),
                n == self.hosts@.len(),
                down_hosts == count_down(self@.take(i as int)),
                no_open_ports == count_no_open(self@.take(i as int)),
                down_hosts + no_open_ports <= i,
            decreases n - i,
        {
            proof {
                assert(self@.take(i + 1).drop_last() =~= self@.take(i as int));
                assert(self@.take(i + 1).last() == self.hosts@[i as int]@);
            }
            if self.hosts[i].is_down() {
                down_hosts += 1;
            } else if self.hosts[i].open_port_count() == 0 {
                no_open_ports += 1;
            }
            i += 1;
        }
        proof {
            assert(self@.take(n as int) =~= self@);
        }
        Summary { hosts_scanned: n, no_open_ports, down_hosts }
    }

    /// The indices of the hosts that belong in the listing, ascending.
    pub fn listed(&self) -> (r: Vec<usize>)
        ensures
            r@ == listed_indices(self@),
    {
        let n = self.hosts.len();
        let mut out: Vec<usize> = Vec::new();
        let mut i: usize = 0;
        while i < n
            invariant
                i <= n,
                n == self@.len(),
                n == self.hosts@.len(),
                out@ == listed_indices(self@.take(i as int)),
            decreases n - i,
        {
            proof {
                assert(self@.take(i + 1).drop_last() =~= self@.take(i as int));
                assert(self@.take(i + 1).last() == self.hosts@[i as int]@);
            }
            if self.hosts[i].is_listed() {
                out.push(i);
            }
            i += 1;
        }
        proof {
            assert(self@.take(n as int) =~= self@);
        }
        out
    }
}

} // verus!
