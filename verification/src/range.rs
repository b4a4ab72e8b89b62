//! The lazy enumeration of scan targets.

use vstd::prelude::*;
use crate::address::{contains_address, AddrBlock, IpAddress, PortRange, ScanTarget};

verus! {

/// The targets of one host from `port` up to `last`, in ascending port order.
pub open spec fn ports_from(addr: IpAddress, port: int, last: int) -> Seq<ScanTarget> {
    Seq::new(
        if port <= last { (last - port + 1) as nat } else { 0 },
        |i: int| ScanTarget { address: addr, port: (port + i) as u16 },
    )
}

/// The targets of one host: none if the host is skipped.
pub open spec fn host_targets(addr: IpAddress, skip: Set<IpAddress>, port: int, last: int) -> Seq<
    ScanTarget,
> {
    if skip.contains(addr) {
        Seq::empty()
    } else {
        ports_from(addr, port, last)
    }
}

/// The targets of the addresses `a ..= last` of one family, each host over the whole port range.
pub open spec fn block_from(v6: bool, a: int, last: int, skip: Set<IpAddress>, ports: PortRange) -> Seq<
    ScanTarget,
>
    decreases last - a + 1,
{
    if a > last {
        Seq::empty()
    } else {
        host_targets(IpAddress { v6, bits: a as u128 }, skip, ports.first as int, ports.last as int)
            + block_from(v6, a + 1, last, skip, ports)
    }
}

/// The addresses that a block before index `i` holds.
pub open spec fn covered(blocks: Seq<AddrBlock>, i: int) -> Set<IpAddress> {
    Set::new(|a: IpAddress| exists|j: int| 0 <= j < i && j < blocks.len() && #[trigger] blocks[j].holds(a))
}

/// The targets of the blocks from index `i` on. An address that an earlier block holds
/// is not visited again.
pub open spec fn blocks_from(
    blocks: Seq<AddrBlock>,
    i: int,
    skip: Set<IpAddress>,
    ports: PortRange,
) -> Seq<ScanTarget>
    decreases blocks.len() - i,
{
    if i < 0 || i >= blocks.len() {
        Seq::empty()
    } else {
        block_from(
            blocks[i].v6,
            blocks[i].first as int,
            blocks[i].last as int,
            skip.union(covered(blocks, i)),
            ports,
        ) + blocks_from(blocks, i + 1, skip, ports)
    }
}

/// Why a target space is refused.
#[derive(Clone, Copy, Debug, PartialEq, Eq, Structural)]
pub enum RangeError {
    /// The first port is above the last.
    ReversedPorts,
    /// A block ends before it begins, or an IPv4 block reaches past 32 bits.
    MalformedBlock,
}

/// Whether every block is well formed.
pub fn blocks_well_formed(blocks: &Vec<AddrBlock>) -> (r: bool)
    ensures
        r == forall|i: int| 0 <= i < blocks@.len() ==> (#[trigger] blocks@[i]).wf(),
{
    let mut i: usize = 0;
    while i < blocks.len()
        invariant
            i <= blocks@.len(),
            forall|j: int| 0 <= j < i ==> (#[trigger] blocks@[j]).wf(),
        decreases blocks@.len() - i,
    {
        let b = blocks[i];
        if b.first > b.last || (!b.v6 && b.last > 0xFFFF_FFFFu128) {
            assert(!blocks@[i as int].wf());
            return false;
        }
        i += 1;
    }
    true
}

/// The target space of one run, consumed in a single forward pass.
pub struct ScanRange {
    pub blocks: Vec<AddrBlock>,
    pub excludes: Vec<IpAddress>,
    pub ports: PortRange,
    /// Index of the block the cursor is in.
    pub block: usize,
    /// Address the cursor is at, within that block.
    pub addr: u128,
    /// Next port to yield for that address; one past the last port when the host is done.
    pub port: u32,
    /// Set once the sequence has ended, by exhaustion or by cancellation.
    pub finished: bool,
}

/// Whether a block before index `i` holds `addr`.
pub fn covered_before(blocks: &Vec<AddrBlock>, i: usize, addr: IpAddress) -> (r: bool)
    requires
        i <= blocks@.len(),
    ensures
        r == covered(blocks@, i as int).contains(addr),
{
    let mut j: usize = 0;
    while j < i
        invariant
            j <= i <= blocks@.len(),
            forall|k: int| 0 <= k < j ==> !(#[trigger] blocks@[k]).holds(addr),
        decreases i - j,
    {
        let b = blocks[j];
        if b.v6 == addr.v6 && b.first <= addr.bits && addr.bits <= b.last {
            assert(blocks@[j as int].holds(addr));
            return true;
        }
        j += 1;
    }
    false
}

impl ScanRange {
    pub open spec fn wf(&self) -> bool {
        &&& self.ports.wf()
        &&& forall|i: int| 0 <= i < self.blocks@.len() ==> (#[trigger] self.blocks@[i]).wf()
        &&& self.block <= self.blocks@.len()
        &&& self.block < self.blocks@.len() ==> {
            &&& self.blocks@[self.block as int].first <= self.addr <= self.blocks@[self.block as int].last
            &&& self.ports.first <= self.port <= self.ports.last + 1
        }
    }

    /// The addresses that yield no target: the excluded ones and those in `down`.
    pub open spec fn skip(&self, down: Set<IpAddress>) -> Set<IpAddress> {
        self.excludes@.to_set().union(down)
    }

    /// The targets still to come, in order, if the hosts in `down` are skipped. Each
    /// address is visited once, in the first block that holds it.
    pub open spec fn remaining(&self, down: Set<IpAddress>) -> Seq<ScanTarget> {
        if self.finished || self.block >= self.blocks@.len() {
            Seq::empty()
        } else {
            let b = self.blocks@[self.block as int];
            let here = self.skip(down).union(covered(self.blocks@, self.block as int));
            host_targets(IpAddress { v6: b.v6, bits: self.addr }, here, self.port as int, self.ports.last as int)
                + block_from(b.v6, self.addr + 1, b.last as int, here, self.ports) + blocks_from(
                self.blocks@,
                self.block + 1,
                self.skip(down),
                self.ports,
            )
        }
    }

    /// Whether the three parts of the configuration are those of `other`.
    pub open spec fn same_space(&self, other: &ScanRange) -> bool {
        &&& self.blocks@ == other.blocks@
        &&& self.excludes@ == other.excludes@
        &&& self.ports == other.ports
    }

    /// A range over `blocks` and `ports` without the addresses in `excludes`, positioned
    /// at its start. A reversed port range or a malformed block is refused.
    pub fn create(blocks: Vec<AddrBlock>, ports: PortRange, excludes: Vec<IpAddress>) -> (res: Result<
        ScanRange,
        RangeError,
    >)
        ensures
            res is Ok <==> ports.wf() && forall|i: int| 0 <= i < blocks@.len() ==> (#[trigger] blocks@[i]).wf(),
            res matches Err(e) ==> e == if !ports.wf() {
                RangeError::ReversedPorts
            } else {
                RangeError::MalformedBlock
            },
            res matches Ok(r) ==> {
                &&& r.wf()
                &&& !r.finished
                &&& r.blocks@ == blocks@
                &&& r.excludes@ == excludes@
                &&& r.ports == ports
                &&& forall|down: Set<IpAddress>|
                    #[trigger] r.remaining(down) == blocks_from(blocks@, 0, r.skip(down), ports)
            },
    {
        if ports.first > ports.last {
            return Err(RangeError::ReversedPorts);
        }
        if !blocks_well_formed(&blocks) {
            return Err(RangeError::MalformedBlock);
        }
        let addr: u128 = if blocks.len() > 0 { blocks[0].first } else { 0 };
        let r = ScanRange {
            blocks,
            excludes,
            ports,
            block: 0,
            addr,
            port: ports.first as u32,
            finished: false,
        };
        proof {
            assert forall|down: Set<IpAddress>|
                #[trigger] r.remaining(down) == blocks_from(r.blocks@, 0, r.skip(down), ports) by {
                if r.blocks@.len() > 0 {
                    let b = r.blocks@[0];
                    assert(b.wf());
                    assert(r.remaining(down) =~= blocks_from(r.blocks@, 0, r.skip(down), ports));
                }
            }
        }
        Ok(r)
    }

    /// Whether the sequence has ended.
    pub fn is_finished(&self) -> (r: bool)
        ensures
            r == self.finished,
    {
        self.finished
    }

    /// Ends the sequence: nothing is yielded afterwards.
    pub fn stop(&mut self)
        requires
            old(self).wf(),
        ensures
            final(self).wf(),
            final(self).finished,
            final(self).same_space(old(self)),
            forall|down: Set<IpAddress>| #[trigger] final(self).remaining(down) == Seq::<ScanTarget>::empty(),
    {
        self.finished = true;
    }

    /// Yields the next target, or ends the sequence.
    ///
    /// With `cancelled` set the sequence ends at once. Otherwise the result is the first
    /// of the targets still to come whose host is neither excluded nor in `down`, and the
    /// cursor moves past it; if there is none the sequence ends.
    pub fn next(&mut self, cancelled: bool, down: &Vec<IpAddress>) -> (r: Option<ScanTarget>)
        requires
            old(self).wf(),
        ensures
            final(self).wf(),
            final(self).same_space(old(self)),
            cancelled ==> r is None,
            r is None ==> final(self).finished,
            r is None <==> cancelled || old(self).remaining(down@.to_set()).len() == 0,
            r matches Some(t) ==> {
                &&& !final(self).finished
                &&& old(self).remaining(down@.to_set()) == seq![t] + final(self).remaining(down@.to_set())
                &&& final(self).addr == t.address.bits
                &&& final(self).port == t.port + 1
                &&& t.address.wf()
                &&& !old(self).excludes@.contains(t.address)
                &&& !down@.contains(t.address)
                &&& old(self).ports.first <= t.port <= old(self).ports.last
                &&& final(self).block < old(self).blocks@.len()
                &&& old(self).blocks@[final(self).block as int].holds(t.address)
                &&& forall|j: int| 0 <= j < final(self).block ==> !(#[trigger] old(self).blocks@[j]).holds(t.address)
            },
    {
        if cancelled || self.finished {
            self.finished = true;
            return None;
        }
        let ghost skip = self.skip(down@.to_set());
        let ghost start = old(self).remaining(down@.to_set());
        loop
            invariant
                self.wf(),
                !self.finished,
                !cancelled,
                start == old(self).remaining(down@.to_set()),
                self.same_space(old(self)),
                skip == self.skip(down@.to_set()),
                self.remaining(down@.to_set()) == start,
            decreases
                self.blocks@.len() - self.block,
                if self.block < self.blocks@.len() {
                    self.blocks@[self.block as int].last - self.addr
                } else {
                    0
                },
        {
            if self.block >= self.blocks.len() {
                assert(start.len() == 0);
                self.finished = true;
                return None;
            }
            let b = self.blocks[self.block];
            let host = IpAddress { v6: b.v6, bits: self.addr };
            let ghost here = skip.union(covered(self.blocks@, self.block as int));
            if self.port <= self.ports.last as u32 && !contains_address(&self.excludes, host)
                && !contains_address(down, host) && !covered_before(&self.blocks, self.block, host) {
                let t = ScanTarget { address: host, port: self.port as u16 };
                proof {
                    assert(self.blocks@[self.block as int].wf());
                    assert(!here.contains(host));
                    assert(ports_from(host, self.port as int, self.ports.last as int) =~= seq![t]
                        + ports_from(host, self.port + 1, self.ports.last as int));
                }
                self.port = self.port + 1;
                proof {
                    assert(start =~= seq![t] + self.remaining(down@.to_set()));
                }
                return Some(t);
            }
            proof {
                assert(host_targets(host, here, self.port as int, self.ports.last as int)
                    =~= Seq::<ScanTarget>::empty());
            }
            if self.addr < b.last {
                self.addr = self.addr + 1;
                self.port = self.ports.first as u32;
                proof {
                    assert(self.remaining(down@.to_set()) =~= start);
                }
            } else {
                proof {
                    assert(block_from(b.v6, self.addr + 1, b.last as int, here, self.ports)
                        =~= Seq::<ScanTarget>::empty());
                }
                self.block = self.block + 1;
                if self.block < self.blocks.len() {
                    self.addr = self.blocks[self.block].first;
                    self.port = self.ports.first as u32;
                    proof {
                        assert(self.blocks@[self.block as int].wf());
                        assert(self.remaining(down@.to_set()) =~= start);
                    }
                } else {
                    proof {
                        assert(blocks_from(self.blocks@, self.block as int, skip, self.ports)
                            =~= Seq::<ScanTarget>::empty());
                    }
                }
            }
        }
    }
}

/// How many of the addresses `a ..= last` are not skipped.
pub open spec fn live_hosts(v6: bool, a: int, last: int, skip: Set<IpAddress>) -> nat
    decreases last - a + 1,
{
    if a > last {
        0
    } else {
        let here: nat = if skip.contains(IpAddress { v6, bits: a as u128 }) { 0 } else { 1 };
        here + live_hosts(v6, a + 1, last, skip)
    }
}

/// How many addresses of the blocks from index `i` on are not skipped, each counted
/// once, in the first block that holds it.
pub open spec fn live_hosts_of(blocks: Seq<AddrBlock>, i: int, skip: Set<IpAddress>) -> nat
    decreases blocks.len() - i,
{
    if i < 0 || i >= blocks.len() {
        0
    } else {
        live_hosts(blocks[i].v6, blocks[i].first as int, blocks[i].last as int, skip.union(covered(blocks, i)))
            + live_hosts_of(blocks, i + 1, skip)
    }
}

/// A block yields one target for each port of each address that is not skipped.
pub proof fn lemma_block_count(v6: bool, a: int, last: int, skip: Set<IpAddress>, ports: PortRange)
    requires
        ports.wf(),
    ensures
        block_from(v6, a, last, skip, ports).len() == live_hosts(v6, a, last, skip) * ports.count(),
    decreases last - a + 1,
{
    if a <= last {
        lemma_block_count(v6, a + 1, last, skip, ports);
        let rest = live_hosts(v6, a + 1, last, skip);
        let n = ports.count();
        assert((1 + rest) * n == n + rest * n) by (nonlinear_arith);
        assert((0 + rest) * n == rest * n);
    } else {
        assert(0 * ports.count() == 0) by (nonlinear_arith);
    }
}

/// Without cancellation and with no host down, a run over `blocks` yields exactly one
/// target for each pair of an address that is not excluded and a port of the range.
pub proof fn lemma_target_count(blocks: Seq<AddrBlock>, i: int, skip: Set<IpAddress>, ports: PortRange)
    requires
        ports.wf(),
    ensures
        blocks_from(blocks, i, skip, ports).len() == live_hosts_of(blocks, i, skip) * ports.count(),
    decreases blocks.len() - i,
{
    if 0 <= i < blocks.len() {
        lemma_target_count(blocks, i + 1, skip, ports);
        let seen = skip.union(covered(blocks, i));
        lemma_block_count(blocks[i].v6, blocks[i].first as int, blocks[i].last as int, seen, ports);
        let here = live_hosts(blocks[i].v6, blocks[i].first as int, blocks[i].last as int, seen);
        let rest = live_hosts_of(blocks, i + 1, skip);
        let n = ports.count();
        assert((here + rest) * n == here * n + rest * n) by (nonlinear_arith);
    } else {
        assert(0 * ports.count() == 0) by (nonlinear_arith);
    }
}

/// Every target of a block is at an address of the block that is not skipped, on a port of the range.
pub proof fn lemma_block_members(v6: bool, a: int, last: int, skip: Set<IpAddress>, ports: PortRange, k: int)
    requires
        0 <= a,
        last <= u128::MAX,
        0 <= k < block_from(v6, a, last, skip, ports).len(),
    ensures
        !skip.contains(block_from(v6, a, last, skip, ports)[k].address),
        block_from(v6, a, last, skip, ports)[k].address.v6 == v6,
        a <= block_from(v6, a, last, skip, ports)[k].address.bits <= last,
        ports.first <= block_from(v6, a, last, skip, ports)[k].port <= ports.last,
    decreases last - a + 1,
{
    if a <= last {
        let head = host_targets(IpAddress { v6, bits: a as u128 }, skip, ports.first as int, ports.last as int);
        if k >= head.len() {
            lemma_block_members(v6, a + 1, last, skip, ports, k - head.len());
        }
    }
}

/// No excluded address and no host that is down occurs among the targets of a run: each
/// target is at an address of one of the blocks that is not skipped, on a port of the range.
pub proof fn lemma_targets_avoid_skipped(
    blocks: Seq<AddrBlock>,
    i: int,
    skip: Set<IpAddress>,
    ports: PortRange,
    k: int,
)
    requires
        0 <= k < blocks_from(blocks, i, skip, ports).len(),
    ensures
        !skip.contains(blocks_from(blocks, i, skip, ports)[k].address),
        ports.first <= blocks_from(blocks, i, skip, ports)[k].port <= ports.last,
        exists|j: int| i <= j < blocks.len() && #[trigger] blocks[j].holds(blocks_from(blocks, i, skip, ports)[k].address),
    decreases blocks.len() - i,
{
    if 0 <= i < blocks.len() {
        let seen = skip.union(covered(blocks, i));
        let head = block_from(blocks[i].v6, blocks[i].first as int, blocks[i].last as int, seen, ports);
        if k >= head.len() {
            lemma_targets_avoid_skipped(blocks, i + 1, skip, ports, k - head.len());
            let t = blocks_from(blocks, i, skip, ports)[k];
            let j = choose|j: int| i + 1 <= j < blocks.len() && #[trigger] blocks[j].holds(t.address);
            assert(blocks[j].holds(t.address));
        } else {
            lemma_block_members(blocks[i].v6, blocks[i].first as int, blocks[i].last as int, seen, ports, k);
            assert(blocks[i].holds(blocks_from(blocks, i, skip, ports)[k].address));
        }
    }
}

/// No target of the blocks from index `i` on is at an address that an earlier block holds.
pub proof fn lemma_targets_uncovered(
    blocks: Seq<AddrBlock>,
    i: int,
    skip: Set<IpAddress>,
    ports: PortRange,
    k: int,
    j: int,
)
    requires
        0 <= j < i,
        0 <= k < blocks_from(blocks, i, skip, ports).len(),
    ensures
        !blocks[j].holds(blocks_from(blocks, i, skip, ports)[k].address),
    decreases blocks.len() - i,
{
    if 0 <= i < blocks.len() {
        let seen = skip.union(covered(blocks, i));
        let head = block_from(blocks[i].v6, blocks[i].first as int, blocks[i].last as int, seen, ports);
        if k >= head.len() {
            lemma_targets_uncovered(blocks, i + 1, skip, ports, k - head.len(), j);
        } else {
            lemma_block_members(blocks[i].v6, blocks[i].first as int, blocks[i].last as int, seen, ports, k);
            let a = head[k].address;
            if blocks[j].holds(a) {
                assert(covered(blocks, i).contains(a));
            }
        }
    }
}

/// The targets of a block are pairwise different.
pub proof fn lemma_block_distinct(
    v6: bool,
    a: int,
    last: int,
    skip: Set<IpAddress>,
    ports: PortRange,
    k1: int,
    k2: int,
)
    requires
        0 <= a,
        last <= u128::MAX,
        0 <= k1 < k2 < block_from(v6, a, last, skip, ports).len(),
    ensures
        block_from(v6, a, last, skip, ports)[k1] != block_from(v6, a, last, skip, ports)[k2],
    decreases last - a + 1,
{
    if a <= last {
        let head = host_targets(IpAddress { v6, bits: a as u128 }, skip, ports.first as int, ports.last as int);
        if k1 >= head.len() {
            lemma_block_distinct(v6, a + 1, last, skip, ports, k1 - head.len(), k2 - head.len());
        } else if k2 >= head.len() {
            lemma_block_members(v6, a + 1, last, skip, ports, k2 - head.len());
        } else {
            assert(head[k1].port != head[k2].port);
        }
    }
}

/// No target is issued twice: the targets of a run are pairwise different.
pub proof fn lemma_targets_distinct(
    blocks: Seq<AddrBlock>,
    i: int,
    skip: Set<IpAddress>,
    ports: PortRange,
    k1: int,
    k2: int,
)
    requires
        0 <= k1 < k2 < blocks_from(blocks, i, skip, ports).len(),
    ensures
        blocks_from(blocks, i, skip, ports)[k1] != blocks_from(blocks, i, skip, ports)[k2],
    decreases blocks.len() - i,
{
    if 0 <= i < blocks.len() {
        let seen = skip.union(covered(blocks, i));
        let head = block_from(blocks[i].v6, blocks[i].first as int, blocks[i].last as int, seen, ports);
        if k1 >= head.len() {
            lemma_targets_distinct(blocks, i + 1, skip, ports, k1 - head.len(), k2 - head.len());
        } else if k2 >= head.len() {
            lemma_block_members(blocks[i].v6, blocks[i].first as int, blocks[i].last as int, seen, ports, k1);
            lemma_targets_uncovered(blocks, i + 1, skip, ports, k2 - head.len(), i);
            assert(blocks[i].holds(head[k1].address));
        } else {
            lemma_block_distinct(blocks[i].v6, blocks[i].first as int, blocks[i].last as int, seen, ports, k1, k2);
        }
    }
}

/// At every point of a run, no target still to come is at an excluded address or at a
/// host that is down, and each is on a port of the range.
pub proof fn lemma_remaining_members(r: ScanRange, down: Set<IpAddress>, k: int)
    requires
        r.wf(),
        0 <= k < r.remaining(down).len(),
    ensures
        !r.excludes@.contains(r.remaining(down)[k].address),
        !down.contains(r.remaining(down)[k].address),
        r.ports.first <= r.remaining(down)[k].port <= r.ports.last,
{
    let b = r.blocks@[r.block as int];
    let here = r.skip(down).union(covered(r.blocks@, r.block as int));
    let host = host_targets(IpAddress { v6: b.v6, bits: r.addr }, here, r.port as int, r.ports.last as int);
    let block = block_from(b.v6, r.addr + 1, b.last as int, here, r.ports);
    if k < host.len() {
    } else if k < host.len() + block.len() {
        lemma_block_members(b.v6, r.addr + 1, b.last as int, here, r.ports, k - host.len());
    } else {
        lemma_targets_avoid_skipped(r.blocks@, r.block + 1, r.skip(down), r.ports, k - host.len() - block.len());
    }
}

/// Skipping more addresses never leaves more live hosts in a block.
pub proof fn lemma_live_hosts_shrink(v6: bool, a: int, last: int, fewer: Set<IpAddress>, more: Set<IpAddress>)
    requires
        forall|x: IpAddress| fewer.contains(x) ==> more.contains(x),
    ensures
        live_hosts(v6, a, last, more) <= live_hosts(v6, a, last, fewer),
    decreases last - a + 1,
{
    if a <= last {
        lemma_live_hosts_shrink(v6, a + 1, last, fewer, more);
    }
}

/// A run in which more hosts are skipped, as when hosts go down, never has more targets:
/// the full count of the pairs left after exclusion bounds the count of every run.
pub proof fn lemma_targets_shrink(
    blocks: Seq<AddrBlock>,
    i: int,
    fewer: Set<IpAddress>,
    more: Set<IpAddress>,
    ports: PortRange,
)
    requires
        ports.wf(),
        forall|x: IpAddress| fewer.contains(x) ==> more.contains(x),
    ensures
        live_hosts_of(blocks, i, more) <= live_hosts_of(blocks, i, fewer),
        blocks_from(blocks, i, more, ports).len() <= blocks_from(blocks, i, fewer, ports).len(),
    decreases blocks.len() - i,
{
    lemma_target_count(blocks, i, more, ports);
    lemma_target_count(blocks, i, fewer, ports);
    if 0 <= i < blocks.len() {
        lemma_targets_shrink(blocks, i + 1, fewer, more, ports);
        lemma_live_hosts_shrink(
            blocks[i].v6,
            blocks[i].first as int,
            blocks[i].last as int,
            fewer.union(covered(blocks, i)),
            more.union(covered(blocks, i)),
        );
    }
    let a = live_hosts_of(blocks, i, more);
    let b = live_hosts_of(blocks, i, fewer);
    let n = ports.count();
    assert(a * n <= b * n) by (nonlinear_arith)
        requires
            a <= b,
    ;
}

} // verus!
