//! What a host going down does to the targets still to come: those of that host leave,
//! the others stay in their order.

use vstd::prelude::*;
use crate::address::{AddrBlock, IpAddress, PortRange, ScanTarget};
use crate::range::{block_from, blocks_from, covered, host_targets, ScanRange};

verus! {

/// The test that a target is not at the host `h`.
pub open spec fn not_at(h: IpAddress) -> spec_fn(ScanTarget) -> bool {
    |t: ScanTarget| t.address != h
}

/// Targets of which none is at `h` all pass the test.
pub proof fn lemma_keep_all(s: Seq<ScanTarget>, h: IpAddress)
    requires
        forall|i: int| 0 <= i < s.len() ==> s[i].address != h,
    ensures
        s.filter(not_at(h)) == s,
    decreases s.len(),
{
    reveal(Seq::filter);
    if s.len() > 0 {
        lemma_keep_all(s.drop_last(), h);
        assert(s.drop_last().push(s.last()) =~= s);
    }
}

/// Targets that are all at `h` all fail the test.
pub proof fn lemma_keep_none(s: Seq<ScanTarget>, h: IpAddress)
    requires
        forall|i: int| 0 <= i < s.len() ==> s[i].address == h,
    ensures
        s.filter(not_at(h)) == Seq::<ScanTarget>::empty(),
    decreases s.len(),
{
    reveal(Seq::filter);
    if s.len() > 0 {
        lemma_keep_none(s.drop_last(), h);
    }
}

/// Skipping `h` as well takes the targets at `h` from those of one host.
pub proof fn lemma_host_without(addr: IpAddress, skip: Set<IpAddress>, port: int, last: int, h: IpAddress)
    ensures
        host_targets(addr, skip.insert(h), port, last) == host_targets(addr, skip, port, last).filter(
            not_at(h),
        ),
{
    let s = host_targets(addr, skip, port, last);
    if addr == h {
        lemma_keep_none(s, h);
    } else {
        lemma_keep_all(s, h);
    }
}

/// Skipping `h` as well takes the targets at `h` from those of a block.
pub proof fn lemma_block_without(
    v6: bool,
    a: int,
    last: int,
    skip: Set<IpAddress>,
    ports: PortRange,
    h: IpAddress,
)
    ensures
        block_from(v6, a, last, skip.insert(h), ports) == block_from(v6, a, last, skip, ports).filter(
            not_at(h),
        ),
    decreases last - a + 1,
{
    if a <= last {
        let head = host_targets(IpAddress { v6, bits: a as u128 }, skip, ports.first as int, ports.last as int);
        let rest = block_from(v6, a + 1, last, skip, ports);
        lemma_host_without(IpAddress { v6, bits: a as u128 }, skip, ports.first as int, ports.last as int, h);
        lemma_block_without(v6, a + 1, last, skip, ports, h);
        Seq::filter_distributes_over_add(head, rest, not_at(h));
    } else {
        lemma_keep_all(Seq::<ScanTarget>::empty(), h);
    }
}

/// Skipping `h` as well takes the targets at `h` from those of a run.
pub proof fn lemma_blocks_without(
    blocks: Seq<AddrBlock>,
    i: int,
    skip: Set<IpAddress>,
    ports: PortRange,
    h: IpAddress,
)
    ensures
        blocks_from(blocks, i, skip.insert(h), ports) == blocks_from(blocks, i, skip, ports).filter(not_at(h)),
    decreases blocks.len() - i,
{
    if 0 <= i < blocks.len() {
        let seen = covered(blocks, i);
        assert(skip.insert(h).union(seen) =~= skip.union(seen).insert(h));
        let head = block_from(blocks[i].v6, blocks[i].first as int, blocks[i].last as int, skip.union(seen), ports);
        let rest = blocks_from(blocks, i + 1, skip, ports);
        lemma_block_without(blocks[i].v6, blocks[i].first as int, blocks[i].last as int, skip.union(seen), ports, h);
        lemma_blocks_without(blocks, i + 1, skip, ports, h);
        Seq::filter_distributes_over_add(head, rest, not_at(h));
    } else {
        lemma_keep_all(Seq::<ScanTarget>::empty(), h);
    }
}

/// Once a host is down, the targets still to come are those that were to come before
/// without the ones at that host, in the same order: no further port of it is visited,
/// and no other target is lost.
pub proof fn lemma_down_host_leaves(r: ScanRange, down: Set<IpAddress>, h: IpAddress)
    ensures
        r.remaining(down.insert(h)) == r.remaining(down).filter(not_at(h)),
{
    if r.finished || r.block >= r.blocks@.len() {
        lemma_keep_all(Seq::<ScanTarget>::empty(), h);
    } else {
        let b = r.blocks@[r.block as int];
        let seen = covered(r.blocks@, r.block as int);
        let here = r.skip(down).union(seen);
        assert(r.skip(down.insert(h)) =~= r.skip(down).insert(h));
        assert(r.skip(down.insert(h)).union(seen) =~= here.insert(h));
        let host = host_targets(IpAddress { v6: b.v6, bits: r.addr }, here, r.port as int, r.ports.last as int);
        let block = block_from(b.v6, r.addr + 1, b.last as int, here, r.ports);
        let rest = blocks_from(r.blocks@, r.block + 1, r.skip(down), r.ports);
        lemma_host_without(IpAddress { v6: b.v6, bits: r.addr }, here, r.port as int, r.ports.last as int, h);
        lemma_block_without(b.v6, r.addr + 1, b.last as int, here, r.ports, h);
        lemma_blocks_without(r.blocks@, r.block + 1, r.skip(down), r.ports, h);
        Seq::filter_distributes_over_add(host, block, not_at(h));
        Seq::filter_distributes_over_add(host + block, rest, not_at(h));
    }
}

} // verus!
