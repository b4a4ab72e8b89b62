//! Addresses, address blocks, port ranges and scan targets as plain values.

use vstd::prelude::*;

verus! {

/// An IP address held as its family and its numeric value.
#[derive(Clone, Copy, Debug, PartialEq, Eq, Structural, Hash)]
pub struct IpAddress {
    pub v6: bool,
    pub bits: u128,
}

impl IpAddress {
    /// An IPv4 address fits in 32 bits.
    pub open spec fn wf(&self) -> bool {
        !self.v6 ==> self.bits <= 0xFFFF_FFFFu128
    }

    /// The IPv4 address with the given numeric value.
    pub fn v4(bits: u32) -> (r: IpAddress)
        ensures
            r == (IpAddress { v6: false, bits: bits as u128 }),
            r.wf(),
    {
        IpAddress { v6: false, bits: bits as u128 }
    }

    /// The IPv6 address with the given numeric value.
    pub fn v6(bits: u128) -> (r: IpAddress)
        ensures
            r == (IpAddress { v6: true, bits: bits }),
            r.wf(),
    {
        IpAddress { v6: true, bits }
    }
}

/// A contiguous run of addresses of one family, both ends included.
#[derive(Clone, Copy, Debug, PartialEq, Eq, Structural, Hash)]
pub struct AddrBlock {
    pub v6: bool,
    pub first: u128,
    pub last: u128,
}

impl AddrBlock {
    pub open spec fn wf(&self) -> bool {
        &&& self.first <= self.last
        &&& !self.v6 ==> self.last <= 0xFFFF_FFFFu128
    }

    /// Whether `addr` lies in the block.
    pub open spec fn holds(&self, addr: IpAddress) -> bool {
        addr.v6 == self.v6 && self.first <= addr.bits <= self.last
    }

    /// The block that holds exactly one address.
    pub fn host(addr: IpAddress) -> (r: AddrBlock)
        ensures
            r == (AddrBlock { v6: addr.v6, first: addr.bits, last: addr.bits }),
            addr.wf() ==> r.wf(),
    {
        AddrBlock { v6: addr.v6, first: addr.bits, last: addr.bits }
    }
}

/// An inclusive range of TCP ports.
#[derive(Clone, Copy, Debug, PartialEq, Eq, Structural, Hash)]
pub struct PortRange {
    pub first: u16,
    pub last: u16,
}

impl PortRange {
    pub open spec fn wf(&self) -> bool {
        self.first <= self.last
    }

    /// How many ports the range holds.
    pub open spec fn count(&self) -> nat {
        if self.first <= self.last {
            (self.last - self.first + 1) as nat
        } else {
            0
        }
    }
}

/// One probe to make: an address and a port.
#[derive(Clone, Copy, Debug, PartialEq, Eq, Structural, Hash)]
pub struct ScanTarget {
    pub address: IpAddress,
    pub port: u16,
}

/// Whether `addr` occurs in `list`.
pub fn contains_address(list: &Vec<IpAddress>, addr: IpAddress) -> (r: bool)
    ensures
        r == list@.contains(addr),
{
    let mut i: usize = 0;
    while i < list.len()
        invariant
            i <= list.len(),
            forall|j: int| 0 <= j < i ==> list@[j] != addr,
        decreases list.len() - i,
    {
        if list[i] == addr {
            return true;
        }
        i += 1;
    }
    false
}

} // verus!
