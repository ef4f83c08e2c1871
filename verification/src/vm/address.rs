//! Physical and virtual addresses.

use vstd::prelude::*;
use vstd::std_specs::convert::FromSpecImpl;

verus! {

/// An address in physical memory.
#[derive(Debug, Copy, Clone, PartialEq, Eq, Structural)]
pub struct PhysicalAddr(pub u64);

/// An address in a virtual address space.
#[derive(Debug, Copy, Clone, PartialEq, Eq, Structural)]
pub struct VirtualAddr(pub u64);

impl PhysicalAddr {
    /// The address as a number.
    pub fn as_u64(&self) -> (r: u64)
        ensures
            r == self.0,
    {
        self.0
    }
}

impl VirtualAddr {
    /// The address as a number.
    pub fn as_u64(&self) -> (r: u64)
        ensures
            r == self.0,
    {
        self.0
    }
}

impl From<u64> for PhysicalAddr {
    fn from(raw: u64) -> (r: PhysicalAddr) {
        PhysicalAddr(raw)
    }
}

impl FromSpecImpl<u64> for PhysicalAddr {
    open spec fn obeys_from_spec() -> bool {
        true
    }

    open spec fn from_spec(raw: u64) -> PhysicalAddr {
        PhysicalAddr(raw)
    }
}

impl From<u64> for VirtualAddr {
    fn from(raw: u64) -> (r: VirtualAddr) {
        VirtualAddr(raw)
    }
}

impl FromSpecImpl<u64> for VirtualAddr {
    open spec fn obeys_from_spec() -> bool {
        true
    }

    open spec fn from_spec(raw: u64) -> VirtualAddr {
        VirtualAddr(raw)
    }
}

} // verus!
