//! Clusters and the entries of the file allocation table.

use vstd::prelude::*;
use vstd::std_specs::convert::FromSpecImpl;

verus! {

/// The number of a cluster: 28 bits.
#[derive(Debug, Copy, Clone, PartialEq, Eq, Structural)]
pub struct Cluster(pub u32);

/// The low 28 bits of `raw`.
pub open spec fn low28(raw: u32) -> u32 {
    (raw as int % 0x1000_0000) as u32
}

impl From<u32> for Cluster {
    fn from(raw: u32) -> (r: Cluster) {
        assert(raw & 0x0FFF_FFFF == raw % 0x1000_0000) by (bit_vector);
        Cluster(raw & 0x0FFF_FFFF)
    }
}

impl FromSpecImpl<u32> for Cluster {
    open spec fn obeys_from_spec() -> bool {
        true
    }

    open spec fn from_spec(raw: u32) -> Cluster {
        Cluster(low28(raw))
    }
}

impl Cluster {
    /// The number of the cluster.
    pub fn num(&self) -> (r: u32)
        ensures
            r == self.0,
    {
        self.0
    }
}

/// What an entry of the file allocation table says of its cluster.
#[derive(Debug, Copy, Clone, PartialEq, Eq, Structural)]
pub enum Status {
    /// The cluster is free.
    Free,
    /// The cluster is reserved.
    Reserved,
    /// The cluster holds data, and the chain goes on with this cluster.
    Data(Cluster),
    /// The cluster is bad.
    Bad,
    /// The cluster holds data and is the last of its chain.
    Eoc(u32),
}

/// An entry of the file allocation table.
#[derive(Debug, Copy, Clone, PartialEq, Eq, Structural)]
pub struct FatEntry(pub u32);

impl FatEntry {
    /// What the entry says, by its low 28 bits.
    pub open spec fn status_of(self) -> Status {
        let v = low28(self.0);
        if v == 0 {
            Status::Free
        } else if v == 1 {
            Status::Reserved
        } else if v <= 0x0FFF_FFEF {
            Status::Data(Cluster(v))
        } else if v <= 0x0FFF_FFF6 {
            Status::Reserved
        } else if v == 0x0FFF_FFF7 {
            Status::Bad
        } else {
            Status::Eoc(self.0)
        }
    }

    /// What the entry says of its cluster.
    pub fn status(&self) -> (r: Status)
        ensures
            r == self.status_of(),
    {
        let raw = self.0;
        assert(raw & 0x0FFF_FFFF == raw % 0x1000_0000) by (bit_vector);
        let v = raw & 0x0FFF_FFFF;
        if v == 0 {
            Status::Free
        } else if v == 1 {
            Status::Reserved
        } else if v <= 0x0FFF_FFEF {
            Status::Data(Cluster::from(raw))
        } else if v <= 0x0FFF_FFF6 {
            Status::Reserved
        } else if v == 0x0FFF_FFF7 {
            Status::Bad
        } else {
            Status::Eoc(raw)
        }
    }
}

} // verus!
