//! A network interface as the operating system reports it.

use vstd::prelude::*;
use crate::addr::MacAddr;
use crate::network::IpNetwork;

verus! {

/// The interface is up.
pub const IFF_UP: u32 = 1;

/// The interface can broadcast.
pub const IFF_BROADCAST: u32 = 2;

/// The interface is a loopback.
pub const IFF_LOOPBACK: u32 = 8;

/// The interface is a point-to-point link.
pub const IFF_POINTTOPOINT: u32 = 16;

/// A network interface: its name, hardware address, networks and flags
/// (in the bit layout of `IFF_UP` and its siblings).
#[derive(Debug)]
pub struct Interface {
    pub name: String,
    pub description: String,
    pub index: u32,
    pub mac: Option<MacAddr>,
    pub ips: Vec<IpNetwork>,
    pub flags: u32,
}

impl Interface {
    pub open spec fn spec_is_up(&self) -> bool {
        self.flags & IFF_UP != 0
    }

    pub open spec fn spec_is_broadcast(&self) -> bool {
        self.flags & IFF_BROADCAST != 0
    }

    pub open spec fn spec_is_loopback(&self) -> bool {
        self.flags & IFF_LOOPBACK != 0
    }

    pub open spec fn spec_is_point_to_point(&self) -> bool {
        self.flags & IFF_POINTTOPOINT != 0
    }

    pub fn is_up(&self) -> (r: bool)
        ensures
            r == self.spec_is_up(),
    {
        self.flags & IFF_UP != 0
    }

    pub fn is_broadcast(&self) -> (r: bool)
        ensures
            r == self.spec_is_broadcast(),
    {
        self.flags & IFF_BROADCAST != 0
    }

    pub fn is_loopback(&self) -> (r: bool)
        ensures
            r == self.spec_is_loopback(),
    {
        self.flags & IFF_LOOPBACK != 0
    }

    pub fn is_point_to_point(&self) -> (r: bool)
        ensures
            r == self.spec_is_point_to_point(),
    {
        self.flags & IFF_POINTTOPOINT != 0
    }
}

impl Interface {
    /// Equal in every field, the networks compared by value.
    pub open spec fn same_as(self, other: Interface) -> bool {
        &&& self.name == other.name
        &&& self.description == other.description
        &&& self.index == other.index
        &&& self.mac == other.mac
        &&& self.ips@ == other.ips@
        &&& self.flags == other.flags
    }
}

impl Interface {
    /// A copy of the interface, field by field.
    pub fn duplicate(&self) -> (r: Self)
        ensures
            r.same_as(*self),
    {
        let ips = self.ips.clone();
        assert(ips@ =~= self.ips@);
        Interface {
            name: self.name.clone(),
            description: self.description.clone(),
            index: self.index,
            mac: self.mac,
            ips,
            flags: self.flags,
        }
    }
}

impl Clone for Interface {
    fn clone(&self) -> (r: Self)
        ensures
            r.same_as(*self),
    {
        self.duplicate()
    }
}

} // verus!
