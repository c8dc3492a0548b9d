//! IP networks: an address together with a prefix length.

use vstd::prelude::*;
use crate::addr::{IpAddr, Ipv4Addr, Ipv6Addr};

verus! {

/// The netmask of an IPv4 prefix: the `prefix` high bits set.
pub open spec fn v4_mask(prefix: u8) -> u32 {
    (!(0xffff_ffffu64 >> prefix)) as u32
}

/// The netmask of an IPv6 prefix: the `prefix` high bits set.
pub open spec fn v6_mask(prefix: u8) -> u128 {
    if prefix == 0 {
        0
    } else {
        0xffff_ffff_ffff_ffff_ffff_ffff_ffff_ffffu128 << ((128 - prefix) as u128)
    }
}

/// A prefix that fits an IPv4 address has at most 32 bits.
#[derive(Clone, Copy, Debug, PartialEq, Eq, Structural)]
pub enum NetError {
    InvalidPrefix,
}

/// An IPv4 address with a prefix length of at most 32.
#[derive(Clone, Copy, Debug, PartialEq, Eq, Structural, Hash)]
pub struct Ipv4Net {
    addr: Ipv4Addr,
    prefix: u8,
}

impl Ipv4Net {
    #[verifier::type_invariant]
    spec fn inv(self) -> bool {
        self.prefix <= 32
    }

    pub closed spec fn spec_ip(self) -> Ipv4Addr {
        self.addr
    }

    pub closed spec fn spec_prefix(self) -> u8 {
        self.prefix
    }

    pub open spec fn spec_network(self) -> u32 {
        self.spec_ip().bits & v4_mask(self.spec_prefix())
    }

    pub open spec fn spec_broadcast(self) -> u32 {
        self.spec_ip().bits | !v4_mask(self.spec_prefix())
    }

    pub open spec fn spec_contains(self, ip: Ipv4Addr) -> bool {
        ip.bits & v4_mask(self.spec_prefix()) == self.spec_network()
    }

    /// Fails exactly when the prefix is longer than 32 bits.
    pub fn new(addr: Ipv4Addr, prefix: u8) -> (r: Result<Ipv4Net, NetError>)
        ensures
            prefix > 32 <==> r is Err,
            r matches Ok(n) ==> n.spec_ip() == addr && n.spec_prefix() == prefix,
    {
        if prefix > 32 {
            Err(NetError::InvalidPrefix)
        } else {
            Ok(Ipv4Net { addr, prefix })
        }
    }

    pub fn ip(&self) -> (r: Ipv4Addr)
        ensures
            r == self.spec_ip(),
    {
        self.addr
    }

    pub fn prefix(&self) -> (r: u8)
        ensures
            r == self.spec_prefix(),
            r <= 32,
    {
        proof {
            use_type_invariant(self);
        }
        self.prefix
    }

    pub fn mask(&self) -> (r: u32)
        ensures
            r == v4_mask(self.spec_prefix()),
    {
        proof {
            use_type_invariant(self);
        }
        (!(0xffff_ffffu64 >> self.prefix)) as u32
    }

    /// The lowest address of the network.
    pub fn network(&self) -> (r: Ipv4Addr)
        ensures
            r.bits == self.spec_network(),
    {
        Ipv4Addr { bits: self.addr.bits & self.mask() }
    }

    /// The highest address of the network.
    pub fn broadcast(&self) -> (r: Ipv4Addr)
        ensures
            r.bits == self.spec_broadcast(),
    {
        Ipv4Addr { bits: self.addr.bits | !self.mask() }
    }

    pub fn contains(&self, ip: Ipv4Addr) -> (r: bool)
        ensures
            r == self.spec_contains(ip),
    {
        let m = self.mask();
        ip.bits & m == self.addr.bits & m
    }
}

/// For a prefix mask, agreeing with `ip` on the masked bits is the same as
/// lying between the network and the broadcast address of `ip`.
pub proof fn lemma_mask_interval(x: u32, ip: u32, p: u8)
    requires
        p <= 32,
    ensures
        (x & v4_mask(p) == ip & v4_mask(p)) <==> ((ip & v4_mask(p)) <= x && x <= (ip | !v4_mask(p))),
        (ip & v4_mask(p)) <= ip <= (ip | !v4_mask(p)),
        (ip | !v4_mask(p)) == ((ip & v4_mask(p)) | !v4_mask(p)),
{
    let pp = p as u64;
    assert((x & ((!(0xffff_ffffu64 >> pp)) as u32) == ip & ((!(0xffff_ffffu64 >> pp)) as u32))
        <==> ((ip & ((!(0xffff_ffffu64 >> pp)) as u32)) <= x && x <= (ip | !((!(0xffff_ffffu64
        >> pp)) as u32)))) by (bit_vector)
        requires
            pp <= 32,
    ;
    assert((ip & ((!(0xffff_ffffu64 >> pp)) as u32)) <= ip <= (ip | !((!(0xffff_ffffu64 >> pp)) as u32)))
        by (bit_vector);
    assert((ip | !((!(0xffff_ffffu64 >> pp)) as u32)) == ((ip & ((!(0xffff_ffffu64 >> pp)) as u32))
        | !((!(0xffff_ffffu64 >> pp)) as u32))) by (bit_vector);
}

/// Every address of a network lies between its network and broadcast
/// addresses, and every address between them belongs to it.
pub proof fn lemma_net_contains_interval(net: Ipv4Net, x: Ipv4Addr)
    requires
        net.spec_prefix() <= 32,
    ensures
        net.spec_contains(x) <==> net.spec_network() <= x.bits <= net.spec_broadcast(),
        net.spec_network() <= net.spec_ip().bits <= net.spec_broadcast(),
{
    lemma_mask_interval(x.bits, net.spec_ip().bits, net.spec_prefix());
}

/// An IPv6 address with a prefix length of at most 128.
#[derive(Clone, Copy, Debug, PartialEq, Eq, Structural, Hash)]
pub struct Ipv6Net {
    addr: Ipv6Addr,
    prefix: u8,
}

impl Ipv6Net {
    #[verifier::type_invariant]
    spec fn inv(self) -> bool {
        self.prefix <= 128
    }

    pub closed spec fn spec_ip(self) -> Ipv6Addr {
        self.addr
    }

    pub closed spec fn spec_prefix(self) -> u8 {
        self.prefix
    }

    pub open spec fn spec_contains(self, ip: Ipv6Addr) -> bool {
        ip.bits & v6_mask(self.spec_prefix()) == self.spec_ip().bits & v6_mask(self.spec_prefix())
    }

    /// Fails exactly when the prefix is longer than 128 bits.
    pub fn new(addr: Ipv6Addr, prefix: u8) -> (r: Result<Ipv6Net, NetError>)
        ensures
            prefix > 128 <==> r is Err,
            r matches Ok(n) ==> n.spec_ip() == addr && n.spec_prefix() == prefix,
    {
        if prefix > 128 {
            Err(NetError::InvalidPrefix)
        } else {
            Ok(Ipv6Net { addr, prefix })
        }
    }

    pub fn ip(&self) -> (r: Ipv6Addr)
        ensures
            r == self.spec_ip(),
    {
        self.addr
    }

    pub fn prefix(&self) -> (r: u8)
        ensures
            r == self.spec_prefix(),
            r <= 128,
    {
        proof {
            use_type_invariant(self);
        }
        self.prefix
    }

    pub fn contains(&self, ip: Ipv6Addr) -> (r: bool)
        ensures
            r == self.spec_contains(ip),
    {
        proof {
            use_type_invariant(self);
        }
        let m: u128 = if self.prefix == 0 {
            0
        } else {
            0xffff_ffff_ffff_ffff_ffff_ffff_ffff_ffffu128 << ((128 - self.prefix) as u128)
        };
        ip.bits & m == self.addr.bits & m
    }
}

/// An IPv4 or IPv6 network.
#[derive(Clone, Copy, Debug, PartialEq, Eq, Structural, Hash)]
pub enum IpNetwork {
    V4(Ipv4Net),
    V6(Ipv6Net),
}

impl IpNetwork {
    pub open spec fn spec_ip(self) -> IpAddr {
        match self {
            IpNetwork::V4(n) => IpAddr::V4(n.spec_ip()),
            IpNetwork::V6(n) => IpAddr::V6(n.spec_ip()),
        }
    }

    /// Only an address of the network's own family can belong to it.
    pub open spec fn spec_contains(self, ip: IpAddr) -> bool {
        match (self, ip) {
            (IpNetwork::V4(n), IpAddr::V4(a)) => n.spec_contains(a),
            (IpNetwork::V6(n), IpAddr::V6(a)) => n.spec_contains(a),
            _ => false,
        }
    }

    pub fn ip(&self) -> (r: IpAddr)
        ensures
            r == self.spec_ip(),
    {
        match self {
            IpNetwork::V4(n) => IpAddr::V4(n.ip()),
            IpNetwork::V6(n) => IpAddr::V6(n.ip()),
        }
    }

    pub fn is_ipv4(&self) -> (r: bool)
        ensures
            r == (*self is V4),
    {
        match self {
            IpNetwork::V4(_) => true,
            IpNetwork::V6(_) => false,
        }
    }

    pub fn contains(&self, ip: IpAddr) -> (r: bool)
        ensures
            r == self.spec_contains(ip),
    {
        match (self, ip) {
            (IpNetwork::V4(n), IpAddr::V4(a)) => n.contains(a),
            (IpNetwork::V6(n), IpAddr::V6(a)) => n.contains(a),
            _ => false,
        }
    }
}

} // verus!
