//! Plain-value models of link-layer and IP addresses and networks.

use vstd::prelude::*;

verus! {

/// Value of four octets read as one big-endian 32-bit number.
pub open spec fn be32(a: int, b: int, c: int, d: int) -> int {
    a * 16777216 + b * 65536 + c * 256 + d
}

/// The four octets can be read back from their big-endian value.
pub proof fn lemma_be32_octets(a: int, b: int, c: int, d: int)
    requires
        0 <= a < 256,
        0 <= b < 256,
        0 <= c < 256,
        0 <= d < 256,
    ensures
        0 <= be32(a, b, c, d) < 0x1_0000_0000,
        be32(a, b, c, d) / 16777216 == a,
        (be32(a, b, c, d) / 65536) % 256 == b,
        (be32(a, b, c, d) / 256) % 256 == c,
        be32(a, b, c, d) % 256 == d,
{
    let v = be32(a, b, c, d);
    assert(v == a * 16777216 + (b * 65536 + c * 256 + d));
    assert(0 <= b * 65536 + c * 256 + d < 16777216) by (nonlinear_arith)
        requires 0 <= b < 256, 0 <= c < 256, 0 <= d < 256;
    vstd::arithmetic::div_mod::lemma_fundamental_div_mod_converse(v, 16777216, a, b * 65536 + c * 256 + d);
    assert(v / 65536 == a * 256 + b) by {
        vstd::arithmetic::div_mod::lemma_fundamental_div_mod_converse(v, 65536, a * 256 + b, c * 256 + d);
    }
    vstd::arithmetic::div_mod::lemma_fundamental_div_mod_converse(a * 256 + b, 256, a, b);
    assert(v / 256 == a * 65536 + b * 256 + c) by {
        vstd::arithmetic::div_mod::lemma_fundamental_div_mod_converse(v, 256, a * 65536 + b * 256 + c, d);
    }
    vstd::arithmetic::div_mod::lemma_fundamental_div_mod_converse(a * 65536 + b * 256 + c, 256, a * 256 + b, c);
    vstd::arithmetic::div_mod::lemma_fundamental_div_mod_converse(v, 256, a * 65536 + b * 256 + c, d);
}

/// An IPv4 address, held as its big-endian 32-bit value.
#[derive(Clone, Copy, Debug, PartialEq, Eq, Structural, PartialOrd, Ord, Hash)]
pub struct Ipv4Addr {
    pub bits: u32,
}

impl Ipv4Addr {
    /// The octet of index `i` (0 is the most significant one).
    pub open spec fn octet(self, i: int) -> int {
        if i == 0 {
            self.bits as int / 16777216
        } else if i == 1 {
            (self.bits as int / 65536) % 256
        } else if i == 2 {
            (self.bits as int / 256) % 256
        } else {
            self.bits as int % 256
        }
    }

    pub fn new(a: u8, b: u8, c: u8, d: u8) -> (r: Self)
        ensures
            r.bits == be32(a as int, b as int, c as int, d as int),
            r.octet(0) == a,
            r.octet(1) == b,
            r.octet(2) == c,
            r.octet(3) == d,
    {
        proof {
            lemma_be32_octets(a as int, b as int, c as int, d as int);
        }
        Ipv4Addr {
            bits: (a as u32) * 16777216 + (b as u32) * 65536 + (c as u32) * 256 + (d as u32),
        }
    }

    pub fn from_bits(bits: u32) -> (r: Self)
        ensures
            r.bits == bits,
    {
        Ipv4Addr { bits }
    }

    pub fn to_bits(&self) -> (r: u32)
        ensures
            r == self.bits,
    {
        self.bits
    }

    pub fn octets(&self) -> (r: [u8; 4])
        ensures
            r@.len() == 4,
            forall|i: int| 0 <= i < 4 ==> r@[i] == self.octet(i),
            be32(r@[0] as int, r@[1] as int, r@[2] as int, r@[3] as int) == self.bits,
    {
        let b = self.bits;
        [(b / 16777216) as u8, ((b / 65536) % 256) as u8, ((b / 256) % 256) as u8, (b % 256) as u8]
    }

    pub open spec fn spec_is_private(self) -> bool {
        ||| self.octet(0) == 10
        ||| (self.octet(0) == 172 && 16 <= self.octet(1) <= 31)
        ||| (self.octet(0) == 192 && self.octet(1) == 168)
    }

    /// Private-use ranges: 10.0.0.0/8, 172.16.0.0/12 and 192.168.0.0/16.
    pub fn is_private(&self) -> (r: bool)
        ensures
            r == self.spec_is_private(),
    {
        let o0 = self.bits / 16777216;
        let o1 = (self.bits / 65536) % 256;
        o0 == 10 || (o0 == 172 && 16 <= o1 && o1 <= 31) || (o0 == 192 && o1 == 168)
    }

    pub open spec fn spec_is_loopback(self) -> bool {
        self.octet(0) == 127
    }

    /// 127.0.0.0/8.
    pub fn is_loopback(&self) -> (r: bool)
        ensures
            r == self.spec_is_loopback(),
    {
        self.bits / 16777216 == 127
    }
}

/// 2^112: the weight of the first 16-bit segment of an IPv6 address.
pub open spec fn seg0_weight() -> int {
    0x1_0000_0000_0000_0000_0000_0000_0000
}

/// An IPv6 address, held as its big-endian 128-bit value.
#[derive(Clone, Copy, Debug, PartialEq, Eq, Structural, PartialOrd, Ord, Hash)]
pub struct Ipv6Addr {
    pub bits: u128,
}

impl Ipv6Addr {
    /// The 16-bit segment of index `i` (0 is the most significant one).
    pub open spec fn segment(self, i: int) -> int {
        (self.bits as int / vstd::arithmetic::power2::pow2((16 * (7 - i)) as nat) as int) % 65536
    }

    /// The first segment, the one that every address class below looks at.
    pub open spec fn first_segment(self) -> int {
        self.bits as int / seg0_weight()
    }

    pub fn from_bits(bits: u128) -> (r: Self)
        ensures
            r.bits == bits,
    {
        Ipv6Addr { bits }
    }

    pub fn new(s0: u16, s1: u16, s2: u16, s3: u16, s4: u16, s5: u16, s6: u16, s7: u16) -> (r: Self)
        ensures
            r.bits == s0 * 0x1_0000_0000_0000_0000_0000_0000_0000 + s1 * 0x1_0000_0000_0000_0000_0000_0000
                + s2 * 0x1_0000_0000_0000_0000_0000 + s3 * 0x1_0000_0000_0000_0000 + s4
                * 0x1_0000_0000_0000 + s5 * 0x1_0000_0000 + s6 * 0x1_0000 + s7,
    {
        let b = (s0 as u128) * 0x1_0000_0000_0000_0000_0000_0000_0000 + (s1 as u128)
            * 0x1_0000_0000_0000_0000_0000_0000 + (s2 as u128) * 0x1_0000_0000_0000_0000_0000 + (
        s3 as u128) * 0x1_0000_0000_0000_0000 + (s4 as u128) * 0x1_0000_0000_0000 + (s5 as u128)
            * 0x1_0000_0000 + (s6 as u128) * 0x1_0000 + (s7 as u128);
        Ipv6Addr { bits: b }
    }

    pub open spec fn spec_is_unicast_link_local(self) -> bool {
        self.first_segment() / 64 == 0x3fa
    }

    /// fe80::/10.
    pub fn is_unicast_link_local(&self) -> (r: bool)
        ensures
            r == self.spec_is_unicast_link_local(),
    {
        (self.bits / 0x1_0000_0000_0000_0000_0000_0000_0000) / 64 == 0x3fa
    }

    pub open spec fn spec_is_unique_local(self) -> bool {
        self.first_segment() / 512 == 0x7e
    }

    /// fc00::/7.
    pub fn is_unique_local(&self) -> (r: bool)
        ensures
            r == self.spec_is_unique_local(),
    {
        (self.bits / 0x1_0000_0000_0000_0000_0000_0000_0000) / 512 == 0x7e
    }

    pub open spec fn spec_is_loopback(self) -> bool {
        self.bits == 1
    }

    /// ::1.
    pub fn is_loopback(&self) -> (r: bool)
        ensures
            r == self.spec_is_loopback(),
    {
        self.bits == 1
    }
}

/// An IPv4 or IPv6 address.
#[derive(Clone, Copy, Debug, PartialEq, Eq, Structural, PartialOrd, Ord, Hash)]
pub enum IpAddr {
    V4(Ipv4Addr),
    V6(Ipv6Addr),
}

/// The position of an address in the order of `IpAddr`: every IPv4 address
/// comes before every IPv6 address, and within a family addresses are ordered
/// by value.
pub open spec fn ip_rank(ip: IpAddr) -> int {
    match ip {
        IpAddr::V4(a) => a.bits as int,
        IpAddr::V6(a) => 0x1_0000_0000 + a.bits as int,
    }
}

impl IpAddr {
    pub fn is_ipv4(&self) -> (r: bool)
        ensures
            r == (*self is V4),
    {
        match self {
            IpAddr::V4(_) => true,
            IpAddr::V6(_) => false,
        }
    }

    pub fn is_ipv6(&self) -> (r: bool)
        ensures
            r == (*self is V6),
    {
        match self {
            IpAddr::V4(_) => false,
            IpAddr::V6(_) => true,
        }
    }

    /// `a < b` in the order of `IpAddr`.
    pub fn lt(&self, other: &IpAddr) -> (r: bool)
        ensures
            r == (ip_rank(*self) < ip_rank(*other)),
    {
        match (self, other) {
            (IpAddr::V4(a), IpAddr::V4(b)) => a.bits < b.bits,
            (IpAddr::V4(_), IpAddr::V6(_)) => true,
            (IpAddr::V6(_), IpAddr::V4(_)) => false,
            (IpAddr::V6(a), IpAddr::V6(b)) => a.bits < b.bits,
        }
    }
}

/// Two addresses of the same rank are the same address.
pub proof fn lemma_ip_rank_injective(a: IpAddr, b: IpAddr)
    ensures
        ip_rank(a) == ip_rank(b) <==> a == b,
{
}

/// A hardware (MAC) address.
#[derive(Clone, Copy, Debug, PartialEq, Eq, Structural, PartialOrd, Ord, Hash, Default)]
pub struct MacAddr(pub u8, pub u8, pub u8, pub u8, pub u8, pub u8);

impl MacAddr {
    pub open spec fn spec_bytes(self) -> Seq<u8> {
        seq![self.0, self.1, self.2, self.3, self.4, self.5]
    }

    pub fn new(a: u8, b: u8, c: u8, d: u8, e: u8, f: u8) -> (r: Self)
        ensures
            r == MacAddr(a, b, c, d, e, f),
    {
        MacAddr(a, b, c, d, e, f)
    }

    /// ff:ff:ff:ff:ff:ff.
    pub fn broadcast() -> (r: Self)
        ensures
            r == MacAddr(0xff, 0xff, 0xff, 0xff, 0xff, 0xff),
    {
        MacAddr(0xff, 0xff, 0xff, 0xff, 0xff, 0xff)
    }

    /// 00:00:00:00:00:00.
    pub fn zero() -> (r: Self)
        ensures
            r == MacAddr(0, 0, 0, 0, 0, 0),
    {
        MacAddr(0, 0, 0, 0, 0, 0)
    }

    pub fn octets(&self) -> (r: [u8; 6])
        ensures
            r@ == self.spec_bytes(),
    {
        let r = [self.0, self.1, self.2, self.3, self.4, self.5];
        assert(r@ =~= self.spec_bytes());
        r
    }
}


} // verus!
