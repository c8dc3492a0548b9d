//! Classes of IP addresses, and the labels a report gives them.

use vstd::prelude::*;
use crate::addr::{seg0_weight, IpAddr, Ipv6Addr};

verus! {

/// The class of an IPv6 address.
#[derive(Clone, Copy, Debug, PartialEq, Eq, Structural)]
pub enum Ipv6AddressType {
    GlobalUnicast,
    UniqueLocal,
    LinkLocal,
    Loopback,
    Unspecified,
}

impl Default for Ipv6AddressType {
    fn default() -> (r: Self)
        ensures
            r == Ipv6AddressType::Unspecified,
    {
        Ipv6AddressType::Unspecified
    }
}

/// The first byte of an IPv6 address.
pub open spec fn first_byte(a: Ipv6Addr) -> int {
    a.first_segment() / 256
}

pub open spec fn spec_is_global_unicast(a: Ipv6Addr) -> bool {
    0x20 <= first_byte(a) <= 0x3f
}

/// 2000::/3: the first byte lies between 0x20 and 0x3f.
pub fn is_global_unicast(ipv6_addr: &Ipv6Addr) -> (r: bool)
    ensures
        r == spec_is_global_unicast(*ipv6_addr),
{
    let first_byte = (ipv6_addr.bits / 0x1_0000_0000_0000_0000_0000_0000_0000) / 256;
    0x3f >= first_byte && first_byte >= 0x20
}

/// The class of an address, the first that applies in the order global
/// unicast, unique local, link-local, loopback.
pub open spec fn spec_ipv6_type(a: Ipv6Addr) -> Ipv6AddressType {
    if spec_is_global_unicast(a) {
        Ipv6AddressType::GlobalUnicast
    } else if a.spec_is_unique_local() {
        Ipv6AddressType::UniqueLocal
    } else if a.spec_is_unicast_link_local() {
        Ipv6AddressType::LinkLocal
    } else if a.spec_is_loopback() {
        Ipv6AddressType::Loopback
    } else {
        Ipv6AddressType::Unspecified
    }
}

pub fn get_ipv6_type(ipv6_addr: &Ipv6Addr) -> (r: Ipv6AddressType)
    ensures
        r == spec_ipv6_type(*ipv6_addr),
{
    if is_global_unicast(ipv6_addr) {
        Ipv6AddressType::GlobalUnicast
    } else if ipv6_addr.is_unique_local() {
        Ipv6AddressType::UniqueLocal
    } else if ipv6_addr.is_unicast_link_local() {
        Ipv6AddressType::LinkLocal
    } else if ipv6_addr.is_loopback() {
        Ipv6AddressType::Loopback
    } else {
        Ipv6AddressType::Unspecified
    }
}

pub open spec fn spec_is_private(ip: IpAddr) -> bool {
    match ip {
        IpAddr::V4(a) => a.spec_is_private(),
        IpAddr::V6(a) => a.spec_is_unicast_link_local() || a.spec_is_unique_local(),
    }
}

/// A private IPv4 address, or a link-local or unique local IPv6 one.
pub fn is_private(ip_addr: IpAddr) -> (r: bool)
    ensures
        r == spec_is_private(ip_addr),
{
    match ip_addr {
        IpAddr::V4(ipv4) => ipv4.is_private(),
        IpAddr::V6(ipv6) => ipv6.is_unicast_link_local() || ipv6.is_unique_local(),
    }
}

/// The label a report puts before an address.
pub open spec fn spec_ip_label(ip: IpAddr) -> Seq<char> {
    match ip {
        IpAddr::V4(_) => "IPv4"@,
        IpAddr::V6(a) => match spec_ipv6_type(a) {
            Ipv6AddressType::GlobalUnicast => "GUA"@,
            Ipv6AddressType::UniqueLocal => "ULA"@,
            Ipv6AddressType::LinkLocal => "LLA"@,
            _ => "IPv6"@,
        },
    }
}

pub fn ip_label(ip: &IpAddr) -> (r: String)
    ensures
        r@ == spec_ip_label(*ip),
{
    match ip {
        IpAddr::V4(_) => String::from_str("IPv4"),
        IpAddr::V6(a) => match get_ipv6_type(a) {
            Ipv6AddressType::GlobalUnicast => String::from_str("GUA"),
            Ipv6AddressType::UniqueLocal => String::from_str("ULA"),
            Ipv6AddressType::LinkLocal => String::from_str("LLA"),
            _ => String::from_str("IPv6"),
        },
    }
}

/// How a report labels an address: "IPv4" for every IPv4 address; for an
/// IPv6 one "GUA" in 2000::/3, "ULA" in fc00::/7, "LLA" in fe80::/10, and
/// "IPv6" for the rest.
pub proof fn lemma_labels_by_prefix(ip: IpAddr)
    ensures
        ip is V4 ==> spec_ip_label(ip) == "IPv4"@,
        ip matches IpAddr::V6(a) && 0x2000 * seg0_weight() <= a.bits < 0x4000 * seg0_weight()
            ==> spec_ip_label(ip) == "GUA"@,
        ip matches IpAddr::V6(a) && 0xfc00 * seg0_weight() <= a.bits < 0xfe00 * seg0_weight()
            ==> spec_ip_label(ip) == "ULA"@,
        ip matches IpAddr::V6(a) && 0xfe80 * seg0_weight() <= a.bits < 0xfec0 * seg0_weight()
            ==> spec_ip_label(ip) == "LLA"@,
        ip matches IpAddr::V6(a) && !(0x2000 * seg0_weight() <= a.bits < 0x4000 * seg0_weight())
            && !(0xfc00 * seg0_weight() <= a.bits < 0xfe00 * seg0_weight()) && !(0xfe80 * seg0_weight()
            <= a.bits < 0xfec0 * seg0_weight()) ==> spec_ip_label(ip) == "IPv6"@,
{
    reveal_strlit("IPv4");
    reveal_strlit("GUA");
    reveal_strlit("ULA");
    reveal_strlit("LLA");
    reveal_strlit("IPv6");
    match ip {
        IpAddr::V4(_) => {},
        IpAddr::V6(a) => {
            let w = seg0_weight();
            assert(w == 0x1_0000_0000_0000_0000_0000_0000_0000);
            let f = a.first_segment();
            assert(0x2000 * w <= a.bits < 0x4000 * w <==> 0x2000 <= f < 0x4000);
            assert(0xfc00 * w <= a.bits < 0xfe00 * w <==> 0xfc00 <= f < 0xfe00);
            assert(0xfe80 * w <= a.bits < 0xfec0 * w <==> 0xfe80 <= f < 0xfec0);
        },
    }
}

/// Each class of IPv6 address has a label of its own: "GUA", "ULA" and
/// "LLA" are given exactly to the global unicast, unique local and
/// link-local addresses.
pub proof fn lemma_labels_by_class(a: Ipv6Addr)
    ensures
        spec_ip_label(IpAddr::V6(a)) == "GUA"@ <==> spec_ipv6_type(a) == Ipv6AddressType::GlobalUnicast,
        spec_ip_label(IpAddr::V6(a)) == "ULA"@ <==> spec_ipv6_type(a) == Ipv6AddressType::UniqueLocal,
        spec_ip_label(IpAddr::V6(a)) == "LLA"@ <==> spec_ipv6_type(a) == Ipv6AddressType::LinkLocal,
{
    reveal_strlit("GUA");
    reveal_strlit("ULA");
    reveal_strlit("LLA");
    reveal_strlit("IPv6");
    assert("GUA"@[0] != "ULA"@[0] && "GUA"@[0] != "LLA"@[0] && "ULA"@[0] != "LLA"@[0]);
    assert("IPv6"@.len() != "GUA"@.len());
}

/// Each address with its label, in the order given.
pub fn to_key_value_pair(ips: &Vec<IpAddr>) -> (r: Vec<(String, IpAddr)>)
    ensures
        r@.len() == ips@.len(),
        forall|i: int|
            0 <= i < ips@.len() ==> (#[trigger] r@[i]).0@ == spec_ip_label(ips@[i]) && r@[i].1
                == ips@[i],
{
    let mut out: Vec<(String, IpAddr)> = Vec::new();
    let mut i: usize = 0;
    while i < ips.len()
        invariant
            0 <= i <= ips@.len(),
            out@.len() == i,
            forall|j: int|
                0 <= j < i ==> (#[trigger] out@[j]).0@ == spec_ip_label(ips@[j]) && out@[j].1
                    == ips@[j],
        decreases ips@.len() - i,
    {
        let ip = ips[i];
        out.push((ip_label(&ip), ip));
        i = i + 1;
    }
    out
}

} // verus!
