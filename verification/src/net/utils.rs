//! Frame and header sizes, and the source of the random values that some
//! headers carry.

use vstd::prelude::*;
use crate::addr::{IpAddr, Ipv4Addr};

verus! {

/// Length of the smallest Ethernet frame, frame check sequence left out.
pub const MIN_ETH_FRAME_NO_FCS: usize = 60;

/// Length of an ARP message for IPv4 over Ethernet.
pub const ARP_LEN: usize = 28;

/// Length of an Ethernet header.
pub const ETH_HDR_LEN: usize = 14;

/// Length of an IPv4 header without options.
pub const IP_V4_HDR_LEN: usize = 20;

/// Length of an IPv6 header.
pub const IP_V6_HDR_LEN: usize = 40;

/// Length of an ICMPv6 echo request without data.
pub const ICMP_V6_ECHO_REQ_LEN: usize = 8;

/// The IPv4 address inside `ip_addr`; an error for an IPv6 address.
pub fn ip_addr_to_ipv4_addr(ip_addr: IpAddr) -> (r: Result<Ipv4Addr, String>)
    ensures
        match ip_addr {
            IpAddr::V4(a) => r == Ok::<Ipv4Addr, String>(a),
            IpAddr::V6(_) => (r matches Err(e) && e@ == "passed value is not a ipv4!"@),
        },
{
    match ip_addr {
        IpAddr::V4(v4) => Ok(v4),
        _ => {
            let e = String::from_str("passed value is not a ipv4!");
            Err(e)
        },
    }
}

/// A random 32-bit value, drawn with `rand::random`.
///
/// Nothing is stated of the value: it comes from the thread's random
/// number generator.
#[verifier::external_body]
pub(crate) fn random_u32() -> (r: u32) {
    rand::random::<u32>()
}

} // verus!
