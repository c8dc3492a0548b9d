//! What a discovery is asked to cover.

use vstd::prelude::*;
use crate::addr::IpAddr;
use crate::domain::range::Ipv4Range;

verus! {

/// The target of a discovery: the local network, one host, a range of
/// IPv4 addresses, or the VPN.
#[derive(Clone, Copy, Debug)]
pub enum Target {
    LAN,
    Host { target_addr: IpAddr },
    Range { ipv4_range: Ipv4Range },
    VPN,
}

} // verus!
