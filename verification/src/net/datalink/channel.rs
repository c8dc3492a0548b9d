//! What a sender knows when it builds discovery packets.

use vstd::prelude::*;
use crate::addr::{Ipv4Addr, Ipv6Addr, MacAddr};
use crate::network::Ipv4Net;
use crate::net::range::Ipv4Range;

verus! {

/// The sender's own addresses and what it is asked to reach.
#[derive(Clone, Copy, Debug)]
pub struct SenderContext {
    pub src_mac: MacAddr,
    pub ipv4_net: Option<Ipv4Net>,
    pub dst_addr_v4: Option<Ipv4Addr>,
    pub ipv4_range: Option<Ipv4Range>,
    pub link_local: Option<Ipv6Addr>,
}

impl Default for SenderContext {
    fn default() -> (r: Self)
        ensures
            r.src_mac == MacAddr(0, 0, 0, 0, 0, 0),
            r.ipv4_net is None,
            r.dst_addr_v4 is None,
            r.ipv4_range is None,
            r.link_local is None,
    {
        SenderContext {
            src_mac: MacAddr(0, 0, 0, 0, 0, 0),
            ipv4_net: None,
            dst_addr_v4: None,
            ipv4_range: None,
            link_local: None,
        }
    }
}

} // verus!
