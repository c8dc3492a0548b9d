//! What the scanning engine records of a host it heard from.

use vstd::prelude::*;
use crate::addr::{IpAddr, MacAddr};

verus! {

/// A station heard on the local network: its hardware address, the IP
/// addresses it answered from, and its name once known.
#[derive(Debug)]
pub struct EngineHost {
    pub mac: MacAddr,
    pub ips: Vec<IpAddr>,
    pub hostname: Option<String>,
}

fn contains_ip(ips: &Vec<IpAddr>, ip: IpAddr) -> (r: bool)
    ensures
        r == ips@.contains(ip),
{
    let mut i: usize = 0;
    while i < ips.len()
        invariant
            0 <= i <= ips@.len(),
            forall|j: int| 0 <= j < i ==> ips@[j] != ip,
        decreases ips@.len() - i,
    {
        if ips[i] == ip {
            return true;
        }
        i = i + 1;
    }
    false
}

/// The addresses with `ip` added at the end, unless it is there already.
pub open spec fn with_ip(ips: Seq<IpAddr>, ip: IpAddr) -> Seq<IpAddr> {
    if ips.contains(ip) {
        ips
    } else {
        ips.push(ip)
    }
}

/// Adding an address a second time changes nothing, and the address is
/// held afterwards.
pub proof fn lemma_with_ip_idempotent(ips: Seq<IpAddr>, ip: IpAddr)
    ensures
        with_ip(with_ip(ips, ip), ip) == with_ip(ips, ip),
        with_ip(ips, ip).contains(ip),
        forall|x: IpAddr| ips.contains(x) ==> with_ip(ips, ip).contains(x),
{
    if !ips.contains(ip) {
        assert(ips.push(ip)[ips.len() as int] == ip);
        assert forall|x: IpAddr| ips.contains(x) implies with_ip(ips, ip).contains(x) by {
            let k = choose|k: int| 0 <= k < ips.len() && ips[k] == x;
            assert(ips.push(ip)[k] == x);
        }
    }
}

impl EngineHost {
    pub fn new(mac: MacAddr, ip: IpAddr) -> (r: Self)
        ensures
            r.mac == mac,
            r.ips@ == seq![ip],
            r.hostname is None,
    {
        let mut ips: Vec<IpAddr> = Vec::new();
        ips.push(ip);
        EngineHost { mac, ips, hostname: None }
    }

    /// Adds an address the station answered from; one already known is
    /// kept once.
    pub fn add_ip(&mut self, ip: IpAddr)
        ensures
            final(self).ips@ == with_ip(old(self).ips@, ip),
            final(self).mac == old(self).mac,
            final(self).hostname == old(self).hostname,
    {
        if !contains_ip(&self.ips, ip) {
            self.ips.push(ip);
        }
    }

    pub fn set_hostname(&mut self, name: String)
        ensures
            final(self).hostname == Some(name),
            final(self).mac == old(self).mac,
            final(self).ips@ == old(self).ips@,
    {
        self.hostname = Some(name);
    }
}

} // verus!
