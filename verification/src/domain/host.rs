//! Hosts found by a scan: those on the local network, known by their
//! hardware address, and those beyond it, known by their IP addresses.

use vstd::prelude::*;
use crate::addr::{ip_rank, IpAddr, MacAddr};
use crate::domain::system::{ascending, insert_sorted};

verus! {

/// A role a host plays on the local network.
#[allow(non_camel_case_types)]
#[derive(Clone, Copy, Debug, PartialEq, Eq, Structural, Hash)]
pub enum NetworkRole {
    _Gateway,
    _DHCP,
    _DNS,
}

/// The least address of a non-empty `ips` in the order of `IpAddr` (every
/// IPv4 address before every IPv6 address).
pub open spec fn least_ip(ips: Seq<IpAddr>) -> IpAddr
    decreases ips.len(),
{
    if ips.len() <= 1 {
        ips[0]
    } else {
        let m = least_ip(ips.drop_last());
        if ip_rank(ips.last()) < ip_rank(m) {
            ips.last()
        } else {
            m
        }
    }
}

/// The primary address: the least IPv4 address, or else the least IPv6
/// address, that is the least address of all; none for no address.
pub open spec fn spec_primary_ip(ips: Seq<IpAddr>) -> Option<IpAddr> {
    if ips.len() == 0 {
        None
    } else {
        Some(least_ip(ips))
    }
}

/// The least address is one of the addresses and lies at or below each of
/// them; an IPv4 address is chosen whenever there is one.
pub proof fn lemma_least_ip(ips: Seq<IpAddr>)
    requires
        ips.len() > 0,
    ensures
        ips.contains(least_ip(ips)),
        forall|i: int| 0 <= i < ips.len() ==> ip_rank(least_ip(ips)) <= ip_rank(#[trigger] ips[i]),
        (exists|i: int| 0 <= i < ips.len() && #[trigger] ips[i] is V4) ==> least_ip(ips) is V4,
    decreases ips.len(),
{
    if ips.len() > 1 {
        let init = ips.drop_last();
        lemma_least_ip(init);
        assert forall|i: int| 0 <= i < ips.len() implies ip_rank(least_ip(ips)) <= ip_rank(#[trigger] ips[i]) by {
            if i < ips.len() - 1 {
                assert(ips[i] == init[i]);
            }
        }
        if ip_rank(ips.last()) < ip_rank(least_ip(init)) {
            assert(ips[ips.len() - 1] == ips.last());
        } else {
            let k = choose|k: int| 0 <= k < init.len() && init[k] == least_ip(init);
            assert(ips[k] == init[k]);
        }
        if exists|i: int| 0 <= i < ips.len() && #[trigger] ips[i] is V4 {
            let i = choose|i: int| 0 <= i < ips.len() && #[trigger] ips[i] is V4;
            assert(ip_rank(least_ip(ips)) <= ip_rank(ips[i]));
        }
    } else {
        assert(ips[0] == least_ip(ips));
        if exists|i: int| 0 <= i < ips.len() && #[trigger] ips[i] is V4 {
            let i = choose|i: int| 0 <= i < ips.len() && #[trigger] ips[i] is V4;
            assert(i == 0);
        }
    }
}

/// In an ascending list the least address is the first one.
pub proof fn lemma_least_ip_ascending(ips: Seq<IpAddr>)
    requires
        ips.len() > 0,
        ascending(ips),
    ensures
        least_ip(ips) == ips[0],
{
    lemma_least_ip(ips);
    let k = choose|k: int| 0 <= k < ips.len() && ips[k] == least_ip(ips);
    if k > 0 {
        assert(ip_rank(ips[0]) < ip_rank(ips[k]));
        assert(ip_rank(least_ip(ips)) <= ip_rank(ips[0]));
    }
}

fn find_primary_ip(ips: &Vec<IpAddr>) -> (r: Option<IpAddr>)
    ensures
        r == spec_primary_ip(ips@),
{
    let n = ips.len();
    if n == 0 {
        return None;
    }
    let mut best = ips[0];
    let mut i: usize = 1;
    while i < n
        invariant
            n == ips@.len(),
            1 <= i <= n,
            best == least_ip(ips@.take(i as int)),
        decreases n - i,
    {
        assert(ips@.take(i + 1).drop_last() =~= ips@.take(i as int));
        if ips[i].lt(&best) {
            best = ips[i];
        }
        i = i + 1;
    }
    assert(ips@.take(n as int) =~= ips@);
    Some(best)
}

/// A host on the local network.
#[derive(Debug)]
pub struct InternalHost {
    pub hostname: String,
    pub ips: Vec<IpAddr>,
    pub _ports: Vec<u16>,
    pub mac_addr: MacAddr,
    pub vendor: Option<String>,
    pub network_roles: Vec<NetworkRole>,
}

/// A host beyond the local network.
#[derive(Debug)]
pub struct ExternalHost {
    pub hostname: String,
    pub ips: Vec<IpAddr>,
    pub _ports: Vec<u16>,
}

impl InternalHost {
    /// The addresses are in ascending order, each once, as in an ordered
    /// set.
    pub open spec fn well_formed(self) -> bool {
        ascending(self.ips@)
    }

    /// A host known only by its hardware address.
    pub fn from_mac(mac_addr: MacAddr) -> (r: Self)
        ensures
            r.hostname@ == "No hostname"@,
            r.ips@ == Seq::<IpAddr>::empty(),
            r._ports@ == Seq::<u16>::empty(),
            r.mac_addr == mac_addr,
            r.vendor is None,
            r.network_roles@ == Seq::<NetworkRole>::empty(),
            r.well_formed(),
    {
        InternalHost {
            hostname: String::from_str("No hostname"),
            ips: Vec::new(),
            _ports: Vec::new(),
            mac_addr,
            vendor: None,
            network_roles: Vec::new(),
        }
    }

    /// Adds an address, keeping the addresses in ascending order, each
    /// once.
    pub fn add_ip(&mut self, ip: IpAddr)
        requires
            ascending(old(self).ips@),
        ensures
            ascending(final(self).ips@),
            forall|x: IpAddr| final(self).ips@.contains(x) <==> (old(self).ips@.contains(x) || x == ip),
            final(self).hostname == old(self).hostname,
            final(self).mac_addr == old(self).mac_addr,
            final(self).vendor == old(self).vendor,
    {
        insert_sorted(&mut self.ips, ip);
    }
}

impl ExternalHost {
    /// The addresses are in ascending order, each once, as in an ordered
    /// set.
    pub open spec fn well_formed(self) -> bool {
        ascending(self.ips@)
    }

    /// A host known by one address.
    pub fn from_ip(ip: IpAddr) -> (r: Self)
        ensures
            r.hostname@ == "No hostname"@,
            r.ips@ == seq![ip],
            r._ports@ == Seq::<u16>::empty(),
            r.well_formed(),
    {
        let mut ips: Vec<IpAddr> = Vec::new();
        ips.push(ip);
        ExternalHost { hostname: String::from_str("No hostname"), ips, _ports: Vec::new() }
    }
}

/// What the report needs of any host.
pub trait Host {
    fn get_primary_ip(&self) -> Option<IpAddr>;

    fn set_hostname(&mut self, name: String);

    fn set_vendor(&mut self, _vendor: String) {
    }

    /// The hardware address; a host that does not know it has none.
    fn mac_addr(&self) -> (r: Option<MacAddr>)
        default_ensures
            r is None,
    {
        None
    }

    /// The vendor; a host that does not know it has none.
    fn vendor(&self) -> (r: Option<&str>)
        default_ensures
            r is None,
    {
        None
    }

    /// The network roles; a host that does not know them has none.
    fn roles(&self) -> (r: Option<&Vec<NetworkRole>>)
        default_ensures
            r is None,
    {
        None
    }

    fn hostname(&self) -> &str;

    fn ips(&self) -> &Vec<IpAddr>;
}

impl Host for InternalHost {
    fn get_primary_ip(&self) -> (r: Option<IpAddr>)
        ensures
            r == spec_primary_ip(self.ips@),
    {
        find_primary_ip(&self.ips)
    }

    fn set_hostname(&mut self, name: String)
        ensures
            final(self).hostname == name,
            final(self).ips@ == old(self).ips@,
            final(self).mac_addr == old(self).mac_addr,
            final(self).vendor == old(self).vendor,
    {
        self.hostname = name;
    }

    fn set_vendor(&mut self, vendor: String)
        ensures
            final(self).vendor == Some(vendor),
            final(self).hostname == old(self).hostname,
            final(self).ips@ == old(self).ips@,
            final(self).mac_addr == old(self).mac_addr,
    {
        self.vendor = Some(vendor);
    }

    fn mac_addr(&self) -> (r: Option<MacAddr>)
        ensures
            r == Some(self.mac_addr),
    {
        Some(self.mac_addr)
    }

    fn vendor(&self) -> (r: Option<&str>)
        ensures
            match self.vendor {
                Some(v) => r matches Some(s) && s@ == v@,
                None => r is None,
            },
    {
        match &self.vendor {
            Some(v) => Some(v.as_str()),
            None => None,
        }
    }

    fn roles(&self) -> (r: Option<&Vec<NetworkRole>>)
        ensures
            r matches Some(v) && v@ == self.network_roles@,
    {
        Some(&self.network_roles)
    }

    fn hostname(&self) -> (r: &str)
        ensures
            r@ == self.hostname@,
    {
        self.hostname.as_str()
    }

    fn ips(&self) -> (r: &Vec<IpAddr>)
        ensures
            r@ == self.ips@,
    {
        &self.ips
    }
}

impl Host for ExternalHost {
    fn get_primary_ip(&self) -> (r: Option<IpAddr>)
        ensures
            r == spec_primary_ip(self.ips@),
    {
        find_primary_ip(&self.ips)
    }

    fn set_hostname(&mut self, name: String)
        ensures
            final(self).hostname == name,
            final(self).ips@ == old(self).ips@,
    {
        self.hostname = name;
    }

    fn hostname(&self) -> (r: &str)
        ensures
            r@ == self.hostname@,
    {
        self.hostname.as_str()
    }

    fn ips(&self) -> (r: &Vec<IpAddr>)
        ensures
            r@ == self.ips@,
    {
        &self.ips
    }
}

} // verus!
