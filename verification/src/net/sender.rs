//! What the sender works with: its own addresses, taken from an interface,
//! and the set of targets it has been given.

use vstd::prelude::*;
use crate::addr::{IpAddr, Ipv4Addr, Ipv6Addr, MacAddr};
use crate::iface::Interface;
use crate::network::{IpNetwork, Ipv4Net, Ipv6Net};
use crate::net::range::{self, Ipv4Range};

verus! {

/// The IPv4 networks among `ips`, in order.
pub open spec fn v4_nets(ips: Seq<IpNetwork>) -> Seq<Ipv4Net>
    decreases ips.len(),
{
    if ips.len() == 0 {
        Seq::empty()
    } else {
        match ips.last() {
            IpNetwork::V4(n) => v4_nets(ips.drop_last()).push(n),
            IpNetwork::V6(_) => v4_nets(ips.drop_last()),
        }
    }
}

/// The IPv6 networks among `ips`, in order.
pub open spec fn v6_nets(ips: Seq<IpNetwork>) -> Seq<Ipv6Net>
    decreases ips.len(),
{
    if ips.len() == 0 {
        Seq::empty()
    } else {
        match ips.last() {
            IpNetwork::V6(n) => v6_nets(ips.drop_last()).push(n),
            IpNetwork::V4(_) => v6_nets(ips.drop_last()),
        }
    }
}

/// The first address among `nets` that is link-local.
pub open spec fn first_link_local_of(nets: Seq<Ipv6Net>) -> Option<Ipv6Addr>
    decreases nets.len(),
{
    if nets.len() == 0 {
        None
    } else if nets[0].spec_ip().spec_is_unicast_link_local() {
        Some(nets[0].spec_ip())
    } else {
        first_link_local_of(nets.drop_first())
    }
}

/// The sender's hardware address, its networks, and its targets, each
/// target held once.
#[derive(Debug)]
pub struct SenderConfig {
    local_mac: Option<MacAddr>,
    ipv4_nets: Vec<Ipv4Net>,
    ipv6_nets: Vec<Ipv6Net>,
    targets_v4: Vec<Ipv4Addr>,
    targets_v6: Vec<Ipv6Addr>,
}

impl SenderConfig {
    #[verifier::type_invariant]
    spec fn inv(self) -> bool {
        &&& self.targets_v4@.no_duplicates()
        &&& self.targets_v6@.no_duplicates()
    }

    pub closed spec fn spec_local_mac(self) -> Option<MacAddr> {
        self.local_mac
    }

    pub closed spec fn spec_ipv4_nets(self) -> Seq<Ipv4Net> {
        self.ipv4_nets@
    }

    pub closed spec fn spec_ipv6_nets(self) -> Seq<Ipv6Net> {
        self.ipv6_nets@
    }

    /// The targets, as a set of addresses.
    pub closed spec fn targets(self) -> Set<IpAddr> {
        Set::new(
            |a: IpAddr|
                match a {
                    IpAddr::V4(v4) => self.targets_v4@.contains(v4),
                    IpAddr::V6(v6) => self.targets_v6@.contains(v6),
                },
        )
    }

    /// The IPv4 targets in the order they were first added.
    pub closed spec fn spec_targets_v4(self) -> Seq<Ipv4Addr> {
        self.targets_v4@
    }

    /// A configuration with no address and no target.
    pub fn new() -> (r: Self)
        ensures
            r.spec_local_mac() is None,
            r.spec_ipv4_nets() == Seq::<Ipv4Net>::empty(),
            r.spec_ipv6_nets() == Seq::<Ipv6Net>::empty(),
            r.targets() == Set::<IpAddr>::empty(),
    {
        let r = SenderConfig {
            local_mac: None,
            ipv4_nets: Vec::new(),
            ipv6_nets: Vec::new(),
            targets_v4: Vec::new(),
            targets_v6: Vec::new(),
        };
        assert(r.targets() =~= Set::<IpAddr>::empty());
        r
    }

    /// The configuration of a sender on `interface`: its hardware address
    /// and its networks, with no target yet.
    pub fn from_interface(interface: &Interface) -> (r: Self)
        ensures
            r.spec_local_mac() == interface.mac,
            r.spec_ipv4_nets() == v4_nets(interface.ips@),
            r.spec_ipv6_nets() == v6_nets(interface.ips@),
            r.targets() == Set::<IpAddr>::empty(),
    {
        let mut v4: Vec<Ipv4Net> = Vec::new();
        let mut v6: Vec<Ipv6Net> = Vec::new();
        let n = interface.ips.len();
        let mut i: usize = 0;
        while i < n
            invariant
                n == interface.ips@.len(),
                0 <= i <= n,
                v4@ == v4_nets(interface.ips@.subrange(0, i as int)),
                v6@ == v6_nets(interface.ips@.subrange(0, i as int)),
            decreases n - i,
        {
            assert(interface.ips@.subrange(0, i + 1).drop_last() =~= interface.ips@.subrange(
                0,
                i as int,
            ));
            match interface.ips[i] {
                IpNetwork::V4(net) => v4.push(net),
                IpNetwork::V6(net) => v6.push(net),
            }
            i = i + 1;
        }
        assert(interface.ips@.subrange(0, n as int) =~= interface.ips@);
        let r = SenderConfig {
            local_mac: interface.mac,
            ipv4_nets: v4,
            ipv6_nets: v6,
            targets_v4: Vec::new(),
            targets_v6: Vec::new(),
        };
        assert(r.targets() =~= Set::<IpAddr>::empty());
        r
    }

    pub fn get_local_mac(&self) -> (r: Result<MacAddr, String>)
        ensures
            match self.spec_local_mac() {
                Some(m) => r == Ok::<MacAddr, String>(m),
                None => (r matches Err(e) && e@ == "local MAC not set"@),
            },
    {
        match self.local_mac {
            Some(m) => Ok(m),
            None => Err(String::from_str("local MAC not set")),
        }
    }

    /// The first IPv4 network.
    pub fn get_ipv4_net(&self) -> (r: Result<Ipv4Net, String>)
        ensures
            self.spec_ipv4_nets().len() == 0 ==> (r matches Err(e) && e@
                == "No IPv4 networks available in configuration"@),
            self.spec_ipv4_nets().len() > 0 ==> r == Ok::<Ipv4Net, String>(
                self.spec_ipv4_nets()[0],
            ),
    {
        if self.ipv4_nets.len() == 0 {
            return Err(String::from_str("No IPv4 networks available in configuration"));
        }
        Ok(self.ipv4_nets[0])
    }

    /// The whole block of the first IPv4 network.
    pub fn get_ipv4_range(&self) -> (r: Result<Ipv4Range, String>)
        ensures
            self.spec_ipv4_nets().len() == 0 ==> (r matches Err(e) && e@
                == "No IPv4 networks available in configuration"@),
            self.spec_ipv4_nets().len() > 0 ==> (r matches Ok(rg) && rg.start_addr.bits
                == self.spec_ipv4_nets()[0].spec_network() && rg.end_addr.bits
                == self.spec_ipv4_nets()[0].spec_broadcast()),
    {
        if self.ipv4_nets.len() == 0 {
            return Err(String::from_str("No IPv4 networks available in configuration"));
        }
        let net = self.ipv4_nets[0];
        match range::from_ipv4_net(Some(net)) {
            Some(rg) => Ok(rg),
            None => Err(String::from_str("No IPv4 networks available in configuration")),
        }
    }

    /// The first link-local address among the IPv6 networks.
    pub fn get_link_local(&self) -> (r: Result<Ipv6Addr, String>)
        ensures
            match first_link_local_of(self.spec_ipv6_nets()) {
                Some(a) => r == Ok::<Ipv6Addr, String>(a),
                None => (r matches Err(e) && e@ == "Failed to find a link local address"@),
            },
    {
        let n = self.ipv6_nets.len();
        let mut i: usize = 0;
        assert(self.ipv6_nets@.subrange(0, n as int) =~= self.ipv6_nets@);
        while i < n
            invariant
                n == self.ipv6_nets@.len(),
                0 <= i <= n,
                first_link_local_of(self.ipv6_nets@) == first_link_local_of(
                    self.ipv6_nets@.subrange(i as int, n as int),
                ),
            decreases n - i,
        {
            assert(self.ipv6_nets@.subrange(i as int, n as int).drop_first()
                =~= self.ipv6_nets@.subrange(i + 1, n as int));
            let ip = self.ipv6_nets[i].ip();
            if ip.is_unicast_link_local() {
                return Ok(ip);
            }
            i = i + 1;
        }
        Err(String::from_str("Failed to find a link local address"))
    }

    /// The IPv4 targets, in the order they were first added.
    pub fn get_targets_v4(&self) -> (r: Vec<Ipv4Addr>)
        ensures
            r@ == self.spec_targets_v4(),
            r@.no_duplicates(),
            forall|a: Ipv4Addr| r@.contains(a) <==> self.targets().contains(IpAddr::V4(a)),
    {
        proof {
            use_type_invariant(self);
        }
        let r = self.targets_v4.clone();
        assert(r@ =~= self.targets_v4@);
        r
    }

    /// Adds a target; one already held is kept once.
    pub fn add_target(&mut self, target_addr: IpAddr)
        ensures
            final(self).targets() == old(self).targets().insert(target_addr),
            final(self).spec_local_mac() == old(self).spec_local_mac(),
            final(self).spec_ipv4_nets() == old(self).spec_ipv4_nets(),
            final(self).spec_ipv6_nets() == old(self).spec_ipv6_nets(),
    {
        proof {
            use_type_invariant(&*self);
        }
        let ghost before = *self;
        match target_addr {
            IpAddr::V4(a) => {
                if !contains_v4(&self.targets_v4, a) {
                    let mut t: Vec<Ipv4Addr> = Vec::new();
                    std::mem::swap(&mut t, &mut self.targets_v4);
                    t.push(a);
                    proof {
                        assert forall|i: int, j: int|
                            0 <= i < j < t@.len() implies t@[i] != t@[j] by {
                            if j == t@.len() - 1 {
                                assert(before.targets_v4@.contains(t@[i]));
                            }
                        }
                    }
                    std::mem::swap(&mut t, &mut self.targets_v4);
                }
            },
            IpAddr::V6(a) => {
                if !contains_v6(&self.targets_v6, a) {
                    let mut t: Vec<Ipv6Addr> = Vec::new();
                    std::mem::swap(&mut t, &mut self.targets_v6);
                    t.push(a);
                    proof {
                        assert forall|i: int, j: int|
                            0 <= i < j < t@.len() implies t@[i] != t@[j] by {
                            if j == t@.len() - 1 {
                                assert(before.targets_v6@.contains(t@[i]));
                            }
                        }
                    }
                    std::mem::swap(&mut t, &mut self.targets_v6);
                }
            },
        }
        proof {
            assert forall|x: IpAddr| #[trigger]
                self.targets().contains(x) == before.targets().insert(target_addr).contains(x) by {
                match x {
                    IpAddr::V4(v) => {
                        if let IpAddr::V4(a) = target_addr {
                            lemma_push_contains(before.targets_v4@, a, v);
                        }
                    },
                    IpAddr::V6(v) => {
                        if let IpAddr::V6(a) = target_addr {
                            lemma_push_contains(before.targets_v6@, a, v);
                        }
                    },
                }
            }
        }
        assert(self.targets() =~= before.targets().insert(target_addr));
    }

    /// Adds each target in turn.
    pub fn add_targets(&mut self, targets: Vec<IpAddr>)
        ensures
            final(self).targets() == old(self).targets().union(targets@.to_set()),
            final(self).spec_local_mac() == old(self).spec_local_mac(),
            final(self).spec_ipv4_nets() == old(self).spec_ipv4_nets(),
            final(self).spec_ipv6_nets() == old(self).spec_ipv6_nets(),
    {
        let ghost start = *self;
        let mut i: usize = 0;
        while i < targets.len()
            invariant
                0 <= i <= targets@.len(),
                self.targets() == start.targets().union(targets@.subrange(0, i as int).to_set()),
                self.spec_local_mac() == start.spec_local_mac(),
                self.spec_ipv4_nets() == start.spec_ipv4_nets(),
                self.spec_ipv6_nets() == start.spec_ipv6_nets(),
            decreases targets@.len() - i,
        {
            self.add_target(targets[i]);
            proof {
                assert(targets@.subrange(0, i + 1).to_set() =~= targets@.subrange(
                    0,
                    i as int,
                ).to_set().insert(targets@[i as int])) by {
                    assert(targets@.subrange(0, i + 1) =~= targets@.subrange(0, i as int).push(
                        targets@[i as int],
                    ));
                    targets@.subrange(0, i as int).lemma_push_to_set_commute(targets@[i as int]);
                }
                assert(self.targets() =~= start.targets().union(
                    targets@.subrange(0, i + 1).to_set(),
                ));
            }
            i = i + 1;
        }
        assert(targets@.subrange(0, targets@.len() as int) =~= targets@);
    }

    /// Whether `target_addr` is one of the targets.
    pub fn has_addr(&self, target_addr: &IpAddr) -> (r: bool)
        ensures
            r == self.targets().contains(*target_addr),
    {
        match target_addr {
            IpAddr::V4(a) => contains_v4(&self.targets_v4, *a),
            IpAddr::V6(a) => contains_v6(&self.targets_v6, *a),
        }
    }
}

impl Clone for SenderConfig {
    fn clone(&self) -> (r: Self)
        ensures
            r.spec_local_mac() == self.spec_local_mac(),
            r.spec_ipv4_nets() == self.spec_ipv4_nets(),
            r.spec_ipv6_nets() == self.spec_ipv6_nets(),
            r.spec_targets_v4() == self.spec_targets_v4(),
            r.targets() == self.targets(),
    {
        proof {
            use_type_invariant(self);
        }
        let ipv4_nets = self.ipv4_nets.clone();
        let ipv6_nets = self.ipv6_nets.clone();
        let targets_v4 = self.targets_v4.clone();
        let targets_v6 = self.targets_v6.clone();
        assert(ipv4_nets@ =~= self.ipv4_nets@);
        assert(ipv6_nets@ =~= self.ipv6_nets@);
        assert(targets_v4@ =~= self.targets_v4@);
        assert(targets_v6@ =~= self.targets_v6@);
        let r = SenderConfig { local_mac: self.local_mac, ipv4_nets, ipv6_nets, targets_v4, targets_v6 };
        assert(r.targets() =~= self.targets());
        r
    }
}

/// An element is in `s` with `a` pushed exactly when it is `a` or in `s`.
pub proof fn lemma_push_contains<T>(s: Seq<T>, a: T, x: T)
    ensures
        s.push(a).contains(x) <==> (s.contains(x) || x == a),
{
    if x == a {
        assert(s.push(a)[s.len() as int] == a);
    }
    if s.contains(x) {
        let k = choose|k: int| 0 <= k < s.len() && s[k] == x;
        assert(s.push(a)[k] == x);
    }
    if s.push(a).contains(x) {
        let k = choose|k: int| 0 <= k < s.push(a).len() && s.push(a)[k] == x;
        if k < s.len() {
            assert(s[k] == x);
        }
    }
}

impl Default for SenderConfig {
    fn default() -> (r: Self)
        ensures
            r.spec_local_mac() is None,
            r.spec_ipv4_nets() == Seq::<Ipv4Net>::empty(),
            r.spec_ipv6_nets() == Seq::<Ipv6Net>::empty(),
            r.targets() == Set::<IpAddr>::empty(),
    {
        SenderConfig::new()
    }
}

fn contains_v4(v: &Vec<Ipv4Addr>, a: Ipv4Addr) -> (r: bool)
    ensures
        r == v@.contains(a),
{
    let mut i: usize = 0;
    while i < v.len()
        invariant
            0 <= i <= v@.len(),
            forall|j: int| 0 <= j < i ==> v@[j] != a,
        decreases v@.len() - i,
    {
        if v[i].bits == a.bits {
            assert(v@[i as int] == a);
            return true;
        }
        i = i + 1;
    }
    false
}

fn contains_v6(v: &Vec<Ipv6Addr>, a: Ipv6Addr) -> (r: bool)
    ensures
        r == v@.contains(a),
{
    let mut i: usize = 0;
    while i < v.len()
        invariant
            0 <= i <= v@.len(),
            forall|j: int| 0 <= j < i ==> v@[j] != a,
        decreases v@.len() - i,
    {
        if v[i].bits == a.bits {
            assert(v@[i as int] == a);
            return true;
        }
        i = i + 1;
    }
    false
}

} // verus!
