//! Choosing interfaces for the scanning engine: the networks an interface
//! carries, the order in which interfaces are listed, and the pick of the
//! LAN interface.
//!
//! Whether an interface is a physical device, and whether it is wireless,
//! is read from the operating system by the caller and handed in as one
//! flag per interface.

use vstd::prelude::*;
use crate::addr::{Ipv4Addr, Ipv6Addr};
use crate::iface::Interface;
use crate::network::{IpNetwork, Ipv4Net};
use crate::text::{contains_str, spec_contains_str};

verus! {

/// The first IPv4 network in `ips`.
pub open spec fn first_v4(ips: Seq<IpNetwork>) -> Option<Ipv4Net>
    decreases ips.len(),
{
    if ips.len() == 0 {
        None
    } else {
        match ips[0] {
            IpNetwork::V4(n) => Some(n),
            IpNetwork::V6(_) => first_v4(ips.drop_first()),
        }
    }
}

/// The address of the first IPv6 network in `ips` whose address is
/// link-local.
pub open spec fn first_link_local(ips: Seq<IpNetwork>) -> Option<Ipv6Addr>
    decreases ips.len(),
{
    if ips.len() == 0 {
        None
    } else {
        match ips[0] {
            IpNetwork::V6(n) if n.spec_ip().spec_is_unicast_link_local() => Some(n.spec_ip()),
            _ => first_link_local(ips.drop_first()),
        }
    }
}

impl Interface {
    /// The first IPv4 network of the interface.
    pub fn get_ipv4_net(&self) -> (r: Option<Ipv4Net>)
        ensures
            r == first_v4(self.ips@),
    {
        let n = self.ips.len();
        let mut i: usize = 0;
        assert(self.ips@.subrange(0, n as int) =~= self.ips@);
        while i < n
            invariant
                n == self.ips@.len(),
                0 <= i <= n,
                first_v4(self.ips@) == first_v4(self.ips@.subrange(i as int, n as int)),
            decreases n - i,
        {
            assert(self.ips@.subrange(i as int, n as int).drop_first() =~= self.ips@.subrange(
                i + 1,
                n as int,
            ));
            match self.ips[i] {
                IpNetwork::V4(net) => {
                    return Some(net);
                },
                IpNetwork::V6(_) => {},
            }
            i = i + 1;
        }
        None
    }

    /// The first link-local address among the interface's IPv6 networks.
    pub fn get_link_local_addr(&self) -> (r: Option<Ipv6Addr>)
        ensures
            r == first_link_local(self.ips@),
    {
        let n = self.ips.len();
        let mut i: usize = 0;
        assert(self.ips@.subrange(0, n as int) =~= self.ips@);
        while i < n
            invariant
                n == self.ips@.len(),
                0 <= i <= n,
                first_link_local(self.ips@) == first_link_local(
                    self.ips@.subrange(i as int, n as int),
                ),
            decreases n - i,
        {
            assert(self.ips@.subrange(i as int, n as int).drop_first() =~= self.ips@.subrange(
                i + 1,
                n as int,
            ));
            match self.ips[i] {
                IpNetwork::V6(net) => {
                    let ip = net.ip();
                    if ip.is_unicast_link_local() {
                        return Some(ip);
                    }
                },
                IpNetwork::V4(_) => {},
            }
            i = i + 1;
        }
        None
    }
}

/// Names that mark a tunnel interface.
pub open spec fn tunnel_names() -> Seq<Seq<char>> {
    seq!["tun"@, "tap"@, "gre"@, "ipip"@, "sit"@, "vti"@]
}

pub open spec fn spec_is_tunnel(i: Interface, physical: bool) -> bool {
    !physical && !i.spec_is_loopback() && exists|k: int|
        0 <= k < 6 && #[trigger] spec_contains_str(i.name@, tunnel_names()[k])
}

pub open spec fn spec_is_bridge(i: Interface, physical: bool) -> bool {
    !physical && !i.spec_is_loopback() && !spec_is_tunnel(i, physical)
}

/// A physical device that is not wireless.
pub fn is_wired(physical: bool, wireless: bool) -> (r: bool)
    ensures
        r == (physical && !wireless),
{
    physical && !wireless
}

/// A virtual, non-loopback interface whose name holds one of the tunnel
/// names.
pub fn is_tunnel(interface: &Interface, physical: bool) -> (r: bool)
    ensures
        r == spec_is_tunnel(*interface, physical),
{
    if physical || interface.is_loopback() {
        return false;
    }
    let name = interface.name.as_str();
    let found = contains_str(name, "tun") || contains_str(name, "tap") || contains_str(name, "gre")
        || contains_str(name, "ipip") || contains_str(name, "sit") || contains_str(name, "vti");
    proof {
        if found {
            if spec_contains_str(name@, "tun"@) {
                assert(spec_contains_str(interface.name@, tunnel_names()[0]));
            } else if spec_contains_str(name@, "tap"@) {
                assert(spec_contains_str(interface.name@, tunnel_names()[1]));
            } else if spec_contains_str(name@, "gre"@) {
                assert(spec_contains_str(interface.name@, tunnel_names()[2]));
            } else if spec_contains_str(name@, "ipip"@) {
                assert(spec_contains_str(interface.name@, tunnel_names()[3]));
            } else if spec_contains_str(name@, "sit"@) {
                assert(spec_contains_str(interface.name@, tunnel_names()[4]));
            } else {
                assert(spec_contains_str(interface.name@, tunnel_names()[5]));
            }
        } else {
            assert forall|k: int| 0 <= k < 6 implies !spec_contains_str(
                interface.name@,
                #[trigger] tunnel_names()[k],
            ) by {
                if k == 0 {
                    assert(tunnel_names()[0] == "tun"@);
                } else if k == 1 {
                    assert(tunnel_names()[1] == "tap"@);
                } else if k == 2 {
                    assert(tunnel_names()[2] == "gre"@);
                } else if k == 3 {
                    assert(tunnel_names()[3] == "ipip"@);
                } else if k == 4 {
                    assert(tunnel_names()[4] == "sit"@);
                } else {
                    assert(tunnel_names()[5] == "vti"@);
                }
            }
        }
    }
    found
}

/// A virtual, non-loopback interface that is not a tunnel.
pub fn is_bridge(interface: &Interface, physical: bool) -> (r: bool)
    ensures
        r == spec_is_bridge(*interface, physical),
{
    !physical && !interface.is_loopback() && !is_tunnel(interface, physical)
}

/// The indices at which `flags` holds, in order.
pub open spec fn indices_of(flags: Seq<bool>) -> Seq<int>
    decreases flags.len(),
{
    if flags.len() == 0 {
        Seq::empty()
    } else if flags.last() {
        indices_of(flags.drop_last()).push(flags.len() - 1)
    } else {
        indices_of(flags.drop_last())
    }
}

pub proof fn lemma_indices_of_bounds(flags: Seq<bool>)
    ensures
        forall|k: int|
            0 <= k < indices_of(flags).len() ==> 0 <= #[trigger] indices_of(flags)[k] < flags.len(),
    decreases flags.len(),
{
    if flags.len() > 0 {
        lemma_indices_of_bounds(flags.drop_last());
        let p = indices_of(flags.drop_last());
        assert forall|k: int| 0 <= k < indices_of(flags).len() implies 0 <= #[trigger] indices_of(
            flags,
        )[k] < flags.len() by {
            if k < p.len() {
                assert(indices_of(flags)[k] == p[k]);
            }
        }
    }
}

/// The interfaces in the order of the listing: loopbacks, wired devices,
/// wireless devices, tunnels, then bridges. An interface that falls in
/// more than one class is listed once per class.
pub open spec fn listing_order(ifs: Seq<Interface>, physical: Seq<bool>, wireless: Seq<bool>) -> Seq<
    int,
> {
    let n = ifs.len();
    indices_of(Seq::new(n, |i: int| ifs[i].spec_is_loopback())) + indices_of(
        Seq::new(n, |i: int| physical[i] && !wireless[i]),
    ) + indices_of(Seq::new(n, |i: int| wireless[i])) + indices_of(
        Seq::new(n, |i: int| spec_is_tunnel(ifs[i], physical[i])),
    ) + indices_of(Seq::new(n, |i: int| spec_is_bridge(ifs[i], physical[i])))
}

/// The elements of `s` as integers.
pub open spec fn ints(s: Seq<usize>) -> Seq<int> {
    s.map_values(|x: usize| x as int)
}

/// Appends the indices at which `flags` holds to `order`.
fn push_indices(order: &mut Vec<usize>, flags: &Vec<bool>)
    ensures
        ints(final(order)@) == ints(old(order)@) + indices_of(flags@),
{
    let n = flags.len();
    let ghost start = ints(order@);
    let mut i: usize = 0;
    assert(indices_of(flags@.subrange(0, 0)) =~= Seq::<int>::empty());
    assert(ints(order@) =~= start + indices_of(flags@.subrange(0, 0)));
    while i < n
        invariant
            n == flags@.len(),
            0 <= i <= n,
            ints(order@) == start + indices_of(flags@.subrange(0, i as int)),
        decreases n - i,
    {
        assert(flags@.subrange(0, i + 1).drop_last() =~= flags@.subrange(0, i as int));
        let ghost before = order@;
        if flags[i] {
            order.push(i);
            assert(ints(order@) =~= ints(before).push(i as int));
        }
        i = i + 1;
        assert(ints(order@) =~= start + indices_of(flags@.subrange(0, i as int)));
    }
    assert(flags@.subrange(0, n as int) =~= flags@);
}

/// Lists up to `max` interfaces in the order of `listing_order`;
/// `physical[i]` and `wireless[i]` describe `interfaces[i]`.
pub fn get_prioritized_interfaces(
    interfaces: &Vec<Interface>,
    physical: &Vec<bool>,
    wireless: &Vec<bool>,
    max: usize,
) -> (r: Vec<Interface>)
    requires
        physical@.len() == interfaces@.len(),
        wireless@.len() == interfaces@.len(),
    ensures
        ({
            let order = listing_order(interfaces@, physical@, wireless@);
            &&& r@.len() == (if order.len() < max {
                order.len()
            } else {
                max as nat
            })
            &&& forall|k: int| 0 <= k < r@.len() ==> (#[trigger] r@[k]).same_as(interfaces@[order[k]])
        }),
{
    let n = interfaces.len();
    let ghost ifs = interfaces@;
    let mut loopback: Vec<bool> = Vec::new();
    let mut wired: Vec<bool> = Vec::new();
    let mut wl: Vec<bool> = Vec::new();
    let mut tunnel: Vec<bool> = Vec::new();
    let mut bridge: Vec<bool> = Vec::new();
    let mut i: usize = 0;
    while i < n
        invariant
            n == ifs.len(),
            ifs == interfaces@,
            physical@.len() == n,
            wireless@.len() == n,
            0 <= i <= n,
            loopback@ == Seq::new(i as nat, |j: int| ifs[j].spec_is_loopback()),
            wired@ == Seq::new(i as nat, |j: int| physical@[j] && !wireless@[j]),
            wl@ == Seq::new(i as nat, |j: int| wireless@[j]),
            tunnel@ == Seq::new(i as nat, |j: int| spec_is_tunnel(ifs[j], physical@[j])),
            bridge@ == Seq::new(i as nat, |j: int| spec_is_bridge(ifs[j], physical@[j])),
        decreases n - i,
    {
        let intf = &interfaces[i];
        loopback.push(intf.is_loopback());
        wired.push(is_wired(physical[i], wireless[i]));
        wl.push(wireless[i]);
        tunnel.push(is_tunnel(intf, physical[i]));
        bridge.push(is_bridge(intf, physical[i]));
        i = i + 1;
        assert(loopback@ =~= Seq::new(i as nat, |j: int| ifs[j].spec_is_loopback()));
        assert(wired@ =~= Seq::new(i as nat, |j: int| physical@[j] && !wireless@[j]));
        assert(wl@ =~= Seq::new(i as nat, |j: int| wireless@[j]));
        assert(tunnel@ =~= Seq::new(i as nat, |j: int| spec_is_tunnel(ifs[j], physical@[j])));
        assert(bridge@ =~= Seq::new(i as nat, |j: int| spec_is_bridge(ifs[j], physical@[j])));
    }
    let mut order: Vec<usize> = Vec::new();
    assert(ints(order@) =~= Seq::<int>::empty());
    push_indices(&mut order, &loopback);
    push_indices(&mut order, &wired);
    push_indices(&mut order, &wl);
    push_indices(&mut order, &tunnel);
    push_indices(&mut order, &bridge);
    let ghost spec_order = listing_order(ifs, physical@, wireless@);
    proof {
        lemma_indices_of_bounds(loopback@);
        lemma_indices_of_bounds(wired@);
        lemma_indices_of_bounds(wl@);
        lemma_indices_of_bounds(tunnel@);
        lemma_indices_of_bounds(bridge@);
        assert(ints(order@) =~= spec_order);
        assert forall|k: int| 0 <= k < order@.len() implies #[trigger] order@[k] == spec_order[k] by {
            assert(ints(order@)[k] == order@[k] as int);
        }
        assert forall|k: int| 0 <= k < order@.len() implies #[trigger] order@[k] < n by {
            assert(ints(order@)[k] == order@[k] as int);
            let a = indices_of(loopback@);
            let b = indices_of(wired@);
            let c = indices_of(wl@);
            let d = indices_of(tunnel@);
            if k < a.len() {
                assert(spec_order[k] == a[k]);
            } else if k < a.len() + b.len() {
                assert(spec_order[k] == b[k - a.len()]);
            } else if k < a.len() + b.len() + c.len() {
                assert(spec_order[k] == c[k - a.len() - b.len()]);
            } else if k < a.len() + b.len() + c.len() + d.len() {
                assert(spec_order[k] == d[k - a.len() - b.len() - c.len()]);
            } else {
                assert(spec_order[k] == indices_of(bridge@)[k - a.len() - b.len() - c.len() - d.len()]);
            }
        }
    }
    let mut result: Vec<Interface> = Vec::new();
    let mut k: usize = 0;
    while k < order.len() && k < max
        invariant
            order@.len() == spec_order.len(),
            forall|j: int| 0 <= j < order@.len() ==> #[trigger] order@[j] == spec_order[j],
            forall|j: int| 0 <= j < order@.len() ==> #[trigger] order@[j] < n,
            n == interfaces@.len(),
            0 <= k <= order@.len(),
            k <= max,
            result@.len() == k,
            forall|j: int| 0 <= j < k ==> (#[trigger] result@[j]).same_as(interfaces@[spec_order[j]]),
        decreases order@.len() - k,
    {
        let idx = order[k];
        assert(idx == spec_order[k as int]);
        let c = interfaces[idx].duplicate();
        assert(c.same_as(interfaces@[idx as int]));
        result.push(c);
        assert(result@[k as int].same_as(interfaces@[spec_order[k as int]]));
        k = k + 1;
    }
    result
}

/// Whether the interface may carry LAN discovery in the engine: up, a
/// physical device with a hardware address, able to broadcast, not a
/// point-to-point link, and with an IPv4 network or a link-local IPv6 one.
pub open spec fn engine_candidate(i: Interface, physical: bool) -> bool {
    &&& i.spec_is_up()
    &&& physical
    &&& i.mac is Some
    &&& i.spec_is_broadcast()
    &&& !i.spec_is_point_to_point()
    &&& exists|k: int| 0 <= k < i.ips@.len() && #[trigger] lan_capable(i.ips@[k])
}

/// An IPv4 network, or an IPv6 one with a link-local address.
pub open spec fn lan_capable(n: IpNetwork) -> bool {
    match n {
        IpNetwork::V4(_) => true,
        IpNetwork::V6(v6) => v6.spec_ip().spec_is_unicast_link_local(),
    }
}

fn lan_network(n: &IpNetwork) -> (r: bool)
    ensures
        r == lan_capable(*n),
{
    match n {
        IpNetwork::V4(_) => true,
        IpNetwork::V6(v6) => v6.ip().is_unicast_link_local(),
    }
}

fn is_engine_candidate(i: &Interface, physical: bool) -> (r: bool)
    ensures
        r == engine_candidate(*i, physical),
{
    if !(i.is_up() && physical && i.mac.is_some() && i.is_broadcast() && !i.is_point_to_point()) {
        return false;
    }
    let ghost ips = i.ips@;
    let n = i.ips.len();
    let mut k: usize = 0;
    while k < n
        invariant
            n == i.ips@.len(),
            0 <= k <= n,
            forall|j: int| 0 <= j < k ==> !#[trigger] lan_capable(i.ips@[j]),
            i.spec_is_up() && physical && i.mac is Some && i.spec_is_broadcast()
                && !i.spec_is_point_to_point(),
        decreases n - k,
    {
        if lan_network(&i.ips[k]) {
            assert(0 <= k < i.ips@.len() && lan_capable(i.ips@[k as int]));
            return true;
        }
        k = k + 1;
    }
    assert(!exists|j: int| 0 <= j < i.ips@.len() && #[trigger] lan_capable(i.ips@[j]));
    false
}

/// The indices of the engine's LAN candidates, in order.
pub open spec fn engine_candidates(ifs: Seq<Interface>, physical: Seq<bool>) -> Seq<int> {
    indices_of(Seq::new(ifs.len(), |i: int| engine_candidate(ifs[i], physical[i])))
}

/// The position of the first element of `cands` at which `good` holds, or
/// -1 when there is none.
pub open spec fn first_in(cands: Seq<int>, good: Seq<bool>) -> int
    decreases cands.len(),
{
    if cands.len() == 0 {
        -1
    } else if good[cands[0]] {
        0
    } else {
        let k = first_in(cands.drop_first(), good);
        if k < 0 {
            -1
        } else {
            k + 1
        }
    }
}

pub proof fn lemma_first_in(cands: Seq<int>, good: Seq<bool>)
    ensures
        -1 <= first_in(cands, good) < cands.len(),
        first_in(cands, good) >= 0 ==> good[cands[first_in(cands, good)]],
        forall|j: int|
            0 <= j < cands.len() && (first_in(cands, good) < 0 || j < first_in(cands, good))
                ==> !good[#[trigger] cands[j]],
    decreases cands.len(),
{
    if cands.len() > 0 {
        lemma_first_in(cands.drop_first(), good);
        assert forall|j: int|
            0 <= j < cands.len() && (first_in(cands, good) < 0 || j < first_in(cands, good))
                implies !good[#[trigger] cands[j]] by {
            if j > 0 {
                assert(cands[j] == cands.drop_first()[j - 1]);
            }
        }
    }
}

/// The candidate that a pick among `cands` lands on: the only one, or else
/// the first good one, or else the first one.
pub open spec fn pick_of(cands: Seq<int>, good: Seq<bool>) -> int {
    if cands.len() == 1 {
        cands[0]
    } else {
        let k = first_in(cands, good);
        if k < 0 {
            cands[0]
        } else {
            cands[k]
        }
    }
}

/// Picks among the candidate indices `cands`, which must not be empty.
fn pick(cands: &Vec<usize>, good: &Vec<bool>) -> (r: usize)
    requires
        cands@.len() > 0,
        forall|j: int| 0 <= j < cands@.len() ==> #[trigger] cands@[j] < good@.len(),
    ensures
        r as int == pick_of(ints(cands@), good@),
        r < good@.len(),
{
    let ghost sc = ints(cands@);
    proof {
        lemma_first_in(sc, good@);
        assert forall|j: int| 0 <= j < cands@.len() implies #[trigger] sc[j] == cands@[j] as int by {}
    }
    if cands.len() == 1 {
        return cands[0];
    }
    let m = cands.len();
    let mut k: usize = 0;
    while k < m
        invariant
            m == cands@.len(),
            m > 1,
            sc == ints(cands@),
            forall|j: int| 0 <= j < m ==> #[trigger] sc[j] == cands@[j] as int,
            forall|j: int| 0 <= j < m ==> #[trigger] cands@[j] < good@.len(),
            0 <= k <= m,
            forall|j: int| 0 <= j < k ==> !good@[#[trigger] sc[j]],
            -1 <= first_in(sc, good@) < m,
            first_in(sc, good@) >= 0 ==> good@[sc[first_in(sc, good@)]],
            forall|j: int|
                0 <= j < m && (first_in(sc, good@) < 0 || j < first_in(sc, good@))
                    ==> !good@[#[trigger] sc[j]],
        decreases m - k,
    {
        let idx = cands[k];
        if good[idx] {
            proof {
                let fw = first_in(sc, good@);
                assert(good@[sc[k as int]]);
                if fw >= 0 && fw < k {
                    assert(!good@[sc[fw]]);
                }
                assert(fw == k);
            }
            return idx;
        }
        k = k + 1;
    }
    proof {
        let fw = first_in(sc, good@);
        if fw >= 0 {
            assert(!good@[sc[fw]]);
        }
    }
    cands[0]
}

/// The interface that `get_lan` picks: the only candidate, or else the
/// first wired one, or else the first one.
pub open spec fn lan_pick(ifs: Seq<Interface>, physical: Seq<bool>, wireless: Seq<bool>) -> int {
    pick_of(
        engine_candidates(ifs, physical),
        Seq::new(ifs.len(), |i: int| physical[i] && !wireless[i]),
    )
}

/// The candidate indices of `flags`, computed.
fn candidates(flags: &Vec<bool>) -> (r: Vec<usize>)
    ensures
        ints(r@) == indices_of(flags@),
        forall|j: int| 0 <= j < r@.len() ==> #[trigger] r@[j] < flags@.len(),
{
    let mut cands: Vec<usize> = Vec::new();
    assert(ints(cands@) =~= Seq::<int>::empty());
    push_indices(&mut cands, flags);
    proof {
        lemma_indices_of_bounds(flags@);
        assert forall|j: int| 0 <= j < cands@.len() implies #[trigger] cands@[j] < flags@.len() by {
            assert(ints(cands@)[j] == cands@[j] as int);
        }
    }
    cands
}

/// Whether any of `interfaces` can carry LAN discovery in the engine.
pub fn lan_available(interfaces: &Vec<Interface>, physical: &Vec<bool>) -> (r: bool)
    requires
        physical@.len() == interfaces@.len(),
    ensures
        r == (engine_candidates(interfaces@, physical@).len() > 0),
{
    let n = interfaces.len();
    let ghost ifs = interfaces@;
    let mut flags: Vec<bool> = Vec::new();
    let mut i: usize = 0;
    while i < n
        invariant
            n == ifs.len(),
            ifs == interfaces@,
            physical@.len() == n,
            0 <= i <= n,
            flags@ == Seq::new(i as nat, |j: int| engine_candidate(ifs[j], physical@[j])),
        decreases n - i,
    {
        flags.push(is_engine_candidate(&interfaces[i], physical[i]));
        i = i + 1;
        assert(flags@ =~= Seq::new(i as nat, |j: int| engine_candidate(ifs[j], physical@[j])));
    }
    let cands = candidates(&flags);
    assert(ints(cands@).len() == cands@.len());
    cands.len() > 0
}

/// Picks the LAN interface of the engine among `interfaces`;
/// `physical[i]` and `wireless[i]` describe `interfaces[i]`. There must be
/// a candidate.
pub fn get_lan(interfaces: &Vec<Interface>, physical: &Vec<bool>, wireless: &Vec<bool>) -> (r:
    Interface)
    requires
        physical@.len() == interfaces@.len(),
        wireless@.len() == interfaces@.len(),
        engine_candidates(interfaces@, physical@).len() > 0,
    ensures
        r.same_as(interfaces@[lan_pick(interfaces@, physical@, wireless@)]),
{
    let n = interfaces.len();
    let ghost ifs = interfaces@;
    let mut flags: Vec<bool> = Vec::new();
    let mut good: Vec<bool> = Vec::new();
    let mut i: usize = 0;
    while i < n
        invariant
            n == ifs.len(),
            ifs == interfaces@,
            physical@.len() == n,
            wireless@.len() == n,
            0 <= i <= n,
            flags@ == Seq::new(i as nat, |j: int| engine_candidate(ifs[j], physical@[j])),
            good@ == Seq::new(i as nat, |j: int| physical@[j] && !wireless@[j]),
        decreases n - i,
    {
        flags.push(is_engine_candidate(&interfaces[i], physical[i]));
        good.push(is_wired(physical[i], wireless[i]));
        i = i + 1;
        assert(flags@ =~= Seq::new(i as nat, |j: int| engine_candidate(ifs[j], physical@[j])));
        assert(good@ =~= Seq::new(i as nat, |j: int| physical@[j] && !wireless@[j]));
    }
    let cands = candidates(&flags);
    let idx = pick(&cands, &good);
    interfaces[idx].duplicate()
}

/// Whether the interface may be the LAN interface of the selector: up,
/// with a hardware address, able to broadcast, a physical device, neither
/// loopback nor point-to-point, and with an IPv4 network.
pub open spec fn select_candidate(i: Interface, physical: bool) -> bool {
    &&& i.spec_is_up()
    &&& i.mac is Some
    &&& i.spec_is_broadcast()
    &&& physical
    &&& !i.spec_is_loopback()
    &&& !i.spec_is_point_to_point()
    &&& exists|k: int| 0 <= k < i.ips@.len() && #[trigger] i.ips@[k] is V4
}

fn is_select_candidate(i: &Interface, physical: bool) -> (r: bool)
    ensures
        r == select_candidate(*i, physical),
{
    if !(i.is_up() && i.mac.is_some() && i.is_broadcast() && physical && !i.is_loopback()
        && !i.is_point_to_point()) {
        return false;
    }
    let n = i.ips.len();
    let mut k: usize = 0;
    while k < n
        invariant
            n == i.ips@.len(),
            0 <= k <= n,
            forall|j: int| 0 <= j < k ==> !(#[trigger] i.ips@[j] is V4),
            i.spec_is_up() && i.mac is Some && i.spec_is_broadcast() && physical
                && !i.spec_is_loopback() && !i.spec_is_point_to_point(),
        decreases n - k,
    {
        if let IpNetwork::V4(_) = i.ips[k] {
            assert(i.ips@[k as int] is V4);
            return true;
        }
        k = k + 1;
    }
    assert(!exists|j: int| 0 <= j < i.ips@.len() && #[trigger] i.ips@[j] is V4);
    false
}

/// The interface that `select_lan` picks: the first candidate that is not
/// wireless, or else the first candidate.
pub open spec fn select_pick(ifs: Seq<Interface>, physical: Seq<bool>, wireless: Seq<bool>) -> int {
    let cands = indices_of(Seq::new(ifs.len(), |i: int| select_candidate(ifs[i], physical[i])));
    let k = first_in(cands, Seq::new(ifs.len(), |i: int| !wireless[i]));
    if k < 0 {
        cands[0]
    } else {
        cands[k]
    }
}

/// Whether any interface can be the LAN interface of the selector.
pub open spec fn has_select_candidate(ifs: Seq<Interface>, physical: Seq<bool>) -> bool {
    indices_of(Seq::new(ifs.len(), |i: int| select_candidate(ifs[i], physical[i]))).len() > 0
}

/// Picks the LAN interface among `interfaces`, wired before wireless;
/// `physical[i]` and `wireless[i]` describe `interfaces[i]`. There must be
/// a candidate.
pub fn select_lan(interfaces: &Vec<Interface>, physical: &Vec<bool>, wireless: &Vec<bool>) -> (r:
    Interface)
    requires
        physical@.len() == interfaces@.len(),
        wireless@.len() == interfaces@.len(),
        has_select_candidate(interfaces@, physical@),
    ensures
        r.same_as(interfaces@[select_pick(interfaces@, physical@, wireless@)]),
{
    let n = interfaces.len();
    let ghost ifs = interfaces@;
    let mut flags: Vec<bool> = Vec::new();
    let mut good: Vec<bool> = Vec::new();
    let mut i: usize = 0;
    while i < n
        invariant
            n == ifs.len(),
            ifs == interfaces@,
            physical@.len() == n,
            wireless@.len() == n,
            0 <= i <= n,
            flags@ == Seq::new(i as nat, |j: int| select_candidate(ifs[j], physical@[j])),
            good@ == Seq::new(i as nat, |j: int| !wireless@[j]),
        decreases n - i,
    {
        flags.push(is_select_candidate(&interfaces[i], physical[i]));
        good.push(!wireless[i]);
        i = i + 1;
        assert(flags@ =~= Seq::new(i as nat, |j: int| select_candidate(ifs[j], physical@[j])));
        assert(good@ =~= Seq::new(i as nat, |j: int| !wireless@[j]));
    }
    let cands = candidates(&flags);
    let idx = wired_over_wireless(&cands, &good);
    interfaces[idx].duplicate()
}

/// The first candidate that is not wireless (`not_wireless` holds), or
/// else the first candidate.
fn wired_over_wireless(cands: &Vec<usize>, not_wireless: &Vec<bool>) -> (r: usize)
    requires
        cands@.len() > 0,
        forall|j: int| 0 <= j < cands@.len() ==> #[trigger] cands@[j] < not_wireless@.len(),
    ensures
        ({
            let k = first_in(ints(cands@), not_wireless@);
            r as int == if k < 0 {
                ints(cands@)[0]
            } else {
                ints(cands@)[k]
            }
        }),
        r < not_wireless@.len(),
{
    let r = pick(cands, not_wireless);
    proof {
        let sc = ints(cands@);
        lemma_first_in(sc, not_wireless@);
        if sc.len() == 1 {
            if first_in(sc, not_wireless@) == 0 {
            }
        }
    }
    r
}

/// The first network of the interface, when it is an IPv4 one.
pub fn first_ipv4_net(interface: &Interface) -> (r: Result<Ipv4Net, String>)
    ensures
        interface.ips@.len() == 0 ==> (r matches Err(e) && e@ == "Interface has no IP address at all"@),
        interface.ips@.len() > 0 ==> match interface.ips@[0] {
            IpNetwork::V4(n) => r == Ok::<Ipv4Net, String>(n),
            IpNetwork::V6(_) => (r matches Err(e) && e@ == "Interface does not have an IPv4 address"@),
        },
{
    if interface.ips.len() == 0 {
        return Err(String::from_str("Interface has no IP address at all"));
    }
    match interface.ips[0] {
        IpNetwork::V4(v4_net) => Ok(v4_net),
        IpNetwork::V6(_) => Err(String::from_str("Interface does not have an IPv4 address")),
    }
}

/// The address of the interface's first network, when it is an IPv4 one.
pub fn get_ipv4(interface: &Interface) -> (r: Result<Ipv4Addr, String>)
    ensures
        interface.ips@.len() == 0 ==> (r matches Err(e) && e@ == "Interface has no IP address at all"@),
        interface.ips@.len() > 0 ==> match interface.ips@[0] {
            IpNetwork::V4(n) => r == Ok::<Ipv4Addr, String>(n.spec_ip()),
            IpNetwork::V6(_) => (r matches Err(e) && e@ == "Interface does not have an IPv4 address"@),
        },
{
    match first_ipv4_net(interface) {
        Ok(net) => Ok(net.ip()),
        Err(e) => Err(e),
    }
}

/// The prefix of the interface's first network, when it is an IPv4 one.
pub fn get_prefix(interface: &Interface) -> (r: Result<u8, String>)
    ensures
        interface.ips@.len() == 0 ==> (r matches Err(e) && e@ == "Interface has no IP address at all"@),
        interface.ips@.len() > 0 ==> match interface.ips@[0] {
            IpNetwork::V4(n) => r == Ok::<u8, String>(n.spec_prefix()),
            IpNetwork::V6(_) => (r matches Err(e) && e@ == "Interface does not have an IPv4 address"@),
        },
{
    match first_ipv4_net(interface) {
        Ok(net) => Ok(net.prefix()),
        Err(e) => Err(e),
    }
}

/// Whether a host target is reached through the LAN interface: its first
/// octet is 10, 172 or 192.
pub fn host_on_lan(addr: Ipv4Addr) -> (r: bool)
    ensures
        r == (addr.octet(0) == 10 || addr.octet(0) == 172 || addr.octet(0) == 192),
{
    let first = addr.octets()[0];
    first == 10 || first == 172 || first == 192
}

/// The interface for a host target: the LAN interface when the host is on
/// the LAN, none otherwise.
pub fn select_host(addr: Ipv4Addr, interfaces: &Vec<Interface>, physical: &Vec<bool>, wireless: &Vec<bool>) -> (r: Option<Interface>)
    requires
        physical@.len() == interfaces@.len(),
        wireless@.len() == interfaces@.len(),
        has_select_candidate(interfaces@, physical@),
    ensures
        (addr.octet(0) == 10 || addr.octet(0) == 172 || addr.octet(0) == 192) ==> (r matches Some(i)
            && i.same_as(interfaces@[select_pick(interfaces@, physical@, wireless@)])),
        !(addr.octet(0) == 10 || addr.octet(0) == 172 || addr.octet(0) == 192) ==> r is None,
{
    if host_on_lan(addr) {
        Some(select_lan(interfaces, physical, wireless))
    } else {
        None
    }
}

} // verus!
