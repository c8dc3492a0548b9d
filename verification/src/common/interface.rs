//! Choosing the interface that faces the local network.

use vstd::prelude::*;
use crate::addr::IpAddr;
use crate::common::range::{range_addrs, range_holds, range_size, IpCollection, Ipv4Range};
use crate::iface::Interface;
use crate::network::{IpNetwork, Ipv4Net};
use crate::net::sender::lemma_push_contains;

verus! {

/// Why an interface cannot serve for LAN discovery.
#[derive(Debug, PartialEq, Eq, Clone, Copy, Structural)]
pub enum ViabilityError {
    /// The interface is operationally down.
    IsDown,
    /// The interface is not a physical device, or is a loopback.
    NotPhysical,
    /// The interface has no MAC address.
    NoMacAddress,
    /// The interface does not support broadcast (required for ARP).
    NotBroadcast,
    /// The interface is a point-to-point link (e.g. a VPN).
    IsPointToPoint,
    /// The interface has no private IPv4 address (for ARP) and no IPv6
    /// link-local address (for NDP).
    NoValidLanIp,
}

/// A network whose address is usable on a LAN: a private IPv4 address or an
/// IPv6 link-local address.
pub open spec fn lan_ip(n: IpNetwork) -> bool {
    match n {
        IpNetwork::V4(v4) => v4.spec_ip().spec_is_private(),
        IpNetwork::V6(v6) => v6.spec_ip().spec_is_unicast_link_local(),
    }
}

pub open spec fn has_lan_ip(ips: Seq<IpNetwork>) -> bool {
    exists|j: int| 0 <= j < ips.len() && lan_ip(#[trigger] ips[j])
}

/// The verdict on an interface, checks taken in this order.
pub open spec fn spec_viability(i: Interface, physical: bool) -> Result<(), ViabilityError> {
    if !i.spec_is_up() {
        Err(ViabilityError::IsDown)
    } else if !physical {
        Err(ViabilityError::NotPhysical)
    } else if i.spec_is_loopback() {
        Err(ViabilityError::NotPhysical)
    } else if i.mac is None {
        Err(ViabilityError::NoMacAddress)
    } else if !i.spec_is_broadcast() {
        Err(ViabilityError::NotBroadcast)
    } else if i.spec_is_point_to_point() {
        Err(ViabilityError::IsPointToPoint)
    } else if !has_lan_ip(i.ips@) {
        Err(ViabilityError::NoValidLanIp)
    } else {
        Ok(())
    }
}

fn is_lan_ip(n: &IpNetwork) -> (r: bool)
    ensures
        r == lan_ip(*n),
{
    match n {
        IpNetwork::V4(v4) => v4.ip().is_private(),
        IpNetwork::V6(v6) => v6.ip().is_unicast_link_local(),
    }
}

/// Whether an interface can serve for LAN discovery; `is_physical` tells
/// whether it is backed by a physical device.
pub fn is_viable_lan_interface(interface: &Interface, is_physical: bool) -> (r: Result<(), ViabilityError>)
    ensures
        r == spec_viability(*interface, is_physical),
{
    if !interface.is_up() {
        return Err(ViabilityError::IsDown);
    }
    if !is_physical {
        return Err(ViabilityError::NotPhysical);
    }
    if interface.is_loopback() {
        return Err(ViabilityError::NotPhysical);
    }
    if interface.mac.is_none() {
        return Err(ViabilityError::NoMacAddress);
    }
    if !interface.is_broadcast() {
        return Err(ViabilityError::NotBroadcast);
    }
    if interface.is_point_to_point() {
        return Err(ViabilityError::IsPointToPoint);
    }
    let mut k: usize = 0;
    while k < interface.ips.len()
        invariant
            0 <= k <= interface.ips@.len(),
            forall|j: int| 0 <= j < k ==> !lan_ip(#[trigger] interface.ips@[j]),
            spec_viability(*interface, is_physical) == (if has_lan_ip(interface.ips@) {
                Ok::<(), ViabilityError>(())
            } else {
                Err(ViabilityError::NoValidLanIp)
            }),
        decreases interface.ips@.len() - k,
    {
        if is_lan_ip(&interface.ips[k]) {
            assert(lan_ip(interface.ips@[k as int]));
            return Ok(());
        }
        k = k + 1;
    }
    Err(ViabilityError::NoValidLanIp)
}

/// Index of the first `true`, or -1.
pub open spec fn first_true(bs: Seq<bool>) -> int
    decreases bs.len(),
{
    if bs.len() == 0 {
        -1
    } else if bs[0] {
        0
    } else {
        let p = first_true(bs.drop_first());
        if p < 0 {
            -1
        } else {
            p + 1
        }
    }
}

pub proof fn lemma_first_true(bs: Seq<bool>)
    ensures
        -1 <= first_true(bs) < bs.len(),
        first_true(bs) >= 0 ==> bs[first_true(bs)],
        forall|j: int| 0 <= j < first_true(bs) ==> !bs[j],
        first_true(bs) < 0 ==> forall|j: int| 0 <= j < bs.len() ==> !bs[j],
    decreases bs.len(),
{
    if bs.len() > 0 {
        lemma_first_true(bs.drop_first());
        assert forall|j: int| 0 < j < bs.len() implies bs[j] == bs.drop_first()[j - 1] by {}
    }
}

/// Which of the candidates is chosen: none of none, the only one of one,
/// otherwise the first wired one, or the first one when none is wired.
pub open spec fn best_index(wired: Seq<bool>) -> int {
    if wired.len() == 0 {
        -1
    } else if wired.len() == 1 {
        0
    } else if first_true(wired) >= 0 {
        first_true(wired)
    } else {
        0
    }
}

/// The choice among candidates: none of none, the only one of one; of
/// several, a wired one with no wired one before it when any is wired, and
/// the first one when none is.
pub proof fn lemma_best_index_prefers_first_wired(wired: Seq<bool>)
    ensures
        wired.len() == 0 ==> best_index(wired) == -1,
        wired.len() == 1 ==> best_index(wired) == 0,
        wired.len() >= 2 && (exists|j: int| 0 <= j < wired.len() && wired[j]) ==> {
            &&& 0 <= best_index(wired) < wired.len()
            &&& wired[best_index(wired)]
            &&& forall|j: int| 0 <= j < best_index(wired) ==> !wired[j]
        },
        wired.len() >= 2 && !(exists|j: int| 0 <= j < wired.len() && wired[j]) ==> best_index(wired) == 0,
{
    lemma_first_true(wired);
}

/// Picks the candidate for LAN discovery; `is_wired[i]` tells whether
/// `interfaces[i]` is wired.
pub fn select_best_lan_interface(interfaces: Vec<Interface>, is_wired: Vec<bool>) -> (r: Option<Interface>)
    requires
        is_wired@.len() == interfaces@.len(),
    ensures
        best_index(is_wired@) < 0 ==> r is None,
        best_index(is_wired@) >= 0 ==> r == Some(interfaces@[best_index(is_wired@)]),
{
    proof {
        lemma_first_true(is_wired@);
    }
    let n = interfaces.len();
    if n == 0 {
        return None;
    }
    let ghost orig = interfaces@;
    let mut items = interfaces;
    if n == 1 {
        return Some(items.remove(0));
    }
    let mut i: usize = 0;
    while i < n
        invariant
            n == is_wired@.len(),
            n == items@.len(),
            n > 1,
            items@ == orig,
            orig == interfaces@,
            0 <= i <= n,
            forall|j: int| 0 <= j < i ==> !is_wired@[j],
        decreases n - i,
    {
        if is_wired[i] {
            proof {
                lemma_first_true(is_wired@);
                assert(is_wired@[i as int]);
                if first_true(is_wired@) < i {
                    assert(is_wired@[first_true(is_wired@)]);
                }
                assert(first_true(is_wired@) == i);
                assert(best_index(is_wired@) == i);
            }
            let x = items.remove(i);
            assert(x == orig[i as int]);
            return Some(x);
        }
        i = i + 1;
    }
    Some(items.remove(0))
}

/// Index of the first interface with a network that holds `target`.
pub open spec fn local_index(ifs: Seq<Interface>, target: IpAddr) -> int
    decreases ifs.len(),
{
    if ifs.len() == 0 {
        -1
    } else if holds_addr(ifs[0], target) {
        0
    } else {
        let p = local_index(ifs.drop_first(), target);
        if p < 0 {
            -1
        } else {
            p + 1
        }
    }
}

/// One of the interface's networks holds `target` (of the same family).
pub open spec fn holds_addr(i: Interface, target: IpAddr) -> bool {
    exists|j: int| 0 <= j < i.ips@.len() && (#[trigger] i.ips@[j]).spec_contains(target)
}

proof fn lemma_local_index(ifs: Seq<Interface>, target: IpAddr)
    ensures
        -1 <= local_index(ifs, target) < ifs.len(),
        local_index(ifs, target) >= 0 ==> holds_addr(ifs[local_index(ifs, target)], target),
        forall|j: int| 0 <= j < local_index(ifs, target) ==> !holds_addr(ifs[j], target),
        local_index(ifs, target) < 0 ==> forall|j: int| 0 <= j < ifs.len() ==> !holds_addr(ifs[j], target),
    decreases ifs.len(),
{
    if ifs.len() > 0 {
        lemma_local_index(ifs.drop_first(), target);
        assert forall|j: int| 0 < j < ifs.len() implies ifs[j] == ifs.drop_first()[j - 1] by {}
    }
}

fn holds(i: &Interface, target: IpAddr) -> (r: bool)
    ensures
        r == holds_addr(*i, target),
{
    let mut k: usize = 0;
    while k < i.ips.len()
        invariant
            0 <= k <= i.ips@.len(),
            forall|j: int| 0 <= j < k ==> !(#[trigger] i.ips@[j]).spec_contains(target),
        decreases i.ips@.len() - k,
    {
        if i.ips[k].contains(target) {
            return true;
        }
        k = k + 1;
    }
    false
}

/// The first interface that has `target` on one of its networks.
pub fn find_local_index(interfaces: &Vec<Interface>, target: IpAddr) -> (r: Option<usize>)
    ensures
        local_index(interfaces@, target) < 0 ==> r is None,
        local_index(interfaces@, target) >= 0 ==> r == Some(local_index(interfaces@, target) as usize),
{
    proof {
        lemma_local_index(interfaces@, target);
    }
    let mut i: usize = 0;
    while i < interfaces.len()
        invariant
            0 <= i <= interfaces@.len(),
            forall|j: int| 0 <= j < i ==> !holds_addr(interfaces@[j], target),
        decreases interfaces@.len() - i,
    {
        if holds(&interfaces[i], target) {
            proof {
                lemma_local_index(interfaces@, target);
            }
            return Some(i);
        }
        i = i + 1;
    }
    None
}


/// Indices of the viable interfaces, in order; `physical[i]` tells whether
/// interface `i` is backed by a physical device.
pub open spec fn viable_indices(ifs: Seq<Interface>, physical: Seq<bool>) -> Seq<int>
    decreases ifs.len(),
{
    if ifs.len() == 0 {
        Seq::empty()
    } else {
        let rest = viable_indices(ifs.drop_last(), physical);
        if spec_viability(ifs.last(), physical[ifs.len() - 1]) is Ok {
            rest.push(ifs.len() - 1)
        } else {
            rest
        }
    }
}

proof fn lemma_viable_indices(ifs: Seq<Interface>, physical: Seq<bool>)
    ensures
        forall|k: int|
            0 <= k < viable_indices(ifs, physical).len() ==> 0 <= #[trigger] viable_indices(ifs, physical)[k]
                < ifs.len(),
    decreases ifs.len(),
{
    if ifs.len() > 0 {
        let rest = viable_indices(ifs.drop_last(), physical);
        lemma_viable_indices(ifs.drop_last(), physical);
        assert forall|k: int| 0 <= k < viable_indices(ifs, physical).len() implies 0
            <= #[trigger] viable_indices(ifs, physical)[k] < ifs.len() by {
            if k < rest.len() {
                assert(viable_indices(ifs, physical)[k] == rest[k]);
            }
        }
    }
}

/// The first network of a list that has a private IPv4 address.
pub open spec fn first_private_v4(ips: Seq<IpNetwork>) -> Option<Ipv4Net>
    decreases ips.len(),
{
    if ips.len() == 0 {
        None
    } else {
        match ips[0] {
            IpNetwork::V4(n) => if n.spec_ip().spec_is_private() {
                Some(n)
            } else {
                first_private_v4(ips.drop_first())
            },
            _ => first_private_v4(ips.drop_first()),
        }
    }
}

/// The index of the interface chosen for the LAN among all interfaces, or -1.
pub open spec fn lan_choice(ifs: Seq<Interface>, physical: Seq<bool>, wired: Seq<bool>) -> int {
    let v = viable_indices(ifs, physical);
    let b = best_index(v.map_values(|i: int| wired[i]));
    if b < 0 {
        -1
    } else {
        v[b]
    }
}

fn first_private_net(ips: &Vec<IpNetwork>) -> (r: Option<Ipv4Net>)
    ensures
        r == first_private_v4(ips@),
{
    let mut k: usize = 0;
    assert(ips@.skip(0) =~= ips@);
    while k < ips.len()
        invariant
            0 <= k <= ips@.len(),
            first_private_v4(ips@) == first_private_v4(ips@.skip(k as int)),
        decreases ips@.len() - k,
    {
        assert(ips@.skip(k as int).drop_first() =~= ips@.skip(k + 1));
        assert(ips@.skip(k as int)[0] == ips@[k as int]);
        match ips[k] {
            IpNetwork::V4(n) => {
                if n.ip().is_private() {
                    return Some(n);
                }
            },
            _ => {},
        }
        k = k + 1;
    }
    None
}

/// The IPv4 network of the LAN: among the viable interfaces the best one
/// is chosen (see `select_best_lan_interface`) and its first private IPv4
/// network returned, `None` when it has none. Fails when no interface is
/// viable.
pub fn get_lan_network(interfaces: Vec<Interface>, physical: Vec<bool>, wired: Vec<bool>) -> (r: Result<Option<Ipv4Net>, String>)
    requires
        physical@.len() == interfaces@.len(),
        wired@.len() == interfaces@.len(),
    ensures
        lan_choice(interfaces@, physical@, wired@) < 0 ==> (r matches Err(e) && e@
            == "No interfaces available for LAN discovery"@),
        lan_choice(interfaces@, physical@, wired@) >= 0 ==> r == Ok::<Option<Ipv4Net>, String>(
            first_private_v4(interfaces@[lan_choice(interfaces@, physical@, wired@)].ips@),
        ),
{
    let ghost orig = interfaces@;
    let n = interfaces.len();
    let mut items = interfaces;
    let mut viable: Vec<Interface> = Vec::new();
    let mut viable_wired: Vec<bool> = Vec::new();
    let mut k: usize = 0;
    while k < n
        invariant
            n == orig.len(),
            orig == interfaces@,
            physical@.len() == n,
            wired@.len() == n,
            0 <= k <= n,
            items@ == orig.skip(k as int),
            viable@.len() == viable_indices(orig.take(k as int), physical@).len(),
            viable_wired@.len() == viable@.len(),
            forall|j: int|
                0 <= j < viable@.len() ==> viable@[j] == orig[#[trigger] viable_indices(orig.take(k as int), physical@)[j]]
                    && viable_wired@[j] == wired@[viable_indices(orig.take(k as int), physical@)[j]],
        decreases n - k,
    {
        let it = items.remove(0);
        assert(it == orig[k as int]);
        assert(orig.take(k + 1).drop_last() =~= orig.take(k as int));
        proof {
            lemma_viable_indices(orig.take(k as int), physical@);
        }
        if is_viable_lan_interface(&it, physical[k]).is_ok() {
            viable.push(it);
            viable_wired.push(wired[k]);
        }
        assert(items@ =~= orig.skip(k + 1));
        k = k + 1;
    }
    assert(orig.take(n as int) =~= orig);
    let ghost v = viable_indices(orig, physical@);
    assert(viable_indices(orig.take(n as int), physical@) == v);
    assert(viable@.len() == v.len());
    assert(forall|j: int| 0 <= j < viable@.len() ==> viable@[j] == orig[#[trigger] v[j]]);
    proof {
        lemma_viable_indices(orig, physical@);
        lemma_first_true(v.map_values(|i: int| wired@[i]));
    }
    assert(viable_wired@ =~= v.map_values(|i: int| wired@[i]));
    let ghost vs = viable@;
    match select_best_lan_interface(viable, viable_wired) {
        None => {
            let msg = String::from_str("No interfaces available for LAN discovery");
            Err(msg)
        },
        Some(best) => {
            let ghost b = best_index(v.map_values(|i: int| wired@[i]));
            assert(best == vs[b]);
            assert(vs[b] == orig[v[b]]);
            assert(lan_choice(orig, physical@, wired@) == v[b]);
            Ok(first_private_net(&best.ips))
        },
    }
}


/// An interface worth listing: up, no loopback, with at least one network.
pub open spec fn listed(i: Interface) -> bool {
    i.spec_is_up() && !i.spec_is_loopback() && i.ips@.len() > 0
}

/// The listed interfaces whose wired flag is `w`, in order; `wired[i]`
/// tells whether `ifs[i]` is wired.
pub open spec fn listed_with(ifs: Seq<Interface>, wired: Seq<bool>, w: bool) -> Seq<Interface>
    decreases ifs.len(),
{
    if ifs.len() == 0 {
        Seq::empty()
    } else {
        let rest = listed_with(ifs.drop_last(), wired.drop_last(), w);
        if listed(ifs.last()) && wired[ifs.len() - 1] == w {
            rest.push(ifs.last())
        } else {
            rest
        }
    }
}

/// The interfaces worth listing, wired ones first and then the rest, each
/// group in the order given, at most `limit` of them; `wired[i]` tells
/// whether `interfaces[i]` is wired.
pub fn prioritize_interfaces(interfaces: Vec<Interface>, wired: &Vec<bool>, limit: usize) -> (r: Vec<Interface>)
    requires
        wired@.len() == interfaces@.len(),
    ensures
        r@ == (listed_with(interfaces@, wired@, true) + listed_with(interfaces@, wired@, false)).take(
            vstd::math::min(
                limit as int,
                (listed_with(interfaces@, wired@, true) + listed_with(interfaces@, wired@, false)).len() as int,
            ),
        ),
{
    let ghost orig = interfaces@;
    let n = interfaces.len();
    let mut items = interfaces;
    let mut first: Vec<Interface> = Vec::new();
    let mut second: Vec<Interface> = Vec::new();
    let mut k: usize = 0;
    while k < n
        invariant
            n == orig.len(),
            wired@.len() == n,
            0 <= k <= n,
            items@ == orig.skip(k as int),
            first@ == listed_with(orig.take(k as int), wired@.take(k as int), true),
            second@ == listed_with(orig.take(k as int), wired@.take(k as int), false),
        decreases n - k,
    {
        let it = items.remove(0);
        assert(it == orig[k as int]);
        assert(orig.take(k + 1).drop_last() =~= orig.take(k as int));
        assert(wired@.take(k + 1).drop_last() =~= wired@.take(k as int));
        let keep = it.is_up() && !it.is_loopback() && it.ips.len() > 0;
        if keep {
            if wired[k] {
                first.push(it);
            } else {
                second.push(it);
            }
        }
        assert(items@ =~= orig.skip(k + 1));
        k = k + 1;
    }
    assert(orig.take(n as int) =~= orig);
    assert(wired@.take(n as int) =~= wired@);
    let ghost all = first@ + second@;
    first.append(&mut second);
    assert(first@ == all);
    if first.len() > limit {
        first.truncate(limit);
    }
    assert(first@ =~= all.take(vstd::math::min(limit as int, all.len() as int)));
    first
}


/// The interfaces worth routing to, in order: up, no loopback, with at least
/// one network.
pub open spec fn listed_all(ifs: Seq<Interface>) -> Seq<Interface>
    decreases ifs.len(),
{
    if ifs.len() == 0 {
        Seq::empty()
    } else if listed(ifs.last()) {
        listed_all(ifs.drop_last()).push(ifs.last())
    } else {
        listed_all(ifs.drop_last())
    }
}

/// Keeps the interfaces worth routing to.
pub fn routable_interfaces(interfaces: Vec<Interface>) -> (r: Vec<Interface>)
    ensures
        r@ == listed_all(interfaces@),
{
    let ghost orig = interfaces@;
    let n = interfaces.len();
    let mut items = interfaces;
    let mut out: Vec<Interface> = Vec::new();
    let mut k: usize = 0;
    while k < n
        invariant
            n == orig.len(),
            0 <= k <= n,
            items@ == orig.skip(k as int),
            out@ == listed_all(orig.take(k as int)),
        decreases n - k,
    {
        let it = items.remove(0);
        assert(it == orig[k as int]);
        assert(orig.take(k + 1).drop_last() =~= orig.take(k as int));
        if it.is_up() && !it.is_loopback() && it.ips.len() > 0 {
            out.push(it);
        }
        assert(items@ =~= orig.skip(k + 1));
        k = k + 1;
    }
    assert(orig.take(n as int) =~= orig);
    out
}

/// One IPv4 network of the interface holds both ends of the range.
pub open spec fn range_fits(i: Interface, r: Ipv4Range) -> bool {
    exists|j: int|
        0 <= j < i.ips@.len() && (#[trigger] i.ips@[j] matches IpNetwork::V4(n) && n.spec_contains(
            r.start_addr,
        ) && n.spec_contains(r.end_addr))
}

/// Index of the first interface that a range fits, or -1.
pub open spec fn range_owner_index(ifs: Seq<Interface>, r: Ipv4Range) -> int
    decreases ifs.len(),
{
    if ifs.len() == 0 {
        -1
    } else if range_fits(ifs[0], r) {
        0
    } else {
        let p = range_owner_index(ifs.drop_first(), r);
        if p < 0 {
            -1
        } else {
            p + 1
        }
    }
}

proof fn lemma_range_owner_index(ifs: Seq<Interface>, r: Ipv4Range)
    ensures
        -1 <= range_owner_index(ifs, r) < ifs.len(),
        range_owner_index(ifs, r) >= 0 ==> range_fits(ifs[range_owner_index(ifs, r)], r),
        forall|j: int| 0 <= j < range_owner_index(ifs, r) ==> !range_fits(ifs[j], r),
        range_owner_index(ifs, r) < 0 ==> forall|j: int| 0 <= j < ifs.len() ==> !range_fits(ifs[j], r),
    decreases ifs.len(),
{
    if ifs.len() > 0 {
        lemma_range_owner_index(ifs.drop_first(), r);
        assert forall|j: int| 0 < j < ifs.len() implies ifs[j] == ifs.drop_first()[j - 1] by {}
    }
}

fn fits(i: &Interface, r: &Ipv4Range) -> (b: bool)
    ensures
        b == range_fits(*i, *r),
{
    let mut k: usize = 0;
    while k < i.ips.len()
        invariant
            0 <= k <= i.ips@.len(),
            forall|j: int|
                0 <= j < k ==> !(#[trigger] i.ips@[j] matches IpNetwork::V4(n) && n.spec_contains(
                    r.start_addr,
                ) && n.spec_contains(r.end_addr)),
        decreases i.ips@.len() - k,
    {
        match i.ips[k] {
            IpNetwork::V4(n) => {
                if n.contains(r.start_addr) && n.contains(r.end_addr) {
                    return true;
                }
            },
            _ => {},
        }
        k = k + 1;
    }
    false
}

/// The first interface with an IPv4 network that holds the whole range.
pub fn range_owner(interfaces: &Vec<Interface>, range: &Ipv4Range) -> (r: Option<usize>)
    ensures
        range_owner_index(interfaces@, *range) < 0 ==> r is None,
        range_owner_index(interfaces@, *range) >= 0 ==> r == Some(range_owner_index(interfaces@, *range) as usize),
{
    proof {
        lemma_range_owner_index(interfaces@, *range);
    }
    let mut i: usize = 0;
    while i < interfaces.len()
        invariant
            0 <= i <= interfaces@.len(),
            forall|j: int| 0 <= j < i ==> !range_fits(interfaces@[j], *range),
        decreases interfaces@.len() - i,
    {
        if fits(&interfaces[i], range) {
            proof {
                lemma_range_owner_index(interfaces@, *range);
            }
            return Some(i);
        }
        i = i + 1;
    }
    None
}

/// Index of the last interface that has `ip` as the address of one of its
/// networks, or -1.
pub open spec fn source_index_of(ifs: Seq<Interface>, ip: IpAddr) -> int
    decreases ifs.len(),
{
    if ifs.len() == 0 {
        -1
    } else if exists|j: int| 0 <= j < ifs.last().ips@.len() && (#[trigger] ifs.last().ips@[j]).spec_ip() == ip {
        ifs.len() - 1
    } else {
        source_index_of(ifs.drop_last(), ip)
    }
}

/// The interface that owns a local address, the last one when several do.
pub fn source_index(interfaces: &Vec<Interface>, ip: IpAddr) -> (r: Option<usize>)
    ensures
        source_index_of(interfaces@, ip) < 0 ==> r is None,
        source_index_of(interfaces@, ip) >= 0 ==> r == Some(source_index_of(interfaces@, ip) as usize),
{
    let mut i: usize = interfaces.len();
    assert(interfaces@.take(i as int) =~= interfaces@);
    while i > 0
        invariant
            0 <= i <= interfaces@.len(),
            source_index_of(interfaces@, ip) == source_index_of(interfaces@.take(i as int), ip),
        decreases i,
    {
        let it = &interfaces[i - 1];
        let mut k: usize = 0;
        let ghost pre = interfaces@.take(i as int);
        assert(pre.last() == *it);
        while k < it.ips.len()
            invariant
                0 < i <= interfaces@.len(),
                pre == interfaces@.take(i as int),
                *it == pre.last(),
                source_index_of(interfaces@, ip) == source_index_of(pre, ip),
                0 <= k <= it.ips@.len(),
                forall|j: int| 0 <= j < k ==> (#[trigger] it.ips@[j]).spec_ip() != ip,
            decreases it.ips@.len() - k,
        {
            if it.ips[k].ip() == ip {
                assert(it.ips@[k as int].spec_ip() == ip);
                assert(source_index_of(pre, ip) == i - 1);
                return Some(i - 1);
            }
            k = k + 1;
        }
        assert(pre.drop_last() =~= interfaces@.take(i - 1));
        i = i - 1;
    }
    None
}

/// The ranges of `rs` whose first fitting interface is `i`, in order.
pub open spec fn owned_ranges(rs: Seq<Ipv4Range>, ifs: Seq<Interface>, i: int) -> Seq<Ipv4Range>
    decreases rs.len(),
{
    if rs.len() == 0 {
        Seq::empty()
    } else if range_owner_index(ifs, rs.last()) == i {
        owned_ranges(rs.drop_last(), ifs, i).push(rs.last())
    } else {
        owned_ranges(rs.drop_last(), ifs, i)
    }
}

/// The addresses of the ranges of `rs` that no interface fits.
pub open spec fn unowned_addrs(rs: Seq<Ipv4Range>, ifs: Seq<Interface>) -> Set<IpAddr>
    decreases rs.len(),
{
    if rs.len() == 0 {
        Set::empty()
    } else if range_owner_index(ifs, rs.last()) < 0 {
        unowned_addrs(rs.drop_last(), ifs).union(range_addrs(rs.last()).to_set())
    } else {
        unowned_addrs(rs.drop_last(), ifs)
    }
}

/// Hands every range of a collection to the first interface that has an
/// IPv4 network holding the whole range. The result holds, per interface,
/// a collection of the ranges it got, and a collection of single addresses:
/// the collection's own singles and the addresses of every range that no
/// interface holds, still to be routed one by one.
pub fn assign_ranges(interfaces: &Vec<Interface>, collection: IpCollection) -> (r: (Vec<IpCollection>, IpCollection))
    requires
        forall|k: int|
            0 <= k < collection.spec_ranges().len() ==> range_size(#[trigger] collection.spec_ranges()[k])
                <= usize::MAX,
    ensures
        r.0@.len() == interfaces@.len(),
        forall|i: int|
            0 <= i < r.0@.len() ==> (#[trigger] r.0@[i]).spec_ranges() == owned_ranges(
                collection.spec_ranges(),
                interfaces@,
                i,
            ) && r.0@[i].spec_singles().len() == 0,
        r.1.spec_ranges().len() == 0,
        r.1.spec_singles().to_set() == collection.spec_singles().to_set().union(
            unowned_addrs(collection.spec_ranges(), interfaces@),
        ),
{
    let ghost rs0 = collection.spec_ranges();
    let ghost ss0 = collection.spec_singles();
    let (ranges, singles) = collection.into_parts();
    let nr = ranges.len();
    let mut owners: Vec<Option<usize>> = Vec::new();
    let mut k: usize = 0;
    let ni0 = interfaces.len();
    while k < nr
        invariant
            ni0 == interfaces@.len(),
            nr == ranges@.len(),
            0 <= k <= nr,
            owners@.len() == k,
            forall|j: int|
                0 <= j < k ==> match #[trigger] owners@[j] {
                    None => range_owner_index(interfaces@, ranges@[j]) < 0,
                    Some(o) => range_owner_index(interfaces@, ranges@[j]) == o,
                },
        decreases nr - k,
    {
        let o = range_owner(interfaces, &ranges[k]);
        proof {
            lemma_range_owner_index(interfaces@, ranges@[k as int]);
        }
        let ghost before = owners@;
        owners.push(o);
        assert forall|j: int| 0 <= j < k + 1 implies match #[trigger] owners@[j] {
            None => range_owner_index(interfaces@, ranges@[j]) < 0,
            Some(o) => range_owner_index(interfaces@, ranges@[j]) == o,
        } by {
            if j < k {
                assert(owners@[j] == before[j]);
            } else {
                assert(owners@[j] == o);
            }
        }
        k = k + 1;
    }
    let ni = interfaces.len();
    let mut per: Vec<IpCollection> = Vec::new();
    let mut i: usize = 0;
    while i < ni
        invariant
            ni == interfaces@.len(),
            nr == ranges@.len(),
            ranges@ == rs0,
            owners@.len() == nr,
            forall|j: int|
                0 <= j < nr ==> match #[trigger] owners@[j] {
                    None => range_owner_index(interfaces@, ranges@[j]) < 0,
                    Some(o) => range_owner_index(interfaces@, ranges@[j]) == o,
                },
            0 <= i <= ni,
            per@.len() == i,
            forall|x: int|
                0 <= x < i ==> (#[trigger] per@[x]).spec_ranges() == owned_ranges(rs0, interfaces@, x)
                    && per@[x].spec_singles().len() == 0,
        decreases ni - i,
    {
        let mut c = IpCollection::new();
        let mut m: usize = 0;
        while m < nr
            invariant
                nr == ranges@.len(),
                ranges@ == rs0,
                owners@.len() == nr,
                forall|j: int|
                    0 <= j < nr ==> match #[trigger] owners@[j] {
                        None => range_owner_index(interfaces@, ranges@[j]) < 0,
                        Some(o) => range_owner_index(interfaces@, ranges@[j]) == o,
                    },
                0 <= m <= nr,
                c.spec_ranges() == owned_ranges(rs0.take(m as int), interfaces@, i as int),
                c.spec_singles().len() == 0,
            decreases nr - m,
        {
            assert(rs0.take(m + 1).drop_last() =~= rs0.take(m as int));
            let hit = match owners[m] {
                Some(o) => o == i,
                None => false,
            };
            if hit {
                c.add_range(ranges[m]);
            }
            m = m + 1;
        }
        assert(rs0.take(nr as int) =~= rs0);
        per.push(c);
        i = i + 1;
    }
    let mut rest = IpCollection::new();
    let mut s: usize = 0;
    while s < singles.len()
        invariant
            0 <= s <= singles@.len(),
            singles@ == ss0,
            rest.spec_ranges().len() == 0,
            rest.spec_singles().to_set() == ss0.take(s as int).to_set(),
        decreases singles@.len() - s,
    {
        rest.add_single(singles[s]);
        proof {
            ss0.take(s as int).lemma_push_to_set_commute(singles@[s as int]);
            assert(ss0.take(s + 1) =~= ss0.take(s as int).push(singles@[s as int]));
        }
        s = s + 1;
    }
    assert(ss0.take(ss0.len() as int) =~= ss0);
    let mut m: usize = 0;
    while m < nr
        invariant
            nr == ranges@.len(),
            ranges@ == rs0,
            forall|k: int|
                0 <= k < rs0.len() ==> range_size(#[trigger] rs0[k]) <= usize::MAX,
            owners@.len() == nr,
            forall|j: int|
                0 <= j < nr ==> match #[trigger] owners@[j] {
                    None => range_owner_index(interfaces@, ranges@[j]) < 0,
                    Some(o) => range_owner_index(interfaces@, ranges@[j]) == o,
                },
            0 <= m <= nr,
            rest.spec_ranges().len() == 0,
            rest.spec_singles().to_set() == ss0.to_set().union(unowned_addrs(rs0.take(m as int), interfaces@)),
        decreases nr - m,
    {
        assert(rs0.take(m + 1).drop_last() =~= rs0.take(m as int));
        if owners[m].is_none() {
            let addrs = ranges[m].to_iter();
            let mut q: usize = 0;
            let ghost base = rest.spec_singles().to_set();
            while q < addrs.len()
                invariant
                    0 <= q <= addrs@.len(),
                    rest.spec_ranges().len() == 0,
                    rest.spec_singles().to_set() == base.union(addrs@.take(q as int).to_set()),
                decreases addrs@.len() - q,
            {
                rest.add_single(addrs[q]);
                proof {
                    addrs@.take(q as int).lemma_push_to_set_commute(addrs@[q as int]);
                    assert(addrs@.take(q + 1) =~= addrs@.take(q as int).push(addrs@[q as int]));
                }
                assert(rest.spec_singles().to_set() =~= base.union(addrs@.take(q + 1).to_set()));
                q = q + 1;
            }
            assert(addrs@.take(addrs@.len() as int) =~= addrs@);
        }
        assert(rest.spec_singles().to_set() =~= ss0.to_set().union(unowned_addrs(rs0.take(m + 1), interfaces@)));
        m = m + 1;
    }
    assert(rs0.take(nr as int) =~= rs0);
    (per, rest)
}

/// The interface a single address is routed through: the first interface
/// that has it on one of its networks, or else the interface that owns the
/// local address the system would send from, when that is known.
pub open spec fn route_of(ifs: Seq<Interface>, ip: IpAddr, source: Option<IpAddr>) -> int {
    if local_index(ifs, ip) >= 0 {
        local_index(ifs, ip)
    } else {
        match source {
            Some(s) => source_index_of(ifs, s),
            None => -1,
        }
    }
}

/// Routes each single address to an interface and adds it to that
/// interface's collection; `route_sources[k]` is the local address the
/// system would send from to reach `singles[k]`, when it could tell.
/// Addresses that no interface takes are dropped.
pub fn route_singles(
    interfaces: &Vec<Interface>,
    assigned: Vec<IpCollection>,
    singles: &Vec<IpAddr>,
    route_sources: &Vec<Option<IpAddr>>,
) -> (r: Vec<IpCollection>)
    requires
        assigned@.len() == interfaces@.len(),
        route_sources@.len() == singles@.len(),
    ensures
        r@.len() == interfaces@.len(),
        forall|i: int| 0 <= i < r@.len() ==> (#[trigger] r@[i]).spec_ranges() == assigned@[i].spec_ranges(),
        forall|i: int, x: IpAddr|
            0 <= i < r@.len() ==> (#[trigger] r@[i].spec_contains(x) <==> (assigned@[i].spec_contains(x)
                || exists|k: int|
                0 <= k < singles@.len() && singles@[k] == x && route_of(interfaces@, x, route_sources@[k]) == i)),
{
    let ghost a0 = assigned@;
    let mut out = assigned;
    let n_ifs = interfaces.len();
    let mut k: usize = 0;
    while k < singles.len()
        invariant
            n_ifs == interfaces@.len(),
            0 <= k <= singles@.len(),
            route_sources@.len() == singles@.len(),
            out@.len() == interfaces@.len(),
            a0.len() == interfaces@.len(),
            forall|i: int| 0 <= i < out@.len() ==> (#[trigger] out@[i]).spec_ranges() == a0[i].spec_ranges(),
            forall|i: int, x: IpAddr|
                0 <= i < out@.len() ==> (#[trigger] out@[i].spec_contains(x) <==> (a0[i].spec_contains(x)
                    || exists|q: int|
                    0 <= q < k && singles@[q] == x && route_of(interfaces@, x, route_sources@[q]) == i)),
        decreases singles@.len() - k,
    {
        let ip = singles[k];
        proof {
            lemma_local_index(interfaces@, ip);
        }
        let local = find_local_index(interfaces, ip);
        let target: Option<usize> = if local.is_some() {
            local
        } else {
            match route_sources[k] {
                Some(src) => {
                    proof {
                        lemma_source_index_bound(interfaces@, src);
                    }
                    source_index(interfaces, src)
                },
                None => None,
            }
        };
        let ghost before = out@;
        match target {
            Some(idx) => {
                let mut c = out.remove(idx);
                c.add_single(ip);
                out.insert(idx, c);
                proof {
                    assert(route_of(interfaces@, ip, route_sources@[k as int]) == idx);
                    assert forall|i: int| 0 <= i < out@.len() implies (#[trigger] out@[i]).spec_ranges() == a0[i].spec_ranges() by {
                        if i != idx {
                            assert(out@[i] == before[i]);
                        }
                    }
                    assert forall|i: int, x: IpAddr| 0 <= i < out@.len() implies (#[trigger] out@[i].spec_contains(x) <==> (a0[i].spec_contains(x)
                        || exists|q: int| 0 <= q < k + 1 && singles@[q] == x && route_of(interfaces@, x, route_sources@[q]) == i)) by {
                        if i != idx {
                            assert(out@[i] == before[i]);
                            if exists|q: int| 0 <= q < k + 1 && singles@[q] == x && route_of(interfaces@, x, route_sources@[q]) == i {
                                let q = choose|q: int| 0 <= q < k + 1 && singles@[q] == x && route_of(interfaces@, x, route_sources@[q]) == i;
                                assert(q < k);
                            }
                        } else {
                            assert(out@[i].spec_contains(x) <==> (before[i].spec_contains(x) || x == ip));
                            if x == ip {
                                assert(singles@[k as int] == x && route_of(interfaces@, x, route_sources@[k as int]) == i);
                            }
                            if exists|q: int| 0 <= q < k + 1 && singles@[q] == x && route_of(interfaces@, x, route_sources@[q]) == i {
                                let q = choose|q: int| 0 <= q < k + 1 && singles@[q] == x && route_of(interfaces@, x, route_sources@[q]) == i;
                                if q < k {
                                    assert(exists|q2: int| 0 <= q2 < k && singles@[q2] == x && route_of(interfaces@, x, route_sources@[q2]) == i);
                                }
                            }
                        }
                    }
                }
            },
            None => {
                proof {
                    assert(route_of(interfaces@, ip, route_sources@[k as int]) < 0);
                    assert forall|i: int, x: IpAddr| 0 <= i < out@.len() implies (#[trigger] out@[i].spec_contains(x) <==> (a0[i].spec_contains(x)
                        || exists|q: int| 0 <= q < k + 1 && singles@[q] == x && route_of(interfaces@, x, route_sources@[q]) == i)) by {
                        if exists|q: int| 0 <= q < k + 1 && singles@[q] == x && route_of(interfaces@, x, route_sources@[q]) == i {
                            let q = choose|q: int| 0 <= q < k + 1 && singles@[q] == x && route_of(interfaces@, x, route_sources@[q]) == i;
                            assert(q < k);
                        }
                    }
                }
            },
        }
        k = k + 1;
    }
    out
}

/// Indices of the collections that name at least one address, in order.
pub open spec fn nonempty_indices(cs: Seq<IpCollection>) -> Seq<int>
    decreases cs.len(),
{
    if cs.len() == 0 {
        Seq::empty()
    } else if cs.last().spec_ranges().len() == 0 && cs.last().spec_singles().len() == 0 {
        nonempty_indices(cs.drop_last())
    } else {
        nonempty_indices(cs.drop_last()).push(cs.len() - 1)
    }
}

proof fn lemma_nonempty_indices(cs: Seq<IpCollection>)
    ensures
        forall|j: int| 0 <= j < nonempty_indices(cs).len() ==> 0 <= #[trigger] nonempty_indices(cs)[j] < cs.len(),
        forall|j: int|
            0 <= j < nonempty_indices(cs).len() ==> !(cs[#[trigger] nonempty_indices(cs)[j]].spec_ranges().len()
                == 0 && cs[nonempty_indices(cs)[j]].spec_singles().len() == 0),
        forall|a: int, b: int|
            0 <= a < b < nonempty_indices(cs).len() ==> #[trigger] nonempty_indices(cs)[a]
                < #[trigger] nonempty_indices(cs)[b],
    decreases cs.len(),
{
    if cs.len() > 0 {
        let prev = nonempty_indices(cs.drop_last());
        let cur = nonempty_indices(cs);
        lemma_nonempty_indices(cs.drop_last());
        assert forall|j: int| 0 <= j < cur.len() implies 0 <= #[trigger] cur[j] < cs.len() && !(
        cs[cur[j]].spec_ranges().len() == 0 && cs[cur[j]].spec_singles().len() == 0) by {
            if j < prev.len() {
                assert(cur[j] == prev[j]);
                assert(cs[prev[j]] == cs.drop_last()[prev[j]]);
            }
        }
        assert forall|a: int, b: int| 0 <= a < b < cur.len() implies #[trigger] cur[a] < #[trigger] cur[b] by {
            assert(cur[a] == prev[a]);
            if b < prev.len() {
                assert(cur[b] == prev[b]);
            }
        }
    }
}

proof fn lemma_nonempty_indices_complete(cs: Seq<IpCollection>, i: int)
    requires
        0 <= i < cs.len(),
        !(cs[i].spec_ranges().len() == 0 && cs[i].spec_singles().len() == 0),
    ensures
        exists|j: int| 0 <= j < nonempty_indices(cs).len() && nonempty_indices(cs)[j] == i,
    decreases cs.len(),
{
    let prev = nonempty_indices(cs.drop_last());
    if i == cs.len() - 1 {
        assert(nonempty_indices(cs)[prev.len() as int] == i);
    } else {
        lemma_nonempty_indices_complete(cs.drop_last(), i);
        let j = choose|j: int| 0 <= j < prev.len() && prev[j] == i;
        assert(nonempty_indices(cs)[j] == i);
    }
}

/// Pairs each interface with the collection routed to it, leaving out the
/// interfaces that got nothing.
pub fn interfaces_with_targets(interfaces: &Vec<Interface>, per: Vec<IpCollection>) -> (r: Vec<(Interface, IpCollection)>)
    requires
        per@.len() == interfaces@.len(),
    ensures
        r@.len() == nonempty_indices(per@).len(),
        forall|j: int|
            0 <= j < r@.len() ==> (#[trigger] r@[j]).0.same_as(interfaces@[nonempty_indices(per@)[j]])
                && r@[j].1 == per@[nonempty_indices(per@)[j]],
{
    let ghost cs = per@;
    let n = per.len();
    let mut rest = per;
    let mut out: Vec<(Interface, IpCollection)> = Vec::new();
    let mut i: usize = 0;
    while i < n
        invariant
            n == cs.len(),
            cs.len() == interfaces@.len(),
            0 <= i <= n,
            rest@ == cs.skip(i as int),
            out@.len() == nonempty_indices(cs.take(i as int)).len(),
            forall|j: int|
                0 <= j < out@.len() ==> (#[trigger] out@[j]).0.same_as(interfaces@[nonempty_indices(cs.take(i as int))[j]])
                    && out@[j].1 == cs[nonempty_indices(cs.take(i as int))[j]],
        decreases n - i,
    {
        let c = rest.remove(0);
        assert(c == cs[i as int]);
        assert(cs.take(i + 1).drop_last() =~= cs.take(i as int));
        assert(rest@ =~= cs.skip(i + 1));
        proof {
            lemma_nonempty_indices(cs.take(i as int));
        }
        if !c.is_empty() {
            let it = interfaces[i].duplicate();
            out.push((it, c));
        }
        i = i + 1;
    }
    assert(cs.take(n as int) =~= cs);
    out
}

/// The local address that `lookup` gives as the route source of `x`: the
/// second part of the first pair whose first part is `x`.
pub open spec fn source_in(lookup: Seq<(IpAddr, IpAddr)>, x: IpAddr) -> Option<IpAddr>
    decreases lookup.len(),
{
    if lookup.len() == 0 {
        None
    } else if lookup[0].0 == x {
        Some(lookup[0].1)
    } else {
        source_in(lookup.drop_first(), x)
    }
}

fn find_source(lookup: &Vec<(IpAddr, IpAddr)>, x: IpAddr) -> (r: Option<IpAddr>)
    ensures
        r == source_in(lookup@, x),
{
    let n = lookup.len();
    let mut k: usize = 0;
    assert(lookup@.skip(0) =~= lookup@);
    while k < n
        invariant
            n == lookup@.len(),
            0 <= k <= n,
            source_in(lookup@, x) == source_in(lookup@.skip(k as int), x),
        decreases n - k,
    {
        assert(lookup@.skip(k as int)[0] == lookup@[k as int]);
        assert(lookup@.skip(k as int).drop_first() =~= lookup@.skip(k + 1));
        if lookup[k].0 == x {
            return Some(lookup[k].1);
        }
        k = k + 1;
    }
    None
}

/// Whether `x` goes through interface `i` when the collection of ranges
/// `rs` and single addresses `ss` is routed over `ifs`: it lies in a range
/// that `i` owns (the first interface whose network holds the whole range),
/// or it is a single, or an address of a range no interface owns, and
/// `route_of` sends it to `i` with the route source that `lookup` gives.
pub open spec fn routed_to(
    ifs: Seq<Interface>,
    rs: Seq<Ipv4Range>,
    ss: Set<IpAddr>,
    lookup: Seq<(IpAddr, IpAddr)>,
    x: IpAddr,
    i: int,
) -> bool {
    ||| (x matches IpAddr::V4(a) && exists|k: int|
        0 <= k < owned_ranges(rs, ifs, i).len() && range_holds(#[trigger] owned_ranges(rs, ifs, i)[k], a))
    ||| (ss.union(unowned_addrs(rs, ifs)).contains(x) && route_of(ifs, x, source_in(lookup, x)) == i)
}

/// Appends the addresses of `addrs` that no interface has on one of its
/// networks.
fn push_unlocal(interfaces: &Vec<Interface>, out: &mut Vec<IpAddr>, addrs: &Vec<IpAddr>)
    ensures
        forall|y: IpAddr|
            #[trigger] final(out)@.contains(y) <==> (old(out)@.contains(y) || (addrs@.contains(y) && local_index(
                interfaces@,
                y,
            ) < 0)),
{
    let ghost base = out@;
    let mut q: usize = 0;
    while q < addrs.len()
        invariant
            0 <= q <= addrs@.len(),
            forall|y: IpAddr|
                #[trigger] out@.contains(y) <==> (base.contains(y) || (addrs@.take(q as int).contains(y) && local_index(
                    interfaces@,
                    y,
                ) < 0)),
        decreases addrs@.len() - q,
    {
        let x = addrs[q];
        let ghost q0 = q;
        let ghost before = out@;
        if find_local_index(interfaces, x).is_none() {
            out.push(x);
        }
        q = q + 1;
        assert(addrs@.take(q as int) =~= addrs@.take(q0 as int).push(x));
        assert forall|y: IpAddr| #[trigger] out@.contains(y) <==> (base.contains(y) || (addrs@.take(q as int).contains(y)
            && local_index(interfaces@, y) < 0)) by {
            lemma_push_contains(addrs@.take(q0 as int), x, y);
            lemma_push_contains(before, x, y);
        }
    }
    assert(addrs@.take(addrs@.len() as int) =~= addrs@);
}

/// The addresses of a collection whose route only the system can tell:
/// the singles and the addresses of the ranges that no interface owns, that
/// no interface has on one of its networks.
pub fn routing_queries(interfaces: &Vec<Interface>, collection: &IpCollection) -> (r: Vec<IpAddr>)
    requires
        forall|k: int|
            0 <= k < collection.spec_ranges().len() ==> range_size(#[trigger] collection.spec_ranges()[k])
                <= usize::MAX,
    ensures
        forall|x: IpAddr|
            r@.contains(x) <==> (collection.spec_singles().to_set().union(
                unowned_addrs(collection.spec_ranges(), interfaces@),
            ).contains(x) && local_index(interfaces@, x) < 0),
{
    let ghost rs = collection.spec_ranges();
    let ghost ss = collection.spec_singles();
    let ranges = collection.ranges();
    let singles = collection.singles();
    let mut out: Vec<IpAddr> = Vec::new();
    push_unlocal(interfaces, &mut out, singles);
    let mut m: usize = 0;
    while m < ranges.len()
        invariant
            0 <= m <= ranges@.len(),
            ranges@ == rs,
            forall|q: int| 0 <= q < rs.len() ==> range_size(#[trigger] rs[q]) <= usize::MAX,
            forall|x: IpAddr|
                #[trigger] out@.contains(x) <==> ((ss.contains(x) || unowned_addrs(rs.take(m as int), interfaces@).contains(x))
                    && local_index(interfaces@, x) < 0),
        decreases ranges@.len() - m,
    {
        assert(rs.take(m + 1).drop_last() =~= rs.take(m as int));
        assert(rs.take(m + 1).last() == rs[m as int]);
        proof {
            lemma_range_owner_index(interfaces@, rs[m as int]);
        }
        if range_owner(interfaces, &ranges[m]).is_none() {
            let addrs = ranges[m].to_iter();
            let ghost before = out@;
            push_unlocal(interfaces, &mut out, &addrs);
            assert forall|x: IpAddr| out@.contains(x) <==> ((ss.contains(x) || unowned_addrs(rs.take(m + 1), interfaces@).contains(x))
                && local_index(interfaces@, x) < 0) by {
                assert(addrs@.contains(x) <==> range_addrs(rs[m as int]).to_set().contains(x));
            }
        } else {
            assert(unowned_addrs(rs.take(m + 1), interfaces@) == unowned_addrs(rs.take(m as int), interfaces@));
        }
        m = m + 1;
    }
    assert(rs.take(rs.len() as int) =~= rs);
    assert forall|x: IpAddr| out@.contains(x) <==> (ss.to_set().union(unowned_addrs(rs, interfaces@)).contains(x)
        && local_index(interfaces@, x) < 0) by {
        assert(ss.to_set().contains(x) <==> ss.contains(x));
    }
    out
}

/// Every interface that `listed_all` keeps is worth listing.
proof fn lemma_listed_all(ifs: Seq<Interface>)
    ensures
        forall|k: int| 0 <= k < listed_all(ifs).len() ==> listed(#[trigger] listed_all(ifs)[k]),
    decreases ifs.len(),
{
    if ifs.len() > 0 {
        let prev = listed_all(ifs.drop_last());
        lemma_listed_all(ifs.drop_last());
        assert forall|k: int| 0 <= k < listed_all(ifs).len() implies listed(#[trigger] listed_all(ifs)[k]) by {
            if k < prev.len() {
                assert(listed_all(ifs)[k] == prev[k]);
            }
        }
    }
}

/// `r` pairs interfaces of `ifs` with their targets, the pair `j` standing
/// for the interface at position `pos[j]`: each pair holds that interface
/// with exactly the ranges it owns and exactly the addresses routed to it,
/// the positions are strictly increasing (so no interface comes twice, and
/// the order is that of `ifs`), and every interface that has an address
/// routed to it has its pair.
pub open spec fn routes_placed(
    ifs: Seq<Interface>,
    rs: Seq<Ipv4Range>,
    ss: Set<IpAddr>,
    lookup: Seq<(IpAddr, IpAddr)>,
    r: Seq<(Interface, IpCollection)>,
    pos: Seq<int>,
) -> bool {
    &&& pos.len() == r.len()
    &&& forall|j: int|
        0 <= j < r.len() ==> {
            &&& 0 <= pos[j] < ifs.len()
            &&& (#[trigger] r[j]).0.same_as(ifs[pos[j]])
            &&& r[j].1.spec_ranges() == owned_ranges(rs, ifs, pos[j])
            &&& forall|x: IpAddr| r[j].1.spec_contains(x) <==> routed_to(ifs, rs, ss, lookup, x, pos[j])
        }
    &&& forall|a: int, b: int| 0 <= a < b < pos.len() ==> #[trigger] pos[a] < #[trigger] pos[b]
    &&& forall|i: int, x: IpAddr|
        0 <= i < ifs.len() && #[trigger] routed_to(ifs, rs, ss, lookup, x, i) ==> exists|j: int|
            0 <= j < pos.len() && pos[j] == i
}

/// Maps the targets of a collection to the interfaces that reach them.
/// Only the interfaces worth routing to take part (up, no loopback, with
/// at least one network, see `routable_interfaces`): ranges stay whole on
/// the interface that owns them, every other address is routed on its own,
/// through the interface whose network holds it or else the one that owns
/// its route source as `lookup` gives it. Each interface that gets
/// something comes once, in the order given, with exactly the addresses
/// routed to it; one that gets nothing is left out.
pub fn map_ips_to_interfaces(
    interfaces: Vec<Interface>,
    collection: IpCollection,
    lookup: &Vec<(IpAddr, IpAddr)>,
) -> (r: Vec<(Interface, IpCollection)>)
    requires
        forall|k: int|
            0 <= k < collection.spec_ranges().len() ==> range_size(#[trigger] collection.spec_ranges()[k])
                <= usize::MAX,
    ensures
        exists|pos: Seq<int>|
            #[trigger] routes_placed(
                listed_all(interfaces@),
                collection.spec_ranges(),
                collection.spec_singles().to_set(),
                lookup@,
                r@,
                pos,
            ),
        forall|j: int| 0 <= j < r@.len() ==> listed(#[trigger] r@[j].0),
        forall|j: int|
            0 <= j < r@.len() ==> !((#[trigger] r@[j]).1.spec_ranges().len() == 0 && r@[j].1.spec_singles().len()
                == 0),
{
    let ghost rs = collection.spec_ranges();
    let ghost ss = collection.spec_singles().to_set();
    let ghost given = interfaces@;
    let interfaces = routable_interfaces(interfaces);
    let ghost ifs = interfaces@;
    proof {
        lemma_listed_all(given);
    }
    let (assigned, rest) = assign_ranges(&interfaces, collection);
    let singles: Vec<IpAddr> = rest.singles().clone();
    assert(singles@ =~= rest.spec_singles());
    let mut sources: Vec<Option<IpAddr>> = Vec::new();
    let mut k: usize = 0;
    while k < singles.len()
        invariant
            0 <= k <= singles@.len(),
            sources@.len() == k,
            forall|q: int| 0 <= q < k ==> #[trigger] sources@[q] == source_in(lookup@, singles@[q]),
        decreases singles@.len() - k,
    {
        let src = find_source(lookup, singles[k]);
        sources.push(src);
        k = k + 1;
    }
    let ghost a0 = assigned@;
    let per = route_singles(&interfaces, assigned, &singles, &sources);
    let ghost p = per@;
    proof {
        assert forall|i: int, x: IpAddr| 0 <= i < p.len() implies (#[trigger] p[i].spec_contains(x)
            <==> routed_to(ifs, rs, ss, lookup@, x, i)) by {
            if exists|q: int| 0 <= q < singles@.len() && singles@[q] == x && route_of(ifs, x, sources@[q]) == i {
                let q = choose|q: int| 0 <= q < singles@.len() && singles@[q] == x && route_of(ifs, x, sources@[q]) == i;
                assert(singles@.to_set().contains(x));
            }
            if ss.union(unowned_addrs(rs, ifs)).contains(x) && route_of(ifs, x, source_in(lookup@, x)) == i {
                assert(singles@.to_set().contains(x));
                assert(singles@.contains(x));
                let q = choose|q: int| 0 <= q < singles@.len() && singles@[q] == x;
                assert(sources@[q] == source_in(lookup@, x));
            }
            assert(a0[i].spec_singles().len() == 0);
            assert(!a0[i].spec_singles().contains(x));
        }
        lemma_nonempty_indices(p);
    }
    let r = interfaces_with_targets(&interfaces, per);
    proof {
        let idx = nonempty_indices(p);
        assert forall|j: int| 0 <= j < r@.len() implies {
            &&& 0 <= idx[j] < ifs.len()
            &&& (#[trigger] r@[j]).0.same_as(ifs[idx[j]])
            &&& r@[j].1.spec_ranges() == owned_ranges(rs, ifs, idx[j])
            &&& forall|x: IpAddr| r@[j].1.spec_contains(x) <==> routed_to(ifs, rs, ss, lookup@, x, idx[j])
        } by {
            let i = idx[j];
            assert(p[i].spec_ranges() == a0[i].spec_ranges());
            assert forall|x: IpAddr| r@[j].1.spec_contains(x) <==> routed_to(ifs, rs, ss, lookup@, x, i) by {
                assert(p[i].spec_contains(x) <==> routed_to(ifs, rs, ss, lookup@, x, i));
            }
        }
        assert forall|i: int, x: IpAddr| 0 <= i < ifs.len() && #[trigger] routed_to(ifs, rs, ss, lookup@, x, i)
            implies exists|j: int| 0 <= j < idx.len() && idx[j] == i by {
            assert(p[i].spec_contains(x) <==> routed_to(ifs, rs, ss, lookup@, x, i));
            assert(p[i].spec_contains(x));
            if p[i].spec_ranges().len() == 0 && p[i].spec_singles().len() == 0 {
                assert(false);
            }
            lemma_nonempty_indices_complete(p, i);
        }
        assert(routes_placed(ifs, rs, ss, lookup@, r@, idx));
        assert forall|j: int| 0 <= j < r@.len() implies listed(#[trigger] r@[j].0) by {
            assert(r@[j].0.same_as(ifs[idx[j]]));
            assert(listed(ifs[idx[j]]));
        }
        assert forall|j: int| 0 <= j < r@.len() implies !((#[trigger] r@[j]).1.spec_ranges().len() == 0
            && r@[j].1.spec_singles().len() == 0) by {
            assert(r@[j].1 == p[idx[j]]);
        }
    }
    r
}

proof fn lemma_source_index_bound(ifs: Seq<Interface>, ip: IpAddr)
    ensures
        -1 <= source_index_of(ifs, ip) < ifs.len(),
    decreases ifs.len(),
{
    if ifs.len() > 0 {
        lemma_source_index_bound(ifs.drop_last(), ip);
    }
}

} // verus!
