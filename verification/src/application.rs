//! The discovery use case: which addresses to probe and through which
//! interface, how the hosts found are completed and ordered, and the walk
//! of a handshake sweep.

use vstd::prelude::*;
use crate::adapters::{mac_text, oui_company, MacOuiRepo};
use crate::addr::{ip_rank, IpAddr, Ipv4Addr, MacAddr};
use crate::domain::host::{InternalHost, ExternalHost};
use crate::domain::range::{span, Ipv4Range};
use crate::domain::system::{ascending, insert_sorted};
use crate::domain::target::Target;
use crate::engine::{with_ip, EngineHost};
use crate::net::packets::{frame_reading, handle_frame};
use crate::net::sender::{first_link_local_of, SenderConfig};
use crate::net::datalink::channel::SenderContext;
use crate::iface::Interface;
use crate::net::interface::{first_v4, get_lan, lan_available, lan_pick, engine_candidates};
use crate::net::ip::{is_private, spec_is_private};

verus! {

/// The IPv4 addresses from `start` to `end`, in ascending order.
pub open spec fn v4_addrs(start: u32, end: u32) -> Seq<IpAddr> {
    span(start, end).map_values(|b: u32| IpAddr::V4(Ipv4Addr { bits: b }))
}

/// The LAN interface, when there is one.
pub open spec fn lan_if_any(ifs: Seq<Interface>, physical: Seq<bool>, wireless: Seq<bool>) -> Option<Interface> {
    if engine_candidates(ifs, physical).len() > 0 {
        Some(ifs[lan_pick(ifs, physical, wireless)])
    } else {
        None
    }
}

/// What a discovery of `target` probes and through which interface; the
/// interface is given by its index in `ifs`.
pub open spec fn discovery_plan(target: Target, ifs: Seq<Interface>, physical: Seq<bool>, wireless: Seq<bool>) -> Result<(Seq<IpAddr>, Option<Interface>), Seq<char>> {
    match target {
        Target::LAN => if engine_candidates(ifs, physical).len() == 0 {
            Err("Failed to detect LAN interface for discovery"@)
        } else {
            let intf = ifs[lan_pick(ifs, physical, wireless)];
            match first_v4(intf.ips@) {
                None => Err("LAN interface has no valid IPv4 range"@),
                Some(net) => Ok((v4_addrs(net.spec_network(), net.spec_broadcast()), Some(intf))),
            }
        },
        Target::Host { target_addr } => Ok((
            seq![target_addr],
            if spec_is_private(target_addr) {
                lan_if_any(ifs, physical, wireless)
            } else {
                None
            },
        )),
        Target::Range { ipv4_range } => Ok((
            v4_addrs(ipv4_range.start_addr.bits, ipv4_range.end_addr.bits),
            if spec_is_private(IpAddr::V4(ipv4_range.start_addr)) && spec_is_private(IpAddr::V4(ipv4_range.end_addr)) {
                lan_if_any(ifs, physical, wireless)
            } else {
                None
            },
        )),
        Target::VPN => Err("Target::VPN is currently unimplemented!"@),
    }
}

/// The plan's address list, when it has one, fits in memory.
pub open spec fn plan_fits(plan: Result<(Seq<IpAddr>, Option<Interface>), Seq<char>>) -> bool {
    match plan {
        Ok(p) => p.0.len() <= usize::MAX,
        Err(_) => true,
    }
}

/// Whether an interface picked matches the one planned.
pub open spec fn same_choice(a: Option<Interface>, b: Option<Interface>) -> bool {
    match (a, b) {
        (None, None) => true,
        (Some(x), Some(y)) => x.same_as(y),
        _ => false,
    }
}

/// The result of `get_targets_and_lan_intf` against the plan.
pub open spec fn plan_matches(r: Result<(Vec<IpAddr>, Option<Interface>), String>, plan: Result<(Seq<IpAddr>, Option<Interface>), Seq<char>>) -> bool {
    match (r, plan) {
        (Ok(v), Ok(p)) => v.0@ == p.0 && same_choice(v.1, p.1),
        (Err(e), Err(m)) => e@ == m,
        _ => false,
    }
}

fn lan_if_available(interfaces: &Vec<Interface>, physical: &Vec<bool>, wireless: &Vec<bool>) -> (r: Option<Interface>)
    requires
        physical@.len() == interfaces@.len(),
        wireless@.len() == interfaces@.len(),
    ensures
        same_choice(r, lan_if_any(interfaces@, physical@, wireless@)),
{
    if lan_available(interfaces, physical) {
        Some(get_lan(interfaces, physical, wireless))
    } else {
        None
    }
}

/// The addresses to probe for `target` and the interface to probe them
/// through, if any; `physical[i]` and `wireless[i]` describe
/// `interfaces[i]`.
pub fn get_targets_and_lan_intf(target: &Target, interfaces: &Vec<Interface>, physical: &Vec<bool>, wireless: &Vec<bool>) -> (r: Result<(Vec<IpAddr>, Option<Interface>), String>)
    requires
        physical@.len() == interfaces@.len(),
        wireless@.len() == interfaces@.len(),
        plan_fits(discovery_plan(*target, interfaces@, physical@, wireless@)),
    ensures
        plan_matches(r, discovery_plan(*target, interfaces@, physical@, wireless@)),
{
    match target {
        Target::LAN => {
            if !lan_available(interfaces, physical) {
                return Err(String::from_str("Failed to detect LAN interface for discovery"));
            }
            let intf = get_lan(interfaces, physical, wireless);
            let net = match intf.get_ipv4_net() {
                Some(n) => n,
                None => {
                    return Err(String::from_str("LAN interface has no valid IPv4 range"));
                },
            };
            let range = Ipv4Range::new(net.network(), net.broadcast());
            let targets = range.to_iter();
            proof {
                assert(targets@ =~= v4_addrs(net.spec_network(), net.spec_broadcast()));
            }
            Ok((targets, Some(intf)))
        },
        Target::Host { target_addr } => {
            let mut targets: Vec<IpAddr> = Vec::new();
            targets.push(*target_addr);
            let intf = if is_private(*target_addr) {
                lan_if_available(interfaces, physical, wireless)
            } else {
                None
            };
            proof {
                assert(targets@ =~= seq![*target_addr]);
            }
            Ok((targets, intf))
        },
        Target::Range { ipv4_range } => {
            let targets = ipv4_range.to_iter();
            let start = IpAddr::V4(ipv4_range.start_addr);
            let end = IpAddr::V4(ipv4_range.end_addr);
            let intf = if is_private(start) && is_private(end) {
                lan_if_available(interfaces, physical, wireless)
            } else {
                None
            };
            proof {
                assert(targets@ =~= v4_addrs(ipv4_range.start_addr.bits, ipv4_range.end_addr.bits));
            }
            Ok((targets, intf))
        },
        Target::VPN => Err(String::from_str("Target::VPN is currently unimplemented!")),
    }
}

/// How a discovery probes: by TCP handshakes, or by link-layer discovery on
/// the LAN interface.
#[derive(Clone, Copy, Debug, PartialEq, Eq, Structural)]
pub enum DiscoveryMode {
    Handshake,
    Lan,
}

/// Link-layer discovery needs root privileges and a LAN interface; without
/// either the discovery falls back to TCP handshakes.
pub fn discovery_mode(is_root: bool, has_lan_interface: bool) -> (r: DiscoveryMode)
    ensures
        r == (if is_root && has_lan_interface {
            DiscoveryMode::Lan
        } else {
            DiscoveryMode::Handshake
        }),
{
    if !is_root {
        DiscoveryMode::Handshake
    } else if has_lan_interface {
        DiscoveryMode::Lan
    } else {
        DiscoveryMode::Handshake
    }
}

/// The host that the report shows for a station the engine heard: named
/// "No hostname" until a name is known, with its addresses in ascending
/// order, each once.
pub fn internal_from_engine(eh: EngineHost) -> (r: InternalHost)
    ensures
        r.mac_addr == eh.mac,
        eh.hostname is None ==> r.hostname@ == "No hostname"@,
        eh.hostname matches Some(h) ==> r.hostname == h,
        ascending(r.ips@),
        forall|x: IpAddr| r.ips@.contains(x) <==> eh.ips@.contains(x),
        r.vendor is None,
        r._ports@ == Seq::<u16>::empty(),
        r.network_roles@.len() == 0,
{
    let mut ips: Vec<IpAddr> = Vec::new();
    let mut i: usize = 0;
    while i < eh.ips.len()
        invariant
            0 <= i <= eh.ips@.len(),
            ascending(ips@),
            forall|x: IpAddr| ips@.contains(x) <==> eh.ips@.take(i as int).contains(x),
        decreases eh.ips@.len() - i,
    {
        let ghost before = ips@;
        insert_sorted(&mut ips, eh.ips[i]);
        proof {
            assert forall|x: IpAddr| ips@.contains(x) <==> eh.ips@.take(i + 1).contains(x) by {
                assert(eh.ips@.take(i + 1) =~= eh.ips@.take(i as int).push(eh.ips@[i as int]));
                crate::net::sender::lemma_push_contains(eh.ips@.take(i as int), eh.ips@[i as int], x);
            }
        }
        i = i + 1;
    }
    proof {
        assert(eh.ips@.take(eh.ips@.len() as int) =~= eh.ips@);
    }
    let hostname = match eh.hostname {
        Some(h) => h,
        None => String::from_str("No hostname"),
    };
    InternalHost {
        hostname,
        ips,
        _ports: Vec::new(),
        mac_addr: eh.mac,
        vendor: None,
        network_roles: Vec::new(),
    }
}

/// Fills in the vendor of each host that the database knows; the others
/// are left as they are.
pub fn enrich_vendors(repo: &MacOuiRepo, hosts: &mut Vec<InternalHost>)
    ensures
        final(hosts)@.len() == old(hosts)@.len(),
        forall|i: int| 0 <= i < final(hosts)@.len() ==> {
            let h = #[trigger] final(hosts)@[i];
            let o = old(hosts)@[i];
            &&& h.mac_addr == o.mac_addr
            &&& h.hostname == o.hostname
            &&& h.ips@ == o.ips@
            &&& match oui_company(mac_text(o.mac_addr)) {
                Some(c) => h.vendor matches Some(v) && v@ == c,
                None => h.vendor == o.vendor,
            }
        },
{
    let ghost orig = hosts@;
    let n = hosts.len();
    let mut i: usize = 0;
    while i < n
        invariant
            n == hosts@.len(),
            n == orig.len(),
            0 <= i <= n,
            forall|j: int| i <= j < n ==> hosts@[j] == orig[j],
            forall|j: int| 0 <= j < i ==> {
                let h = #[trigger] hosts@[j];
                let o = orig[j];
                &&& h.mac_addr == o.mac_addr
                &&& h.hostname == o.hostname
                &&& h.ips@ == o.ips@
                &&& match oui_company(mac_text(o.mac_addr)) {
                    Some(c) => h.vendor matches Some(v) && v@ == c,
                    None => h.vendor == o.vendor,
                }
            },
        decreases n - i,
    {
        let mac = hosts[i].mac_addr;
        match repo.get_vendor(mac) {
            Some(vendor) => {
                let mut h = hosts.remove(i);
                h.vendor = Some(vendor);
                hosts.insert(i, h);
            },
            None => {},
        }
        i = i + 1;
    }
}

/// The rank of a host's primary address in the report's order: hosts with
/// no address come first.
pub open spec fn key_rank(k: Option<IpAddr>) -> int {
    match k {
        None => -1,
        Some(a) => ip_rank(a),
    }
}

/// The positions are in the order of their keys, and positions with equal
/// keys in their own order.
pub open spec fn stable_order(keys: Seq<Option<IpAddr>>, order: Seq<usize>) -> bool {
    forall|a: int, b: int|
        0 <= a < b < order.len() ==> key_rank(keys[#[trigger] order[a] as int]) < key_rank(keys[#[trigger] order[b] as int])
            || (key_rank(keys[order[a] as int]) == key_rank(keys[order[b] as int]) && order[a] < order[b])
}

fn rank_before(keys: &Vec<Option<IpAddr>>, a: usize, b: usize) -> (r: bool)
    requires
        a < keys@.len(),
        b < keys@.len(),
    ensures
        r == (key_rank(keys@[a as int]) < key_rank(keys@[b as int]) || (key_rank(keys@[a as int])
            == key_rank(keys@[b as int]) && a < b)),
{
    let ka = keys[a];
    let kb = keys[b];
    match (ka, kb) {
        (None, None) => a < b,
        (None, Some(_)) => true,
        (Some(_), None) => false,
        (Some(x), Some(y)) => {
            if x.lt(&y) {
                true
            } else if y.lt(&x) {
                false
            } else {
                a < b
            }
        },
    }
}

/// The order in which the report lists hosts, sorted by primary address
/// with ties kept in their given order: position `i` of the result is the
/// index of the host listed `i`-th.
pub fn order_by_primary_ip(keys: &Vec<Option<IpAddr>>) -> (r: Vec<usize>)
    ensures
        r@.len() == keys@.len(),
        r@.no_duplicates(),
        forall|i: int| 0 <= i < r@.len() ==> #[trigger] r@[i] < keys@.len(),
        stable_order(keys@, r@),
{
    let n = keys.len();
    let mut order: Vec<usize> = Vec::new();
    let mut i: usize = 0;
    while i < n
        invariant
            n == keys@.len(),
            0 <= i <= n,
            order@.len() == i,
            order@.no_duplicates(),
            forall|k: int| 0 <= k < order@.len() ==> #[trigger] order@[k] < i,
            stable_order(keys@, order@),
        decreases n - i,
    {
        let m = order.len();
        let mut p: usize = 0;
        while p < m
            invariant
                m == order@.len(),
                0 <= p <= m,
                n == keys@.len(),
                i < n,
                forall|k: int| 0 <= k < order@.len() ==> #[trigger] order@[k] < i,
                forall|k: int| 0 <= k < p ==> (key_rank(keys@[#[trigger] order@[k] as int]) < key_rank(keys@[i as int])
                    || (key_rank(keys@[order@[k] as int]) == key_rank(keys@[i as int]) && order@[k] < i)),
            ensures
                0 <= p <= m,
                forall|k: int| 0 <= k < p ==> (key_rank(keys@[#[trigger] order@[k] as int]) < key_rank(keys@[i as int])
                    || (key_rank(keys@[order@[k] as int]) == key_rank(keys@[i as int]) && order@[k] < i)),
                p < m ==> !(key_rank(keys@[order@[p as int] as int]) < key_rank(keys@[i as int])
                    || (key_rank(keys@[order@[p as int] as int]) == key_rank(keys@[i as int]) && order@[p as int] < i)),
            decreases m - p,
        {
            if !rank_before(keys, order[p], i) {
                break;
            }
            p = p + 1;
        }
        let ghost old_order = order@;
        order.insert(p, i);
        proof {
            let s = order@;
            assert(s =~= old_order.insert(p as int, i));
            assert forall|k: int| 0 <= k < s.len() implies #[trigger] s[k] < i + 1 by {
                if k < p {
                    assert(s[k] == old_order[k]);
                } else if k > p {
                    assert(s[k] == old_order[k - 1]);
                }
            }
            assert forall|a: int, b: int| 0 <= a < b < s.len() implies s[a] != s[b] by {
                if a < p && b < p {
                    assert(s[a] == old_order[a] && s[b] == old_order[b]);
                } else if a < p && b == p {
                    assert(s[a] == old_order[a]);
                } else if a < p && b > p {
                    assert(s[a] == old_order[a] && s[b] == old_order[b - 1]);
                } else if a == p {
                    assert(s[b] == old_order[b - 1]);
                } else {
                    assert(s[a] == old_order[a - 1] && s[b] == old_order[b - 1]);
                }
            }
            assert forall|a: int, b: int| 0 <= a < b < s.len() implies key_rank(keys@[#[trigger] s[a] as int]) < key_rank(keys@[#[trigger] s[b] as int])
                || (key_rank(keys@[s[a] as int]) == key_rank(keys@[s[b] as int]) && s[a] < s[b]) by {
                if a < p && b < p {
                    assert(s[a] == old_order[a] && s[b] == old_order[b]);
                } else if a < p && b == p {
                    assert(s[a] == old_order[a]);
                } else if a < p && b > p {
                    assert(s[a] == old_order[a] && s[b] == old_order[b - 1]);
                    if b - 1 > p {
                        assert(key_rank(keys@[old_order[p as int] as int]) < key_rank(keys@[old_order[b - 1] as int])
                            || (key_rank(keys@[old_order[p as int] as int]) == key_rank(keys@[old_order[b - 1] as int]) && old_order[p as int] < old_order[b - 1]));
                    }
                } else if a == p {
                    assert(s[b] == old_order[b - 1]);
                    if b - 1 > p {
                        assert(key_rank(keys@[old_order[p as int] as int]) < key_rank(keys@[old_order[b - 1] as int])
                            || (key_rank(keys@[old_order[p as int] as int]) == key_rank(keys@[old_order[b - 1] as int]) && old_order[p as int] < old_order[b - 1]));
                    }
                } else {
                    assert(s[a] == old_order[a - 1] && s[b] == old_order[b - 1]);
                }
            }
        }
        i = i + 1;
    }
    order
}

/// A TCP handshake sweep over a range of addresses: the caller probes each
/// address that `next_target` hands out, in order, and records the probe's
/// outcome. A probe that fails ends the sweep with its error.
pub struct HandshakeSweep {
    listed: Option<Vec<IpAddr>>,
    pos: usize,
    next: u32,
    end: u32,
    done: bool,
    found: Vec<ExternalHost>,
    failure: Option<String>,
}

/// The addresses of a span, as IPv4 addresses.
pub open spec fn span_addrs(start: u32, end: u32) -> Seq<IpAddr> {
    span(start, end).map_values(|b: u32| IpAddr::V4(Ipv4Addr { bits: b }))
}

impl HandshakeSweep {
    /// The addresses not handed out yet, in order.
    pub closed spec fn pending(self) -> Seq<IpAddr> {
        if self.done {
            Seq::empty()
        } else {
            match self.listed {
                Some(v) => if self.pos <= v@.len() {
                    v@.skip(self.pos as int)
                } else {
                    Seq::empty()
                },
                None => span_addrs(self.next, self.end),
            }
        }
    }

    /// The hosts recorded so far, in order.
    pub closed spec fn found(self) -> Seq<ExternalHost> {
        self.found@
    }

    /// The error of the probe that ended the sweep, if one did.
    pub closed spec fn failure(self) -> Option<String> {
        self.failure
    }

    /// A sweep over `range`, nothing found yet.
    pub fn new(range: &Ipv4Range) -> (r: Self)
        ensures
            r.pending() == span_addrs(range.start_addr.bits, range.end_addr.bits),
            r.found() == Seq::<ExternalHost>::empty(),
            r.failure() is None,
    {
        let r = HandshakeSweep {
            listed: None,
            pos: 0,
            next: range.start_addr.bits,
            end: range.end_addr.bits,
            done: range.start_addr.bits > range.end_addr.bits,
            found: Vec::new(),
            failure: None,
        };
        assert(r.pending() =~= span_addrs(range.start_addr.bits, range.end_addr.bits));
        r
    }

    /// A sweep over the listed addresses, in order, nothing found yet.
    pub fn over(targets: Vec<IpAddr>) -> (r: Self)
        ensures
            r.pending() == targets@,
            r.found() == Seq::<ExternalHost>::empty(),
            r.failure() is None,
    {
        let ghost t = targets@;
        let r = HandshakeSweep {
            listed: Some(targets),
            pos: 0,
            next: 0,
            end: 0,
            done: false,
            found: Vec::new(),
            failure: None,
        };
        assert(t.skip(0) =~= t);
        r
    }

    /// The next address to probe, or none when the sweep is over.
    pub fn next_target(&mut self) -> (r: Option<IpAddr>)
        ensures
            old(self).pending().len() == 0 ==> r is None && final(self).pending() == old(self).pending(),
            old(self).pending().len() > 0 ==> r == Some(old(self).pending()[0]) && final(self).pending()
                == old(self).pending().drop_first(),
            final(self).found() == old(self).found(),
            final(self).failure() == old(self).failure(),
    {
        if self.done {
            return None;
        }
        match &self.listed {
            Some(v) => {
                if self.pos >= v.len() {
                    return None;
                }
                let ip = v[self.pos];
                proof {
                    assert(v@.skip(self.pos + 1) =~= v@.skip(self.pos as int).drop_first());
                }
                self.pos = self.pos + 1;
                return Some(ip);
            },
            None => {},
        }
        if self.next > self.end {
            return None;
        }
        let ip = self.next;
        if self.next == self.end {
            self.done = true;
        } else {
            self.next = self.next + 1;
        }
        proof {
            if !self.done {
                assert(span_addrs(self.next, self.end) =~= span_addrs(old(self).next, old(self).end).drop_first());
            } else {
                assert(span_addrs(old(self).next, old(self).end).drop_first() =~= Seq::<IpAddr>::empty());
            }
        }
        Some(IpAddr::V4(Ipv4Addr { bits: ip }))
    }

    /// Records the outcome of the probe of the last address: a host found,
    /// nothing, or an error, which ends the sweep and is kept. Nothing is
    /// recorded once the sweep has failed.
    pub fn record(&mut self, outcome: Result<Option<ExternalHost>, String>)
        ensures
            old(self).failure() is Some ==> *final(self) == *old(self),
            old(self).failure() is None ==> match outcome {
                Ok(Some(h)) => final(self).found() == old(self).found().push(h) && final(self).pending()
                    == old(self).pending() && final(self).failure() is None,
                Ok(None) => final(self).found() == old(self).found() && final(self).pending()
                    == old(self).pending() && final(self).failure() is None,
                Err(e) => final(self).found() == old(self).found() && final(self).pending().len() == 0
                    && final(self).failure() == Some(e),
            },
    {
        if self.failure.is_some() {
            return;
        }
        match outcome {
            Ok(Some(h)) => {
                self.found.push(h);
            },
            Ok(None) => {},
            Err(e) => {
                self.failure = Some(e);
                self.done = true;
            },
        }
    }

    /// The sweep's result: the error of the probe that ended it, or the
    /// hosts found, in the order they were recorded.
    pub fn finish(self) -> (r: Result<Vec<ExternalHost>, String>)
        ensures
            match self.failure() {
                Some(e) => r == Err::<Vec<ExternalHost>, String>(e),
                None => r matches Ok(v) && v@ == self.found(),
            },
    {
        match self.failure {
            Some(e) => Err(e),
            None => Ok(self.found),
        }
    }
}

/// Index of the first host with hardware address `mac`, or -1.
pub open spec fn host_index(hosts: Seq<EngineHost>, mac: MacAddr) -> int
    decreases hosts.len(),
{
    if hosts.len() == 0 {
        -1
    } else if hosts.last().mac == mac {
        let k = host_index(hosts.drop_last(), mac);
        if k >= 0 {
            k
        } else {
            hosts.len() - 1
        }
    } else {
        host_index(hosts.drop_last(), mac)
    }
}

proof fn lemma_host_index(hosts: Seq<EngineHost>, mac: MacAddr)
    ensures
        -1 <= host_index(hosts, mac) < hosts.len(),
        host_index(hosts, mac) >= 0 ==> hosts[host_index(hosts, mac)].mac == mac,
        forall|j: int| 0 <= j < hosts.len() && #[trigger] hosts[j].mac == mac ==> host_index(hosts, mac) >= 0
            && host_index(hosts, mac) <= j,
    decreases hosts.len(),
{
    if hosts.len() > 0 {
        let init = hosts.drop_last();
        lemma_host_index(init, mac);
        assert forall|j: int| 0 <= j < hosts.len() && #[trigger] hosts[j].mac == mac implies host_index(hosts, mac)
            >= 0 && host_index(hosts, mac) <= j by {
            if j < hosts.len() - 1 {
                assert(init[j] == hosts[j]);
            }
        }
    }
}

/// An answer counts during a LAN discovery when it comes from one of the
/// sender's targets or from an IPv6 address (a reply to the all-nodes
/// echo request).
pub open spec fn answer_counts(targets: Set<IpAddr>, ip: IpAddr) -> bool {
    targets.contains(ip) || ip is V6
}

/// Records one frame received during a LAN discovery. A frame that reads
/// as an answer that counts (see `answer_counts`) adds its address to the
/// first host with the frame's hardware address, or adds a new host for
/// that address; any other frame, an unreadable one too, changes nothing.
pub fn record_frame(hosts: &mut Vec<EngineHost>, cfg: &SenderConfig, frame: &[u8])
    ensures
        match frame_reading(frame@) {
            Ok(Some((mac, ip))) => if answer_counts(cfg.targets(), ip) {
                let k = host_index(old(hosts)@, mac);
                if k >= 0 {
                    &&& final(hosts)@.len() == old(hosts)@.len()
                    &&& final(hosts)@[k].mac == mac
                    &&& final(hosts)@[k].ips@ == with_ip(old(hosts)@[k].ips@, ip)
                    &&& final(hosts)@[k].hostname == old(hosts)@[k].hostname
                    &&& forall|j: int| 0 <= j < old(hosts)@.len() && j != k ==> #[trigger] final(hosts)@[j]
                        == old(hosts)@[j]
                } else {
                    &&& final(hosts)@.len() == old(hosts)@.len() + 1
                    &&& forall|j: int| 0 <= j < old(hosts)@.len() ==> #[trigger] final(hosts)@[j] == old(hosts)@[j]
                    &&& final(hosts)@.last().mac == mac
                    &&& final(hosts)@.last().ips@ == seq![ip]
                    &&& final(hosts)@.last().hostname is None
                }
            } else {
                final(hosts)@ == old(hosts)@
            },
            _ => final(hosts)@ == old(hosts)@,
        },
{
    let reading = handle_frame(frame);
    let (mac, ip) = match reading {
        Ok(Some(answer)) => answer,
        _ => {
            return;
        },
    };
    assert(frame_reading(frame@) == Ok::<Option<(MacAddr, IpAddr)>, Seq<char>>(Some((mac, ip))));
    if !cfg.has_addr(&ip) && !ip.is_ipv6() {
        return;
    }
    proof {
        lemma_host_index(hosts@, mac);
    }
    let n = hosts.len();
    let mut k: usize = 0;
    while k < n
        invariant
            n == hosts@.len(),
            hosts@ == old(hosts)@,
            frame_reading(frame@) == Ok::<Option<(MacAddr, IpAddr)>, Seq<char>>(Some((mac, ip))),
            answer_counts(cfg.targets(), ip),
            0 <= k <= n,
            forall|j: int| 0 <= j < k ==> (#[trigger] hosts@[j]).mac != mac,
            -1 <= host_index(hosts@, mac) < n,
            host_index(hosts@, mac) >= 0 ==> hosts@[host_index(hosts@, mac)].mac == mac,
            forall|j: int| 0 <= j < n && #[trigger] hosts@[j].mac == mac ==> host_index(hosts@, mac) >= 0
                && host_index(hosts@, mac) <= j,
        decreases n - k,
    {
        if hosts[k].mac == mac {
            assert(host_index(hosts@, mac) == k);
            let ghost before = hosts@;
            let mut h = hosts.remove(k);
            h.add_ip(ip);
            hosts.insert(k, h);
            assert(hosts@.len() == before.len());
            assert(hosts@[k as int] == h);
            assert forall|j: int| 0 <= j < before.len() && j != k implies #[trigger] hosts@[j] == before[j] by {
            }
            return;
        }
        k = k + 1;
    }
    assert(host_index(hosts@, mac) < 0);
    hosts.push(EngineHost::new(mac, ip));
}

/// The least of the addresses' values; `u32::MAX` for none.
pub open spec fn least_bits(addrs: Seq<Ipv4Addr>) -> u32
    decreases addrs.len(),
{
    if addrs.len() == 0 {
        u32::MAX
    } else {
        let m = least_bits(addrs.drop_last());
        if addrs.last().bits < m {
            addrs.last().bits
        } else {
            m
        }
    }
}

/// The greatest of the addresses' values; 0 for none.
pub open spec fn greatest_bits(addrs: Seq<Ipv4Addr>) -> u32
    decreases addrs.len(),
{
    if addrs.len() == 0 {
        0
    } else {
        let m = greatest_bits(addrs.drop_last());
        if addrs.last().bits > m {
            addrs.last().bits
        } else {
            m
        }
    }
}

/// What the sender of a LAN discovery knows: its hardware address, its
/// first IPv4 network, its first link-local address, and as the range to
/// sweep the span from the least to the greatest IPv4 target. Fails when
/// the sender has no hardware address.
pub fn lan_context(cfg: &SenderConfig) -> (r: Result<SenderContext, String>)
    ensures
        cfg.spec_local_mac() is None ==> (r matches Err(e) && e@ == "local MAC not set"@),
        cfg.spec_local_mac() matches Some(m) ==> (r matches Ok(ctx) && ctx.src_mac == m
            && ctx.ipv4_net == (if cfg.spec_ipv4_nets().len() > 0 {
            Some(cfg.spec_ipv4_nets()[0])
        } else {
            None
        }) && ctx.dst_addr_v4 is None && ctx.link_local == first_link_local_of(cfg.spec_ipv6_nets())
            && ctx.ipv4_range == (if cfg.spec_targets_v4().len() > 0 {
            Some(
                crate::net::range::Ipv4Range {
                    start_addr: Ipv4Addr { bits: least_bits(cfg.spec_targets_v4()) },
                    end_addr: Ipv4Addr { bits: greatest_bits(cfg.spec_targets_v4()) },
                },
            )
        } else {
            None
        })),
{
    let src_mac = match cfg.get_local_mac() {
        Ok(m) => m,
        Err(e) => {
            return Err(e);
        },
    };
    let ipv4_net = match cfg.get_ipv4_net() {
        Ok(n) => Some(n),
        Err(_) => None,
    };
    let link_local = match cfg.get_link_local() {
        Ok(a) => Some(a),
        Err(_) => None,
    };
    let targets = cfg.get_targets_v4();
    let n = targets.len();
    let mut lo: u32 = u32::MAX;
    let mut hi: u32 = 0;
    let mut i: usize = 0;
    while i < n
        invariant
            n == targets@.len(),
            0 <= i <= n,
            lo == least_bits(targets@.take(i as int)),
            hi == greatest_bits(targets@.take(i as int)),
        decreases n - i,
    {
        assert(targets@.take(i + 1).drop_last() =~= targets@.take(i as int));
        if targets[i].bits < lo {
            lo = targets[i].bits;
        }
        if targets[i].bits > hi {
            hi = targets[i].bits;
        }
        i = i + 1;
    }
    assert(targets@.take(n as int) =~= targets@);
    let ipv4_range = if n > 0 {
        Some(crate::net::range::Ipv4Range { start_addr: Ipv4Addr { bits: lo }, end_addr: Ipv4Addr { bits: hi } })
    } else {
        None
    };
    Ok(SenderContext { src_mac, ipv4_net, dst_addr_v4: None, ipv4_range, link_local })
}

} // verus!
