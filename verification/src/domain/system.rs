//! The local system report: services listening on local addresses and the
//! state of the firewall.

use vstd::prelude::*;
use std::collections::HashSet;
use crate::addr::{ip_rank, IpAddr};

verus! {

broadcast use vstd::std_specs::hash::group_hash_axioms;

/// Whether a firewall front end was found.
#[derive(Clone, Copy, Debug, PartialEq, Eq, Structural)]
pub enum FirewallStatus {
    Active,
    Inactive,
    NotDetected,
}

/// The firewall status from what the system answered: active when either
/// `ufw` or `firewall-cmd` could be run, not detected otherwise.
pub fn firewall_status(ufw_found: bool, firewalld_found: bool) -> (r: FirewallStatus)
    ensures
        (ufw_found || firewalld_found) ==> r == FirewallStatus::Active,
        !(ufw_found || firewalld_found) ==> r == FirewallStatus::NotDetected,
{
    if ufw_found || firewalld_found {
        FirewallStatus::Active
    } else {
        FirewallStatus::NotDetected
    }
}

/// A socket bound on a local address, with the name of the process that
/// holds it.
#[derive(Clone, Debug)]
pub struct SocketRecord {
    pub name: String,
    pub local_addr: IpAddr,
    pub local_port: u16,
    pub is_tcp: bool,
}

/// A process listening on one local address, with the ports it holds
/// there.
#[derive(Debug)]
pub struct Service {
    pub name: String,
    pub local_addr: IpAddr,
    pub local_ports: HashSet<u16>,
}

impl Service {
    pub fn new(name: String, local_addr: IpAddr, local_ports: HashSet<u16>) -> (r: Self)
        ensures
            r.name == name,
            r.local_addr == local_addr,
            r.local_ports@ == local_ports@,
    {
        Service { name, local_addr, local_ports }
    }
}

/// The services of one local address, TCP and UDP apart.
#[derive(Debug)]
pub struct IpServiceGroup {
    pub ip_addr: IpAddr,
    pub tcp_services: Vec<Service>,
    pub udp_services: Vec<Service>,
}

impl IpServiceGroup {
    pub fn new(ip_addr: IpAddr, tcp_services: Vec<Service>, udp_services: Vec<Service>) -> (r: Self)
        ensures
            r.ip_addr == ip_addr,
            r.tcp_services@ == tcp_services@,
            r.udp_services@ == udp_services@,
    {
        IpServiceGroup { ip_addr, tcp_services, udp_services }
    }
}

/// The socket belongs to process `name` on `addr`, over TCP when `tcp`
/// holds and over UDP otherwise.
pub open spec fn socket_of(r: SocketRecord, tcp: bool, name: Seq<char>, addr: IpAddr) -> bool {
    r.is_tcp == tcp && r.name@ == name && r.local_addr == addr
}

/// Some socket of the list belongs to process `name` on `addr`.
pub open spec fn has_socket(recs: Seq<SocketRecord>, tcp: bool, name: Seq<char>, addr: IpAddr) -> bool {
    exists|j: int| 0 <= j < recs.len() && #[trigger] socket_of(recs[j], tcp, name, addr)
}

/// The ports of the sockets that process `name` holds on `addr`.
pub open spec fn ports_of(recs: Seq<SocketRecord>, tcp: bool, name: Seq<char>, addr: IpAddr) -> Set<u16> {
    Set::new(
        |p: u16|
            exists|j: int|
                0 <= j < recs.len() && #[trigger] socket_of(recs[j], tcp, name, addr)
                    && recs[j].local_port == p,
    )
}

/// The service stands for sockets of the list, and holds all of their
/// ports and no other.
pub open spec fn service_ok(s: Service, recs: Seq<SocketRecord>, tcp: bool) -> bool {
    &&& has_socket(recs, tcp, s.name@, s.local_addr)
    &&& s.local_ports@ == ports_of(recs, tcp, s.name@, s.local_addr)
}

/// Two services of the same process on the same address.
pub open spec fn same_key(a: Service, b: Service) -> bool {
    a.name@ == b.name@ && a.local_addr == b.local_addr
}

/// `svcs` holds one service per process and address that has a socket of
/// the protocol in the list, and nothing else.
#[verifier::opaque]
pub open spec fn services_ok(svcs: Seq<Service>, recs: Seq<SocketRecord>, tcp: bool) -> bool {
    &&& forall|k: int| 0 <= k < svcs.len() ==> service_ok(#[trigger] svcs[k], recs, tcp)
    &&& forall|k: int, l: int|
        0 <= k < l < svcs.len() ==> !same_key(#[trigger] svcs[k], #[trigger] svcs[l])
    &&& forall|j: int|
        0 <= j < recs.len() && (#[trigger] recs[j]).is_tcp == tcp ==> exists|k: int|
            0 <= k < svcs.len() && socket_of(recs[j], tcp, (#[trigger] svcs[k]).name@, svcs[k].local_addr)
}

proof fn lemma_socket_push(recs: Seq<SocketRecord>, rec: SocketRecord, tcp: bool, name: Seq<char>, addr: IpAddr)
    ensures
        has_socket(recs.push(rec), tcp, name, addr) == (has_socket(recs, tcp, name, addr) || socket_of(
            rec,
            tcp,
            name,
            addr,
        )),
        ports_of(recs.push(rec), tcp, name, addr) == (if socket_of(rec, tcp, name, addr) {
            ports_of(recs, tcp, name, addr).insert(rec.local_port)
        } else {
            ports_of(recs, tcp, name, addr)
        }),
{
    let ext = recs.push(rec);
    if has_socket(recs, tcp, name, addr) {
        let j = choose|j: int| 0 <= j < recs.len() && #[trigger] socket_of(recs[j], tcp, name, addr);
        assert(ext[j] == recs[j]);
        assert(socket_of(ext[j], tcp, name, addr));
    }
    if socket_of(rec, tcp, name, addr) {
        assert(ext[recs.len() as int] == rec);
        assert(socket_of(ext[recs.len() as int], tcp, name, addr));
    }
    if has_socket(ext, tcp, name, addr) {
        let j = choose|j: int| 0 <= j < ext.len() && #[trigger] socket_of(ext[j], tcp, name, addr);
        if j < recs.len() {
            assert(ext[j] == recs[j]);
            assert(socket_of(recs[j], tcp, name, addr));
        }
    }
    let target = if socket_of(rec, tcp, name, addr) {
        ports_of(recs, tcp, name, addr).insert(rec.local_port)
    } else {
        ports_of(recs, tcp, name, addr)
    };
    assert forall|p: u16| ports_of(ext, tcp, name, addr).contains(p) == target.contains(p) by {
        if ports_of(ext, tcp, name, addr).contains(p) {
            let j = choose|j: int|
                0 <= j < ext.len() && #[trigger] socket_of(ext[j], tcp, name, addr) && ext[j].local_port
                    == p;
            if j < recs.len() {
                assert(ext[j] == recs[j]);
                assert(socket_of(recs[j], tcp, name, addr) && recs[j].local_port == p);
            }
        }
        if ports_of(recs, tcp, name, addr).contains(p) {
            let j = choose|j: int|
                0 <= j < recs.len() && #[trigger] socket_of(recs[j], tcp, name, addr)
                    && recs[j].local_port == p;
            assert(ext[j] == recs[j]);
            assert(socket_of(ext[j], tcp, name, addr) && ext[j].local_port == p);
        }
        if socket_of(rec, tcp, name, addr) && p == rec.local_port {
            assert(ext[recs.len() as int] == rec);
            assert(socket_of(ext[recs.len() as int], tcp, name, addr) && ext[recs.len() as int].local_port == p);
        }
    }
    assert(ports_of(ext, tcp, name, addr) =~= target);
}

/// Records one socket of the protocol in the list of services.
fn record_socket(
    services: &mut Vec<Service>,
    rec: &SocketRecord,
    tcp: bool,
    Ghost(prev): Ghost<Seq<SocketRecord>>,
)
    requires
        services_ok(old(services)@, prev, tcp),
        rec.is_tcp == tcp,
    ensures
        services_ok(final(services)@, prev.push(*rec), tcp),
{
    reveal(services_ok);
    let ghost old_svcs = services@;
    let ghost ext = prev.push(*rec);
    let n = services.len();
    let mut k: usize = 0;
    while k < n
        invariant
            n == services@.len(),
            services@ == old_svcs,
            0 <= k <= n,
            forall|m: int| 0 <= m < k ==> !(services@[m].name@ == rec.name@ && services@[m].local_addr == rec.local_addr),
        ensures
            0 <= k <= n,
            services@ == old_svcs,
            forall|m: int| 0 <= m < k ==> !(services@[m].name@ == rec.name@ && services@[m].local_addr == rec.local_addr),
            k < n ==> services@[k as int].name@ == rec.name@ && services@[k as int].local_addr == rec.local_addr,
        decreases n - k,
    {
        if services[k].name == rec.name && services[k].local_addr == rec.local_addr {
            break;
        }
        k = k + 1;
    }
    if k < n {
        let mut s = services.remove(k);
        let ghost before = s;
        s.local_ports.insert(rec.local_port);
        services.insert(k, s);
        proof {
            assert(services@ =~= old_svcs.update(k as int, s));
            lemma_socket_push(prev, *rec, tcp, before.name@, before.local_addr);
            assert forall|m: int| 0 <= m < services@.len() implies service_ok(#[trigger] services@[m], ext, tcp) by {
                lemma_socket_push(prev, *rec, tcp, services@[m].name@, services@[m].local_addr);
                if m != k {
                    assert(services@[m] == old_svcs[m]);
                    assert(service_ok(old_svcs[m], prev, tcp));
                    if m < k {
                        assert(!socket_of(*rec, tcp, old_svcs[m].name@, old_svcs[m].local_addr));
                    } else {
                        assert(!same_key(old_svcs[k as int], old_svcs[m]));
                    }
                }
            }
            assert forall|m: int, l: int| 0 <= m < l < services@.len() implies !same_key(#[trigger] services@[m], #[trigger] services@[l]) by {
                assert(!same_key(old_svcs[m], old_svcs[l]));
            }
            assert forall|j: int|
                0 <= j < ext.len() && (#[trigger] ext[j]).is_tcp == tcp implies exists|q: int|
                    0 <= q < services@.len() && socket_of(ext[j], tcp, (#[trigger] services@[q]).name@, services@[q].local_addr) by {
                if j < prev.len() {
                    assert(ext[j] == prev[j]);
                    let q = choose|q: int| 0 <= q < old_svcs.len() && socket_of(prev[j], tcp, (#[trigger] old_svcs[q]).name@, old_svcs[q].local_addr);
                    assert(same_key(services@[q], old_svcs[q]));
                    assert(socket_of(ext[j], tcp, services@[q].name@, services@[q].local_addr));
                } else {
                    assert(ext[j] == *rec);
                    assert(socket_of(ext[j], tcp, services@[k as int].name@, services@[k as int].local_addr));
                }
            }
        }
    } else {
        let mut ports: HashSet<u16> = HashSet::new();
        ports.insert(rec.local_port);
        let s = Service { name: rec.name.clone(), local_addr: rec.local_addr, local_ports: ports };
        services.push(s);
        proof {
            let last = old_svcs.len() as int;
            assert(services@ =~= old_svcs.push(s));
            lemma_socket_push(prev, *rec, tcp, rec.name@, rec.local_addr);
            assert(!has_socket(prev, tcp, rec.name@, rec.local_addr)) by {
                if has_socket(prev, tcp, rec.name@, rec.local_addr) {
                    let j = choose|j: int| 0 <= j < prev.len() && #[trigger] socket_of(prev[j], tcp, rec.name@, rec.local_addr);
                    assert(prev[j].is_tcp == tcp);
                    let q = choose|q: int| 0 <= q < old_svcs.len() && socket_of(prev[j], tcp, (#[trigger] old_svcs[q]).name@, old_svcs[q].local_addr);
                    assert(old_svcs[q].name@ == rec.name@ && old_svcs[q].local_addr == rec.local_addr);
                }
            }
            assert(ports_of(prev, tcp, rec.name@, rec.local_addr) =~= Set::<u16>::empty()) by {
                assert forall|p: u16| !ports_of(prev, tcp, rec.name@, rec.local_addr).contains(p) by {
                    if ports_of(prev, tcp, rec.name@, rec.local_addr).contains(p) {
                        let j = choose|j: int| 0 <= j < prev.len() && #[trigger] socket_of(prev[j], tcp, rec.name@, rec.local_addr) && prev[j].local_port == p;
                    }
                }
            }
            assert(socket_of(*rec, tcp, rec.name@, rec.local_addr));
            assert forall|m: int| 0 <= m < services@.len() implies service_ok(#[trigger] services@[m], ext, tcp) by {
                lemma_socket_push(prev, *rec, tcp, services@[m].name@, services@[m].local_addr);
                if m < last {
                    assert(services@[m] == old_svcs[m]);
                    assert(service_ok(old_svcs[m], prev, tcp));
                    assert(!socket_of(*rec, tcp, old_svcs[m].name@, old_svcs[m].local_addr));
                } else {
                    assert(services@[m] == s);
                    assert(s.local_ports@ =~= Set::<u16>::empty().insert(rec.local_port));
                }
            }
            assert forall|m: int, l: int| 0 <= m < l < services@.len() implies !same_key(#[trigger] services@[m], #[trigger] services@[l]) by {
                if l < last {
                    assert(!same_key(old_svcs[m], old_svcs[l]));
                } else {
                    assert(services@[l] == s);
                    assert(services@[m] == old_svcs[m]);
                }
            }
            assert forall|j: int|
                0 <= j < ext.len() && (#[trigger] ext[j]).is_tcp == tcp implies exists|q: int|
                    0 <= q < services@.len() && socket_of(ext[j], tcp, (#[trigger] services@[q]).name@, services@[q].local_addr) by {
                if j < prev.len() {
                    assert(ext[j] == prev[j]);
                    let q = choose|q: int| 0 <= q < old_svcs.len() && socket_of(prev[j], tcp, (#[trigger] old_svcs[q]).name@, old_svcs[q].local_addr);
                    assert(services@[q] == old_svcs[q]);
                } else {
                    assert(ext[j] == *rec);
                    assert(socket_of(ext[j], tcp, services@[last].name@, services@[last].local_addr));
                }
            }
        }
    }
}

/// Addresses in strictly ascending order.
pub open spec fn ascending(s: Seq<IpAddr>) -> bool {
    forall|a: int, b: int| 0 <= a < b < s.len() ==> ip_rank(#[trigger] s[a]) < ip_rank(#[trigger] s[b])
}

/// Inserts `a` in an ascending list of addresses, unless it is there.
pub(crate) fn insert_sorted(addrs: &mut Vec<IpAddr>, a: IpAddr)
    requires
        ascending(old(addrs)@),
    ensures
        ascending(final(addrs)@),
        forall|x: IpAddr| final(addrs)@.contains(x) <==> (old(addrs)@.contains(x) || x == a),
{
    let ghost old_s = addrs@;
    let n = addrs.len();
    let mut p: usize = 0;
    while p < n
        invariant
            n == addrs@.len(),
            addrs@ == old_s,
            0 <= p <= n,
            forall|m: int| 0 <= m < p ==> ip_rank(#[trigger] addrs@[m]) < ip_rank(a),
        ensures
            0 <= p <= n,
            addrs@ == old_s,
            forall|m: int| 0 <= m < p ==> ip_rank(#[trigger] addrs@[m]) < ip_rank(a),
            p < n ==> ip_rank(addrs@[p as int]) >= ip_rank(a),
        decreases n - p,
    {
        if !addrs[p].lt(&a) {
            break;
        }
        p = p + 1;
    }
    if p < n && addrs[p] == a {
        return;
    }
    proof {
        if p < n {
            crate::addr::lemma_ip_rank_injective(old_s[p as int], a);
        }
    }
    addrs.insert(p, a);
    proof {
        let s2 = addrs@;
        assert(s2 =~= old_s.insert(p as int, a));
        assert forall|x: int, y: int| 0 <= x < y < s2.len() implies ip_rank(#[trigger] s2[x]) < ip_rank(#[trigger] s2[y]) by {
            if y < p {
                assert(s2[x] == old_s[x] && s2[y] == old_s[y]);
            } else if y == p {
                assert(s2[x] == old_s[x]);
            } else if x == p {
                assert(s2[y] == old_s[y - 1]);
                if y - 1 > p {
                    assert(ip_rank(old_s[p as int]) < ip_rank(old_s[y - 1]));
                }
            } else if x < p {
                assert(s2[x] == old_s[x] && s2[y] == old_s[y - 1]);
                if y - 1 >= p {
                    assert(ip_rank(old_s[x]) < ip_rank(a));
                    if y - 1 > p {
                        assert(ip_rank(old_s[p as int]) < ip_rank(old_s[y - 1]));
                    }
                }
            } else {
                assert(s2[x] == old_s[x - 1] && s2[y] == old_s[y - 1]);
            }
        }
        assert forall|x: IpAddr| s2.contains(x) <==> (old_s.contains(x) || x == a) by {
            if s2.contains(x) {
                let i = choose|i: int| 0 <= i < s2.len() && s2[i] == x;
                if i < p {
                    assert(old_s[i] == x);
                } else if i > p {
                    assert(old_s[i - 1] == x);
                }
            }
            if old_s.contains(x) {
                let i = choose|i: int| 0 <= i < old_s.len() && old_s[i] == x;
                if i < p {
                    assert(s2[i] == x);
                } else {
                    assert(s2[i + 1] == x);
                }
            }
            if x == a {
                assert(s2[p as int] == a);
            }
        }
    }
}

/// The addresses of a list of services.
pub open spec fn svc_addrs(svcs: Seq<Service>) -> Set<IpAddr> {
    Set::new(|a: IpAddr| exists|k: int| 0 <= k < svcs.len() && (#[trigger] svcs[k]).local_addr == a)
}

/// Adds the addresses of `svcs` to an ascending list of addresses.
fn collect_addrs(addrs: &mut Vec<IpAddr>, svcs: &Vec<Service>)
    requires
        ascending(old(addrs)@),
    ensures
        ascending(final(addrs)@),
        forall|x: IpAddr| final(addrs)@.contains(x) <==> (old(addrs)@.contains(x) || svc_addrs(svcs@).contains(x)),
{
    let ghost start = addrs@;
    let mut i: usize = 0;
    while i < svcs.len()
        invariant
            0 <= i <= svcs@.len(),
            ascending(addrs@),
            forall|x: IpAddr| #[trigger] addrs@.contains(x) <==> (start.contains(x) || svc_addrs(svcs@.take(i as int)).contains(x)),
        decreases svcs@.len() - i,
    {
        let ghost before = addrs@;
        insert_sorted(addrs, svcs[i].local_addr);
        proof {
            assert forall|x: IpAddr| #[trigger] addrs@.contains(x) <==> (start.contains(x) || svc_addrs(svcs@.take(i + 1)).contains(x)) by {
                assert(addrs@.contains(x) <==> (before.contains(x) || x == svcs@[i as int].local_addr));
                assert(before.contains(x) <==> (start.contains(x) || svc_addrs(svcs@.take(i as int)).contains(x)));
                if svc_addrs(svcs@.take(i as int)).contains(x) {
                    let k = choose|k: int| 0 <= k < svcs@.take(i as int).len() && (#[trigger] svcs@.take(i as int)[k]).local_addr == x;
                    assert(svcs@.take(i + 1)[k] == svcs@.take(i as int)[k]);
                }
                if svc_addrs(svcs@.take(i + 1)).contains(x) {
                    let k = choose|k: int| 0 <= k < svcs@.take(i + 1).len() && (#[trigger] svcs@.take(i + 1)[k]).local_addr == x;
                    if k < i {
                        assert(svcs@.take(i as int)[k] == svcs@.take(i + 1)[k]);
                    } else {
                        assert(svcs@.take(i + 1)[k] == svcs@[i as int]);
                    }
                }
                if x == svcs@[i as int].local_addr {
                    assert(svcs@.take(i + 1)[i as int] == svcs@[i as int]);
                }
            }
        }
        i = i + 1;
    }
    assert(svcs@.take(svcs@.len() as int) =~= svcs@);
}

/// The list of services of one protocol in a group.
pub open spec fn proto_list(g: IpServiceGroup, tcp: bool) -> Seq<Service> {
    if tcp {
        g.tcp_services@
    } else {
        g.udp_services@
    }
}

/// The services of the list are services of the protocol, all on `addr`,
/// one per process.
#[verifier::opaque]
pub open spec fn services_on(svcs: Seq<Service>, recs: Seq<SocketRecord>, tcp: bool, addr: IpAddr) -> bool {
    &&& forall|k: int| 0 <= k < svcs.len() ==> service_ok(#[trigger] svcs[k], recs, tcp) && svcs[k].local_addr == addr
    &&& forall|k: int, l: int| 0 <= k < l < svcs.len() ==> (#[trigger] svcs[k]).name@ != (#[trigger] svcs[l]).name@
}

/// The socket shows up as the service at position `m` of its protocol's list
/// in group `g`.
pub open spec fn shows_socket(g: IpServiceGroup, m: int, r: SocketRecord) -> bool {
    &&& g.ip_addr == r.local_addr
    &&& 0 <= m < proto_list(g, r.is_tcp).len()
    &&& proto_list(g, r.is_tcp)[m].name@ == r.name@
}

/// Every service placed in the groups stands for one of `orig[lo..n]`.
#[verifier::opaque]
pub open spec fn placed_from(gs: Seq<IpServiceGroup>, orig: Seq<Service>, lo: int, n: int, tcp: bool) -> bool {
    forall|g: int, m: int|
        0 <= g < gs.len() && 0 <= m < proto_list(gs[g], tcp).len() ==> exists|k: int|
            lo <= k < n && same_key(#[trigger] proto_list(#[trigger] gs[g], tcp)[m], orig[k])
}

/// Each of `orig[lo..n]` is placed in some group.
#[verifier::opaque]
pub open spec fn covers(gs: Seq<IpServiceGroup>, orig: Seq<Service>, lo: int, n: int, tcp: bool) -> bool {
    forall|k: int|
        lo <= k < n ==> exists|g: int, m: int|
            0 <= g < gs.len() && 0 <= m < proto_list(gs[g], tcp).len() && same_key(
                #[trigger] proto_list(#[trigger] gs[g], tcp)[m],
                #[trigger] orig[k],
            )
}

/// Every group's list of the protocol is made of services on its address.
#[verifier::opaque]
pub open spec fn all_on(gs: Seq<IpServiceGroup>, recs: Seq<SocketRecord>, tcp: bool) -> bool {
    forall|g: int| 0 <= g < gs.len() ==> services_on(proto_list(#[trigger] gs[g], tcp), recs, tcp, gs[g].ip_addr)
}

/// `gs_after` is `gs_before` with `s` pushed to the protocol's list of
/// group `gi`.
pub open spec fn pushed_into(
    gs_before: Seq<IpServiceGroup>,
    gs_after: Seq<IpServiceGroup>,
    gi: int,
    grp: IpServiceGroup,
    s: Service,
    tcp: bool,
) -> bool {
    &&& 0 <= gi < gs_before.len()
    &&& grp.ip_addr == gs_before[gi].ip_addr
    &&& proto_list(grp, tcp) == proto_list(gs_before[gi], tcp).push(s)
    &&& proto_list(grp, !tcp) == proto_list(gs_before[gi], !tcp)
    &&& gs_after == gs_before.update(gi, grp)
}

proof fn lemma_step_on(
    orig: Seq<Service>,
    recs: Seq<SocketRecord>,
    tcp: bool,
    gs_before: Seq<IpServiceGroup>,
    gs_after: Seq<IpServiceGroup>,
    gi: int,
    grp: IpServiceGroup,
    r: int,
)
    requires
        services_ok(orig, recs, tcp),
        1 <= r <= orig.len(),
        pushed_into(gs_before, gs_after, gi, grp, orig[r - 1], tcp),
        gs_before[gi].ip_addr == orig[r - 1].local_addr,
        all_on(gs_before, recs, tcp),
        placed_from(gs_before, orig, r, orig.len() as int, tcp),
    ensures
        all_on(gs_after, recs, tcp),
{
    reveal(all_on);
    reveal(services_ok);
    reveal(services_on);
    reveal(placed_from);
    let s = orig[r - 1];
    let grp0 = gs_before[gi];
    let l = proto_list(grp, tcp);
    let l0 = proto_list(grp0, tcp);
    assert(service_ok(orig[r - 1], recs, tcp));
    assert(services_on(l0, recs, tcp, grp0.ip_addr));
    assert forall|m: int| 0 <= m < l0.len() implies (#[trigger] l0[m]).name@ != s.name@ by {
        let k = choose|k: int| r <= k < orig.len() && same_key(#[trigger] proto_list(#[trigger] gs_before[gi], tcp)[m], orig[k]);
        assert(!same_key(orig[r - 1], orig[k]));
    }
    assert forall|k: int| 0 <= k < l.len() implies service_ok(#[trigger] l[k], recs, tcp) && l[k].local_addr == grp.ip_addr by {
        if k < l0.len() {
            assert(l[k] == l0[k]);
        }
    }
    assert forall|k: int, q: int| 0 <= k < q < l.len() implies (#[trigger] l[k]).name@ != (#[trigger] l[q]).name@ by {
        if q < l0.len() {
            assert(l[k] == l0[k] && l[q] == l0[q]);
        } else {
            assert(l[k] == l0[k]);
        }
    }
    assert forall|h: int| 0 <= h < gs_after.len() implies services_on(proto_list(#[trigger] gs_after[h], tcp), recs, tcp, gs_after[h].ip_addr) by {
        if h != gi {
            assert(gs_after[h] == gs_before[h]);
        }
    }
}

proof fn lemma_step_placed(
    orig: Seq<Service>,
    tcp: bool,
    gs_before: Seq<IpServiceGroup>,
    gs_after: Seq<IpServiceGroup>,
    gi: int,
    grp: IpServiceGroup,
    r: int,
)
    requires
        1 <= r <= orig.len(),
        pushed_into(gs_before, gs_after, gi, grp, orig[r - 1], tcp),
        placed_from(gs_before, orig, r, orig.len() as int, tcp),
    ensures
        placed_from(gs_after, orig, r - 1, orig.len() as int, tcp),
{
    reveal(placed_from);
    let n = orig.len() as int;
    let l0 = proto_list(gs_before[gi], tcp);
    assert forall|h: int, m: int| 0 <= h < gs_after.len() && 0 <= m < proto_list(gs_after[h], tcp).len() implies
        exists|k: int| r - 1 <= k < n && same_key(#[trigger] proto_list(#[trigger] gs_after[h], tcp)[m], orig[k]) by {
        if h == gi {
            if m < l0.len() {
                assert(proto_list(gs_after[h], tcp)[m] == proto_list(gs_before[gi], tcp)[m]);
                let k = choose|k: int| r <= k < n && same_key(#[trigger] proto_list(#[trigger] gs_before[gi], tcp)[m], orig[k]);
                assert(same_key(proto_list(gs_after[h], tcp)[m], orig[k]));
            } else {
                assert(same_key(proto_list(gs_after[h], tcp)[m], orig[r - 1]));
            }
        } else {
            assert(gs_after[h] == gs_before[h]);
            let k = choose|k: int| r <= k < n && same_key(#[trigger] proto_list(#[trigger] gs_before[h], tcp)[m], orig[k]);
            assert(same_key(proto_list(gs_after[h], tcp)[m], orig[k]));
        }
    }
}

proof fn lemma_step_covers(
    orig: Seq<Service>,
    tcp: bool,
    gs_before: Seq<IpServiceGroup>,
    gs_after: Seq<IpServiceGroup>,
    gi: int,
    grp: IpServiceGroup,
    r: int,
)
    requires
        1 <= r <= orig.len(),
        pushed_into(gs_before, gs_after, gi, grp, orig[r - 1], tcp),
        covers(gs_before, orig, r, orig.len() as int, tcp),
    ensures
        covers(gs_after, orig, r - 1, orig.len() as int, tcp),
{
    reveal(covers);
    let n = orig.len() as int;
    let l0 = proto_list(gs_before[gi], tcp);
    assert forall|k: int| r - 1 <= k < n implies exists|h: int, m: int| 0 <= h < gs_after.len() && 0 <= m < proto_list(gs_after[h], tcp).len()
        && same_key(#[trigger] proto_list(#[trigger] gs_after[h], tcp)[m], #[trigger] orig[k]) by {
        if k == r - 1 {
            let m = l0.len() as int;
            assert(proto_list(gs_after[gi], tcp)[m] == orig[r - 1]);
            assert(same_key(proto_list(gs_after[gi], tcp)[m], orig[k]));
        } else {
            let (h, m) = choose|h: int, m: int| 0 <= h < gs_before.len() && 0 <= m < proto_list(gs_before[h], tcp).len()
                && same_key(#[trigger] proto_list(#[trigger] gs_before[h], tcp)[m], #[trigger] orig[k]);
            if h == gi {
                assert(proto_list(gs_after[h], tcp)[m] == proto_list(gs_before[h], tcp)[m]);
            } else {
                assert(gs_after[h] == gs_before[h]);
            }
            assert(same_key(proto_list(gs_after[h], tcp)[m], orig[k]));
        }
    }
}

/// Moves each service of `svcs` into the group of its address.
fn distribute(
    groups: &mut Vec<IpServiceGroup>,
    svcs: Vec<Service>,
    tcp: bool,
    Ghost(recs): Ghost<Seq<SocketRecord>>,
)
    requires
        services_ok(svcs@, recs, tcp),
        forall|k: int| 0 <= k < svcs@.len() ==> exists|g: int| 0 <= g < old(groups)@.len() && (#[trigger] old(groups)@[g]).ip_addr == (#[trigger] svcs@[k]).local_addr,
        forall|g: int| 0 <= g < old(groups)@.len() ==> proto_list(#[trigger] old(groups)@[g], tcp) == Seq::<Service>::empty(),
    ensures
        final(groups)@.len() == old(groups)@.len(),
        forall|g: int| 0 <= g < final(groups)@.len() ==> (#[trigger] final(groups)@[g]).ip_addr == old(groups)@[g].ip_addr,
        forall|g: int| 0 <= g < final(groups)@.len() ==> proto_list(#[trigger] final(groups)@[g], !tcp) == proto_list(old(groups)@[g], !tcp),
        all_on(final(groups)@, recs, tcp),
        forall|j: int| 0 <= j < recs.len() && (#[trigger] recs[j]).is_tcp == tcp ==> exists|g: int, m: int| 0 <= g < final(groups)@.len() && #[trigger] shows_socket(final(groups)@[g], m, recs[j]),
{
    let ghost orig = svcs@;
    let ghost g0 = groups@;
    let ghost n = orig.len() as int;
    let mut svcs = svcs;
    proof {
        assert(svcs@ =~= orig.take(n));
        reveal(placed_from);
        reveal(covers);
        reveal(all_on);
        reveal(services_on);
        assert(all_on(groups@, recs, tcp)) by {
            assert forall|g: int| 0 <= g < groups@.len() implies services_on(proto_list(#[trigger] groups@[g], tcp), recs, tcp, groups@[g].ip_addr) by {
                assert(proto_list(groups@[g], tcp) == Seq::<Service>::empty());
            }
        }
    }
    while svcs.len() > 0
        invariant
            services_ok(orig, recs, tcp),
            forall|k: int| 0 <= k < orig.len() ==> exists|g: int| 0 <= g < g0.len() && (#[trigger] g0[g]).ip_addr == (#[trigger] orig[k]).local_addr,
            n == orig.len(),
            svcs@ == orig.take(svcs@.len() as int),
            svcs@.len() <= n,
            groups@.len() == g0.len(),
            forall|g: int| 0 <= g < groups@.len() ==> (#[trigger] groups@[g]).ip_addr == g0[g].ip_addr,
            forall|g: int| 0 <= g < groups@.len() ==> proto_list(#[trigger] groups@[g], !tcp) == proto_list(g0[g], !tcp),
            all_on(groups@, recs, tcp),
            placed_from(groups@, orig, svcs@.len() as int, n, tcp),
            covers(groups@, orig, svcs@.len() as int, n, tcp),
        decreases svcs@.len(),
    {
        let ghost r = svcs@.len() as int;
        let s = svcs.pop().unwrap();
        assert(s == orig[r - 1]);
        assert(svcs@ =~= orig.take(r - 1));
        let ng = groups.len();
        let mut g: usize = 0;
        while g < ng
            invariant
                ng == groups@.len(),
                0 <= g <= ng,
                forall|h: int| 0 <= h < g ==> groups@[h].ip_addr != s.local_addr,
            ensures
                0 <= g <= ng,
                forall|h: int| 0 <= h < g ==> groups@[h].ip_addr != s.local_addr,
                g < ng ==> groups@[g as int].ip_addr == s.local_addr,
            decreases ng - g,
        {
            if groups[g].ip_addr == s.local_addr {
                break;
            }
            g = g + 1;
        }
        proof {
            if g >= ng {
                let h = choose|h: int| 0 <= h < g0.len() && (#[trigger] g0[h]).ip_addr == (#[trigger] orig[r - 1]).local_addr;
                assert(groups@[h].ip_addr == g0[h].ip_addr);
            }
        }
        let ghost gs_before = groups@;
        let mut grp = groups.remove(g);
        let ghost grp0 = grp;
        if tcp {
            grp.tcp_services.push(s);
        } else {
            grp.udp_services.push(s);
        }
        proof {
            assert(proto_list(grp, tcp) =~= proto_list(grp0, tcp).push(s));
        }
        groups.insert(g, grp);
        proof {
            assert(groups@ =~= gs_before.update(g as int, grp));
            assert(pushed_into(gs_before, groups@, g as int, grp, orig[r - 1], tcp));
            lemma_step_on(orig, recs, tcp, gs_before, groups@, g as int, grp, r);
            lemma_step_placed(orig, tcp, gs_before, groups@, g as int, grp, r);
            lemma_step_covers(orig, tcp, gs_before, groups@, g as int, grp, r);
            assert forall|h: int| 0 <= h < groups@.len() implies proto_list(#[trigger] groups@[h], !tcp) == proto_list(g0[h], !tcp) by {
                if h != g {
                    assert(groups@[h] == gs_before[h]);
                }
            }
            assert forall|h: int| 0 <= h < groups@.len() implies (#[trigger] groups@[h]).ip_addr == g0[h].ip_addr by {
                if h != g {
                    assert(groups@[h] == gs_before[h]);
                }
            }
        }
    }
    proof {
        reveal(covers);
        reveal(all_on);
        reveal(services_ok);
        reveal(services_on);
        assert forall|j: int| 0 <= j < recs.len() && (#[trigger] recs[j]).is_tcp == tcp implies exists|g: int, m: int| 0 <= g < groups@.len() && #[trigger] shows_socket(groups@[g], m, recs[j]) by {
            let k = choose|k: int| 0 <= k < orig.len() && socket_of(recs[j], tcp, (#[trigger] orig[k]).name@, orig[k].local_addr);
            let (g, m) = choose|g: int, m: int| 0 <= g < groups@.len() && 0 <= m < proto_list(groups@[g], tcp).len()
                && same_key(#[trigger] proto_list(#[trigger] groups@[g], tcp)[m], #[trigger] orig[k]);
            let x = proto_list(groups@[g], tcp)[m];
            assert(services_on(proto_list(groups@[g], tcp), recs, tcp, groups@[g].ip_addr));
            assert(x.local_addr == groups@[g].ip_addr);
            assert(shows_socket(groups@[g], m, recs[j]));
        }
    }
}

/// A socket of the other protocol changes nothing about the services of
/// this one.
proof fn lemma_services_ok_skip(svcs: Seq<Service>, prev: Seq<SocketRecord>, rec: SocketRecord, tcp: bool)
    requires
        services_ok(svcs, prev, tcp),
        rec.is_tcp != tcp,
    ensures
        services_ok(svcs, prev.push(rec), tcp),
{
    reveal(services_ok);
    let ext = prev.push(rec);
    assert forall|k: int| 0 <= k < svcs.len() implies service_ok(#[trigger] svcs[k], ext, tcp) by {
        lemma_socket_push(prev, rec, tcp, svcs[k].name@, svcs[k].local_addr);
    }
    assert forall|j: int| 0 <= j < ext.len() && (#[trigger] ext[j]).is_tcp == tcp implies exists|k: int|
        0 <= k < svcs.len() && socket_of(ext[j], tcp, (#[trigger] svcs[k]).name@, svcs[k].local_addr) by {
        assert(j < prev.len());
        assert(ext[j] == prev[j]);
    }
}

/// The length in bytes of the process name of a socket.
pub open spec fn name_len(r: SocketRecord) -> int {
    (vstd::utf8::encode_utf8(r.name@).len() as usize) as int
}

/// The longest process name among the sockets, in bytes; 0 for none.
pub open spec fn longest_name(recs: Seq<SocketRecord>) -> int
    decreases recs.len(),
{
    if recs.len() == 0 {
        0
    } else {
        let rest = longest_name(recs.drop_last());
        if name_len(recs.last()) > rest {
            name_len(recs.last())
        } else {
            rest
        }
    }
}

/// The addresses of the groups, in order.
pub open spec fn group_addrs(gs: Seq<IpServiceGroup>) -> Seq<IpAddr> {
    gs.map_values(|g: IpServiceGroup| g.ip_addr)
}

/// The socket shows up in one of the groups.
pub open spec fn socket_shown(gs: Seq<IpServiceGroup>, r: SocketRecord) -> bool {
    exists|g: int, m: int| 0 <= g < gs.len() && #[trigger] shows_socket(gs[g], m, r)
}

/// The groups report the sockets: one group per local address that has a
/// socket, in ascending order of address; in each, one service per process
/// and protocol with exactly its ports; and every socket shows up in the
/// group of its address.
pub open spec fn groups_ok(gs: Seq<IpServiceGroup>, recs: Seq<SocketRecord>) -> bool {
    &&& ascending(group_addrs(gs))
    &&& forall|g: int| 0 <= g < gs.len() ==> services_on((#[trigger] gs[g]).tcp_services@, recs, true, gs[g].ip_addr)
    &&& forall|g: int| 0 <= g < gs.len() ==> services_on((#[trigger] gs[g]).udp_services@, recs, false, gs[g].ip_addr)
    &&& forall|j: int| 0 <= j < recs.len() ==> socket_shown(gs, #[trigger] recs[j])
    &&& forall|g: int| 0 <= g < gs.len() ==> exists|j: int| 0 <= j < recs.len() && (#[trigger] recs[j]).local_addr == (#[trigger] gs[g]).ip_addr
}

/// The groups after both distributions report the sockets.
proof fn lemma_groups_ok(
    gs: Seq<IpServiceGroup>,
    g_mid: Seq<IpServiceGroup>,
    g_mid0: Seq<IpServiceGroup>,
    addr_seq: Seq<IpAddr>,
    tcp_s: Seq<Service>,
    udp_s: Seq<Service>,
    recs: Seq<SocketRecord>,
)
    requires
        ascending(addr_seq),
        forall|x: IpAddr| addr_seq.contains(x) <==> (svc_addrs(tcp_s).contains(x) || svc_addrs(udp_s).contains(x)),
        services_ok(tcp_s, recs, true),
        services_ok(udp_s, recs, false),
        g_mid0.len() == addr_seq.len(),
        forall|g: int| 0 <= g < g_mid0.len() ==> (#[trigger] g_mid0[g]).ip_addr == addr_seq[g],
        g_mid.len() == g_mid0.len(),
        forall|g: int| 0 <= g < g_mid.len() ==> (#[trigger] g_mid[g]).ip_addr == g_mid0[g].ip_addr,
        all_on(g_mid, recs, true),
        forall|j: int| 0 <= j < recs.len() && (#[trigger] recs[j]).is_tcp == true ==> exists|g: int, m: int| 0 <= g < g_mid.len() && #[trigger] shows_socket(g_mid[g], m, recs[j]),
        gs.len() == g_mid.len(),
        forall|g: int| 0 <= g < gs.len() ==> (#[trigger] gs[g]).ip_addr == g_mid[g].ip_addr,
        forall|g: int| 0 <= g < gs.len() ==> proto_list(#[trigger] gs[g], !false) == proto_list(g_mid[g], !false),
        all_on(gs, recs, false),
        forall|j: int| 0 <= j < recs.len() && (#[trigger] recs[j]).is_tcp == false ==> exists|g: int, m: int| 0 <= g < gs.len() && #[trigger] shows_socket(gs[g], m, recs[j]),
    ensures
        groups_ok(gs, recs),
{
    reveal(services_ok);
    reveal(all_on);
    assert forall|g: int| 0 <= g < gs.len() implies (#[trigger] gs[g]).ip_addr == addr_seq[g] by {
        assert(gs[g].ip_addr == g_mid[g].ip_addr);
        assert(g_mid[g].ip_addr == g_mid0[g].ip_addr);
    }
    assert(group_addrs(gs) =~= addr_seq);
    assert forall|g: int| 0 <= g < gs.len() implies services_on((#[trigger] gs[g]).tcp_services@, recs, true, gs[g].ip_addr) by {
        assert(proto_list(gs[g], !false) == proto_list(g_mid[g], !false));
        assert(services_on(proto_list(g_mid[g], true), recs, true, g_mid[g].ip_addr));
    }
    assert forall|g: int| 0 <= g < gs.len() implies services_on((#[trigger] gs[g]).udp_services@, recs, false, gs[g].ip_addr) by {
        assert(services_on(proto_list(gs[g], false), recs, false, gs[g].ip_addr));
    }
    assert forall|j: int| 0 <= j < recs.len() implies socket_shown(gs, #[trigger] recs[j]) by {
        if recs[j].is_tcp {
            let (g, m) = choose|g: int, m: int| 0 <= g < g_mid.len() && #[trigger] shows_socket(g_mid[g], m, recs[j]);
            assert(proto_list(gs[g], !false) == proto_list(g_mid[g], !false));
            assert(gs[g].ip_addr == g_mid[g].ip_addr);
            assert(shows_socket(gs[g], m, recs[j]));
        } else {
            assert(recs[j].is_tcp == false);
            let (g, m) = choose|g: int, m: int| 0 <= g < gs.len() && #[trigger] shows_socket(gs[g], m, recs[j]);
            assert(shows_socket(gs[g], m, recs[j]));
        }
    }
    assert forall|g: int| 0 <= g < gs.len() implies exists|j: int| 0 <= j < recs.len() && (#[trigger] recs[j]).local_addr == (#[trigger] gs[g]).ip_addr by {
        assert(addr_seq.contains(addr_seq[g]));
        let a = addr_seq[g];
        if svc_addrs(tcp_s).contains(a) {
            let q = choose|q: int| 0 <= q < tcp_s.len() && (#[trigger] tcp_s[q]).local_addr == a;
            assert(service_ok(tcp_s[q], recs, true));
            let j = choose|j: int| 0 <= j < recs.len() && #[trigger] socket_of(recs[j], true, tcp_s[q].name@, tcp_s[q].local_addr);
            assert(recs[j].local_addr == gs[g].ip_addr);
        } else {
            assert(svc_addrs(udp_s).contains(a));
            let q = choose|q: int| 0 <= q < udp_s.len() && (#[trigger] udp_s[q]).local_addr == a;
            assert(service_ok(udp_s[q], recs, false));
            let j = choose|j: int| 0 <= j < recs.len() && #[trigger] socket_of(recs[j], false, udp_s[q].name@, udp_s[q].local_addr);
            assert(recs[j].local_addr == gs[g].ip_addr);
        }
    }
}

/// Groups the sockets by local address and, within an address, by process
/// and protocol; also gives the length of the longest process name.
#[verifier::rlimit(100)]
#[verifier::spinoff_prover]
pub fn group_services(records: &Vec<SocketRecord>) -> (r: (Vec<IpServiceGroup>, usize))
    ensures
        groups_ok(r.0@, records@),
        r.1 as int == longest_name(records@),
{
    let ghost recs = records@;
    let mut tcp: Vec<Service> = Vec::new();
    let mut udp: Vec<Service> = Vec::new();
    let mut longest: usize = 0;
    let mut i: usize = 0;
    proof {
        reveal(services_ok);
        assert(recs.take(0) =~= Seq::<SocketRecord>::empty());
    }
    while i < records.len()
        invariant
            recs == records@,
            0 <= i <= recs.len(),
            services_ok(tcp@, recs.take(i as int), true),
            services_ok(udp@, recs.take(i as int), false),
            longest as int == longest_name(recs.take(i as int)),
        decreases recs.len() - i,
    {
        let rec = &records[i];
        proof {
            assert(recs.take(i + 1) =~= recs.take(i as int).push(*rec));
            assert(recs.take(i + 1).drop_last() =~= recs.take(i as int));
        }
        if rec.is_tcp {
            record_socket(&mut tcp, rec, true, Ghost(recs.take(i as int)));
            proof { lemma_services_ok_skip(udp@, recs.take(i as int), *rec, false); }
        } else {
            record_socket(&mut udp, rec, false, Ghost(recs.take(i as int)));
            proof { lemma_services_ok_skip(tcp@, recs.take(i as int), *rec, true); }
        }
        let len = rec.name.as_str().len();
        if len > longest {
            longest = len;
        }
        i = i + 1;
    }
    proof {
        assert(recs.take(recs.len() as int) =~= recs);
    }
    let mut addrs: Vec<IpAddr> = Vec::new();
    collect_addrs(&mut addrs, &tcp);
    collect_addrs(&mut addrs, &udp);
    let ghost addr_seq = addrs@;
    let mut groups: Vec<IpServiceGroup> = Vec::new();
    let mut k: usize = 0;
    while k < addrs.len()
        invariant
            addrs@ == addr_seq,
            0 <= k <= addrs@.len(),
            groups@.len() == k,
            forall|g: int| 0 <= g < k ==> (#[trigger] groups@[g]).ip_addr == addr_seq[g],
            forall|g: int| 0 <= g < k ==> (#[trigger] groups@[g]).tcp_services@ == Seq::<Service>::empty(),
            forall|g: int| 0 <= g < k ==> (#[trigger] groups@[g]).udp_services@ == Seq::<Service>::empty(),
        decreases addrs@.len() - k,
    {
        groups.push(IpServiceGroup { ip_addr: addrs[k], tcp_services: Vec::new(), udp_services: Vec::new() });
        k = k + 1;
    }
    proof {
        assert forall|q: int| 0 <= q < tcp@.len() implies exists|g: int| 0 <= g < groups@.len() && (#[trigger] groups@[g]).ip_addr == (#[trigger] tcp@[q]).local_addr by {
            assert(svc_addrs(tcp@).contains(tcp@[q].local_addr));
            assert(addr_seq.contains(tcp@[q].local_addr));
            let g = choose|g: int| 0 <= g < addr_seq.len() && addr_seq[g] == tcp@[q].local_addr;
            assert(groups@[g].ip_addr == addr_seq[g]);
        }
        assert forall|q: int| 0 <= q < udp@.len() implies exists|g: int| 0 <= g < groups@.len() && (#[trigger] groups@[g]).ip_addr == (#[trigger] udp@[q]).local_addr by {
            assert(svc_addrs(udp@).contains(udp@[q].local_addr));
            assert(addr_seq.contains(udp@[q].local_addr));
            let g = choose|g: int| 0 <= g < addr_seq.len() && addr_seq[g] == udp@[q].local_addr;
            assert(groups@[g].ip_addr == addr_seq[g]);
        }
        assert forall|g: int| 0 <= g < groups@.len() implies proto_list(#[trigger] groups@[g], true) == Seq::<Service>::empty() by {}
    }
    let ghost g_mid0 = groups@;
    let ghost tcp_s = tcp@;
    let ghost udp_s = udp@;
    distribute(&mut groups, tcp, true, Ghost(recs));
    let ghost g_mid = groups@;
    proof {
        assert forall|q: int| 0 <= q < udp_s.len() implies exists|g: int| 0 <= g < groups@.len() && (#[trigger] groups@[g]).ip_addr == (#[trigger] udp_s[q]).local_addr by {
            let g = choose|g: int| 0 <= g < g_mid0.len() && (#[trigger] g_mid0[g]).ip_addr == (#[trigger] udp_s[q]).local_addr;
            assert(groups@[g].ip_addr == g_mid0[g].ip_addr);
        }
        assert forall|g: int| 0 <= g < groups@.len() implies proto_list(#[trigger] groups@[g], false) == Seq::<Service>::empty() by {
            assert(proto_list(groups@[g], !true) == proto_list(g_mid0[g], !true));
        }
    }
    distribute(&mut groups, udp, false, Ghost(recs));
    proof {
        lemma_groups_ok(groups@, g_mid, g_mid0, addr_seq, tcp_s, udp_s, recs);
    }
    (groups, longest)
}

} // verus!
