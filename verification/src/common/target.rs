//! Scan targets and their textual syntax.
//!
//! A target is the local LAN, a VPN, a single host, an IPv4 range written
//! `start-end` (the end possibly abbreviated to its last octets), a CIDR
//! block written `network/prefix`, or a comma-separated list of these.

use vstd::prelude::*;
use crate::addr::{be32, IpAddr, Ipv4Addr};
use crate::addr_text::{ip_text, ipv4_text, parse_ip_text, parse_ipv4_text};
use crate::common::range::{cidr_range, IpCollection, Ipv4Range};
use crate::network::Ipv4Net;
use crate::text::{
    contains_char, lower_eq, lower_seq, parse_u8, spec_parse_u8, split_once, spec_split_once, split_seq,
    split_str, trim, trim_seq, IntErrorKind,
};

verus! {

/// A distinct target to be scanned.
#[derive(Debug)]
pub enum Target {
    /// The entire local area network.
    LAN,
    /// One host.
    Host { target_addr: IpAddr },
    /// A range of IPv4 addresses.
    Range { ipv4_range: Ipv4Range },
    /// The network behind a VPN interface.
    VPN,
    /// A list of targets.
    Multi { targets: Vec<Target> },
}

/// The keyword targets, read from the text in lower case.
pub open spec fn spec_keyword(s: Seq<char>) -> Option<Target> {
    if lower_seq(s) == "lan"@ {
        Some(Target::LAN)
    } else if lower_seq(s) == "vpn"@ {
        Some(Target::VPN)
    } else {
        None
    }
}

fn parse_keyword(s: &str) -> (r: Option<Target>)
    ensures
        r == spec_keyword(s@),
{
    if lower_eq(s, "lan") {
        Some(Target::LAN)
    } else if lower_eq(s, "vpn") {
        Some(Target::VPN)
    } else {
        None
    }
}

pub open spec fn spec_host(s: Seq<char>) -> Option<Target> {
    match ip_text(s) {
        Some(a) => Some(Target::Host { target_addr: a }),
        None => None,
    }
}

fn parse_host(s: &str) -> (r: Option<Target>)
    ensures
        r == spec_host(s@),
{
    match parse_ip_text(s) {
        Some(target_addr) => Some(Target::Host { target_addr }),
        None => None,
    }
}

/// The text that the address parser gives as its reason.
pub open spec fn addr_syntax_msg() -> Seq<char> {
    "invalid IPv4 address syntax"@
}

/// The octets of a dotted list of decimal numbers, or the first error among
/// them.
pub open spec fn parse_octets(ps: Seq<Seq<char>>) -> Result<Seq<u8>, IntErrorKind>
    decreases ps.len(),
{
    if ps.len() == 0 {
        Ok(Seq::empty())
    } else {
        match parse_octets(ps.drop_last()) {
            Err(e) => Err(e),
            Ok(vs) => match spec_parse_u8(ps.last()) {
                Ok(v) => Ok(vs.push(v)),
                Err(e) => Err(e),
            },
        }
    }
}

/// The octet of index `i` of the end address: taken from the start address
/// before the given octets, from the given octets after that.
pub open spec fn merged_octet(start: Ipv4Addr, vals: Seq<u8>, i: int) -> int {
    let off = 4 - vals.len();
    if i < off {
        start.octet(i)
    } else {
        vals[i - off] as int
    }
}

/// The end of a range: a full address, or the last octets of one, the
/// others taken from the start address.
pub open spec fn spec_end_addr(end: Seq<char>, start: Ipv4Addr, original: Seq<char>) -> Result<u32, Seq<char>> {
    match ipv4_text(end) {
        Some(b) => Ok(b),
        None => match parse_octets(split_seq(end, '.')) {
            Err(e) => Err("Invalid end range '"@ + end + "': "@ + e.spec_message()),
            Ok(vals) => if vals.len() == 0 {
                Err("End range cannot be empty: "@ + original)
            } else if vals.len() > 4 {
                Err("End range has too many octets: "@ + end)
            } else {
                Ok(
                    be32(
                        merged_octet(start, vals, 0),
                        merged_octet(start, vals, 1),
                        merged_octet(start, vals, 2),
                        merged_octet(start, vals, 3),
                    ) as u32,
                )
            },
        },
    }
}

fn concat3(a: &str, b: &str, c: &str) -> (r: String)
    ensures
        r@ == a@ + b@ + c@,
{
    let mut s = String::from_str(a);
    s.append(b);
    s.append(c);
    s
}

/// Reads the end of a range: `192.168.1.50`, or an abbreviation of it such
/// as `50`, `1.50` or `168.1.50` whose missing leading octets are those of
/// `start_addr`.
pub fn parse_range_end_addr(end_str: &str, start_addr: &Ipv4Addr, original_s: &str) -> (r: Result<Ipv4Addr, String>)
    ensures
        match spec_end_addr(end_str@, *start_addr, original_s@) {
            Ok(b) => r == Ok::<Ipv4Addr, String>(Ipv4Addr { bits: b }),
            Err(m) => r matches Err(e) && e@ == m,
        },
{
    if let Some(full_addr) = parse_ipv4_text(end_str) {
        return Ok(full_addr);
    }
    let parts = split_str(end_str, '.');
    let ghost ps = split_seq(end_str@, '.');
    let mut vals: Vec<u8> = Vec::new();
    let mut i: usize = 0;
    while i < parts.len()
        invariant
            parts@.len() == ps.len(),
            forall|k: int| 0 <= k < ps.len() ==> (#[trigger] parts@[k])@ == ps[k],
            0 <= i <= ps.len(),
            parse_octets(ps.take(i as int)) == Ok::<Seq<u8>, IntErrorKind>(vals@),
            ipv4_text(end_str@) is None,
            ps == split_seq(end_str@, '.'),
        decreases ps.len() - i,
    {
        assert(ps.take(i + 1).drop_last() =~= ps.take(i as int));
        match parse_u8(parts[i]) {
            Ok(v) => {
                vals.push(v);
            },
            Err(e) => {
                proof {
                    lemma_parse_octets_prefix_err(ps, i as int + 1);
                }
                let mut msg = concat3("Invalid end range '", end_str, "': ");
                msg.append(e.message());
                return Err(msg);
            },
        }
        i = i + 1;
    }
    assert(ps.take(ps.len() as int) =~= ps);
    if vals.len() == 0 {
        let mut msg = String::from_str("End range cannot be empty: ");
        msg.append(original_s);
        return Err(msg);
    }
    if vals.len() > 4 {
        let mut msg = String::from_str("End range has too many octets: ");
        msg.append(end_str);
        return Err(msg);
    }
    let so = start_addr.octets();
    let off: usize = 4 - vals.len();
    let o0 = if 0 < off { so[0] } else { vals[0 - off] };
    let o1 = if 1 < off { so[1] } else { vals[1 - off] };
    let o2 = if 2 < off { so[2] } else { vals[2 - off] };
    let o3 = vals[3 - off];
    Ok(Ipv4Addr::new(o0, o1, o2, o3))
}

proof fn lemma_parse_octets_prefix_err(ps: Seq<Seq<char>>, k: int)
    requires
        0 < k <= ps.len(),
        parse_octets(ps.take(k)) is Err,
    ensures
        parse_octets(ps) == parse_octets(ps.take(k)),
    decreases ps.len() - k,
{
    if k < ps.len() {
        assert(ps.take(k + 1).drop_last() =~= ps.take(k));
        lemma_parse_octets_prefix_err(ps, k + 1);
    } else {
        assert(ps.take(k) =~= ps);
    }
}

/// A range `start-end`: `None` without a dash, an error when either end is
/// not an address, otherwise the range between the two ends.
pub open spec fn spec_ip_range(s: Seq<char>) -> Result<Option<Target>, Seq<char>> {
    match spec_split_once(s, '-') {
        None => Ok(None),
        Some((a, b)) => match ipv4_text(a) {
            None => Err("Invalid start IP in range '"@ + a + "': "@ + addr_syntax_msg()),
            Some(start) => match spec_end_addr(b, Ipv4Addr { bits: start }, s) {
                Err(m) => Err(m),
                Ok(end) => Ok(Some(Target::Range { ipv4_range: normalised(start, end) })),
            },
        },
    }
}

/// The range between two addresses given in either order.
pub open spec fn normalised(a: u32, b: u32) -> Ipv4Range {
    if a <= b {
        Ipv4Range { start_addr: Ipv4Addr { bits: a }, end_addr: Ipv4Addr { bits: b } }
    } else {
        Ipv4Range { start_addr: Ipv4Addr { bits: b }, end_addr: Ipv4Addr { bits: a } }
    }
}

fn parse_ip_range(s: &str) -> (r: Result<Option<Target>, String>)
    ensures
        match spec_ip_range(s@) {
            Ok(t) => r matches Ok(t2) && t2 == t,
            Err(m) => r matches Err(e) && e@ == m,
        },
{
    let (start_str, end_str) = match split_once(s, '-') {
        None => return Ok(None),
        Some(p) => p,
    };
    let start_addr = match parse_ipv4_text(start_str) {
        Some(a) => a,
        None => {
            let mut msg = concat3("Invalid start IP in range '", start_str, "': ");
            msg.append("invalid IPv4 address syntax");
            proof {
                reveal_strlit("invalid IPv4 address syntax");
            }
            return Err(msg);
        },
    };
    let end_addr = parse_range_end_addr(end_str, &start_addr, s)?;
    let ipv4_range = Ipv4Range::new(start_addr, end_addr);
    Ok(Some(Target::Range { ipv4_range }))
}

/// The text that the prefix check gives as its reason.
pub open spec fn prefix_msg() -> Seq<char> {
    "invalid prefix"@
}

/// A CIDR block `network/prefix`: `None` without a slash, an error when the
/// address, the prefix or their combination is invalid.
pub open spec fn spec_cidr(s: Seq<char>) -> Result<Option<Target>, Seq<char>> {
    match spec_split_once(s, '/') {
        None => Ok(None),
        Some((a, p)) => match ipv4_text(a) {
            None => Err("Invalid IP in CIDR '"@ + a + "': "@ + addr_syntax_msg()),
            Some(ip) => match spec_parse_u8(p) {
                Err(e) => Err("Invalid prefix in CIDR '"@ + p + "': "@ + e.spec_message()),
                Ok(prefix) => if prefix > 32 {
                    Err(prefix_msg())
                } else {
                    Ok(Some(Target::Range { ipv4_range: cidr_block(ip, prefix) }))
                },
            },
        },
    }
}

/// The network block of `ip` with the given prefix, from its network address
/// to its broadcast address.
pub open spec fn cidr_block(ip: u32, prefix: u8) -> Ipv4Range {
    Ipv4Range {
        start_addr: Ipv4Addr { bits: ip & crate::network::v4_mask(prefix) },
        end_addr: Ipv4Addr { bits: ip | !crate::network::v4_mask(prefix) },
    }
}

fn parse_cidr_range(s: &str) -> (r: Result<Option<Target>, String>)
    ensures
        match spec_cidr(s@) {
            Ok(t) => r matches Ok(t2) && t2 == t,
            Err(m) => r matches Err(e) && e@ == m,
        },
{
    let (ip_str, prefix_str) = match split_once(s, '/') {
        None => return Ok(None),
        Some(p) => p,
    };
    let ipv4_addr = match parse_ipv4_text(ip_str) {
        Some(a) => a,
        None => {
            let mut msg = concat3("Invalid IP in CIDR '", ip_str, "': ");
            msg.append("invalid IPv4 address syntax");
            proof {
                reveal_strlit("invalid IPv4 address syntax");
            }
            return Err(msg);
        },
    };
    let prefix = match parse_u8(prefix_str) {
        Ok(p) => p,
        Err(e) => {
            let mut msg = concat3("Invalid prefix in CIDR '", prefix_str, "': ");
            msg.append(e.message());
            return Err(msg);
        },
    };
    match cidr_range(ipv4_addr, prefix) {
        Ok(ipv4_range) => {
            proof {
                let n = choose|n: Ipv4Net|
                    n.spec_ip() == ipv4_addr && n.spec_prefix() == prefix && ipv4_range.start_addr.bits
                        == n.spec_network() && ipv4_range.end_addr.bits == n.spec_broadcast();
                crate::network::lemma_mask_interval(ipv4_addr.bits, ipv4_addr.bits, prefix);
            }
            Ok(Some(Target::Range { ipv4_range }))
        },
        Err(_) => {
            proof {
                reveal_strlit("invalid prefix");
            }
            Err(String::from_str("invalid prefix"))
        },
    }
}


/// What a text that is no keyword denotes: a host, a range or a CIDR block,
/// tried in this order.
pub open spec fn spec_after_keyword(s: Seq<char>) -> Result<Target, Seq<char>> {
    match spec_host(s) {
        Some(t) => Ok(t),
        None => match spec_ip_range(s) {
            Err(m) => Err(m),
            Ok(Some(t)) => Ok(t),
            Ok(None) => match spec_cidr(s) {
                Err(m) => Err(m),
                Ok(Some(t)) => Ok(t),
                Ok(None) => Err("invalid target: "@ + s),
            },
        },
    }
}

/// What a text without commas denotes.
pub open spec fn spec_single(s: Seq<char>) -> Result<Target, Seq<char>> {
    match spec_keyword(s) {
        Some(t) => Ok(t),
        None => spec_after_keyword(s),
    }
}

/// The pieces of a list with white space trimmed and empty pieces dropped.
pub open spec fn nonblank(ps: Seq<Seq<char>>) -> Seq<Seq<char>>
    decreases ps.len(),
{
    if ps.len() == 0 {
        Seq::empty()
    } else {
        let rest = nonblank(ps.drop_last());
        let t = trim_seq(ps.last());
        if t.len() > 0 {
            rest.push(t)
        } else {
            rest
        }
    }
}

/// The targets of a list of pieces, or the error of the first piece that
/// denotes none.
pub open spec fn list_targets(ps: Seq<Seq<char>>) -> Result<Seq<Target>, Seq<char>>
    decreases ps.len(),
{
    if ps.len() == 0 {
        Ok(Seq::empty())
    } else {
        match list_targets(ps.drop_last()) {
            Err(m) => Err(m),
            Ok(ts) => match spec_single(ps.last()) {
                Ok(t) => Ok(ts.push(t)),
                Err(m) => Err("Failed to parse target '"@ + ps.last() + "': "@ + m),
            },
        }
    }
}

/// The targets of a comma-separated list.
pub open spec fn spec_commas(s: Seq<char>) -> Result<Seq<Target>, Seq<char>> {
    list_targets(nonblank(split_seq(s, ',')))
}

fn parse_after_keyword(s: &str) -> (r: Result<Target, String>)
    ensures
        match spec_after_keyword(s@) {
            Ok(t) => r matches Ok(t2) && t2 == t,
            Err(m) => r matches Err(e) && e@ == m,
        },
{
    if let Some(target) = parse_host(s) {
        return Ok(target);
    }
    if let Some(target) = parse_ip_range(s)? {
        return Ok(target);
    }
    if let Some(target) = parse_cidr_range(s)? {
        return Ok(target);
    }
    let mut msg = String::from_str("invalid target: ");
    msg.append(s);
    Err(msg)
}

fn parse_single(s: &str) -> (r: Result<Target, String>)
    ensures
        match spec_single(s@) {
            Ok(t) => r matches Ok(t2) && t2 == t,
            Err(m) => r matches Err(e) && e@ == m,
        },
{
    if let Some(target) = parse_keyword(s) {
        return Ok(target);
    }
    parse_after_keyword(s)
}

proof fn lemma_list_targets_prefix_err(ps: Seq<Seq<char>>, k: int)
    requires
        0 <= k <= ps.len(),
        list_targets(nonblank(ps.take(k))) is Err,
    ensures
        list_targets(nonblank(ps)) == list_targets(nonblank(ps.take(k))),
    decreases ps.len() - k,
{
    if k < ps.len() {
        assert(ps.take(k + 1).drop_last() =~= ps.take(k));
        let t = trim_seq(ps.take(k + 1).last());
        if t.len() > 0 {
            assert(nonblank(ps.take(k + 1)).drop_last() =~= nonblank(ps.take(k)));
        }
        lemma_list_targets_prefix_err(ps, k + 1);
    } else {
        assert(ps.take(k) =~= ps);
    }
}

/// Parses a comma-separated list of targets, e.g. `192.168.1.5, 10.0.0.1-50, lan`.
/// Blank entries are skipped; the first entry that is no target fails the
/// whole list.
pub fn parse_commas(s: &str) -> (r: Result<Target, String>)
    ensures
        match spec_commas(s@) {
            Ok(ts) => r matches Ok(Target::Multi { targets }) && targets@ == ts,
            Err(m) => r matches Err(e) && e@ == m,
        },
{
    let parts = split_str(s, ',');
    let ghost ps = split_seq(s@, ',');
    let mut targets: Vec<Target> = Vec::new();
    let mut i: usize = 0;
    while i < parts.len()
        invariant
            parts@.len() == ps.len(),
            ps == split_seq(s@, ','),
            forall|k: int| 0 <= k < ps.len() ==> (#[trigger] parts@[k])@ == ps[k],
            0 <= i <= ps.len(),
            list_targets(nonblank(ps.take(i as int))) == Ok::<Seq<Target>, Seq<char>>(targets@),
        decreases ps.len() - i,
    {
        assert(ps.take(i + 1).drop_last() =~= ps.take(i as int));
        let part = trim(parts[i]);
        if part.unicode_len() == 0 {
            i = i + 1;
            continue;
        }
        assert(nonblank(ps.take(i + 1)).drop_last() =~= nonblank(ps.take(i as int)));
        match parse_single(part) {
            Ok(target) => {
                targets.push(target);
            },
            Err(e) => {
                proof {
                    lemma_list_targets_prefix_err(ps, i as int + 1);
                }
                let mut msg = concat3("Failed to parse target '", part, "': ");
                msg.append(e.as_str());
                return Err(msg);
            },
        }
        i = i + 1;
    }
    assert(ps.take(ps.len() as int) =~= ps);
    Ok(Target::Multi { targets })
}

/// What reading the text `s` as a target gives. Keywords come first; a text
/// with commas is a list when every entry is a target; otherwise the text is
/// a host, a range or a CIDR block, or the error of the last reading tried.
pub open spec fn parse_outcome(s: Seq<char>, r: Result<Target, String>) -> bool {
    &&& spec_keyword(s) is Some ==> (r matches Ok(t) && Some(t) == spec_keyword(s))
    &&& spec_keyword(s) is None && s.contains(',') && spec_commas(s) is Ok ==> (r matches Ok(
        Target::Multi { targets },
    ) && targets@ == spec_commas(s)->Ok_0)
    &&& spec_keyword(s) is None && !(s.contains(',') && spec_commas(s) is Ok) ==> match spec_after_keyword(s) {
        Ok(t) => r matches Ok(t2) && t2 == t,
        Err(m) => r matches Err(e) && e@ == m,
    }
}

impl Target {
    /// Reads a target. Keywords (`lan`, `vpn`, in any case) come first; a
    /// text with commas is read as a list when every entry is a target;
    /// otherwise the text is read as a host, a range or a CIDR block.
    pub fn parse(s: &str) -> (r: Result<Target, String>)
        ensures
            parse_outcome(s@, r),
    {
        if let Some(target) = parse_keyword(s) {
            return Ok(target);
        }
        if contains_char(s, ',') {
            if let Ok(target) = parse_commas(s) {
                return Ok(target);
            }
        }
        parse_after_keyword(s)
    }

    pub open spec fn spec_mentions_lan(self) -> bool
        decreases self,
    {
        match self {
            Target::LAN => true,
            Target::Multi { targets } => exists|i: int|
                0 <= i < targets@.len() && (#[trigger] targets@[i]).spec_mentions_lan(),
            _ => false,
        }
    }
}

impl std::str::FromStr for Target {
    type Err = String;

    fn from_str(s: &str) -> (r: Result<Self, Self::Err>)
        ensures
            parse_outcome(s@, r),
    {
        Target::parse(s)
    }
}


/// The usable part of a LAN: its block without the network and broadcast
/// addresses, or the whole block when that leaves nothing.
pub open spec fn lan_range(net: Ipv4Net) -> Ipv4Range {
    let n = net.spec_network();
    let b = net.spec_broadcast();
    let s = if n == u32::MAX {
        n
    } else {
        (n + 1) as u32
    };
    let e = if b == 0 {
        0
    } else {
        (b - 1) as u32
    };
    if s <= e {
        Ipv4Range { start_addr: Ipv4Addr { bits: s }, end_addr: Ipv4Addr { bits: e } }
    } else {
        Ipv4Range { start_addr: Ipv4Addr { bits: n }, end_addr: Ipv4Addr { bits: b } }
    }
}

/// Whether the LAN's block is large enough to leave out its network and
/// broadcast addresses.
pub open spec fn lan_strips(net: Ipv4Net) -> bool {
    let n = net.spec_network();
    let b = net.spec_broadcast();
    (if n == u32::MAX { n as int } else { n + 1 }) <= (if b == 0 { 0 } else { b - 1 })
}

/// The ranges that a target adds, in order, given the LAN's network.
pub open spec fn target_ranges(t: Target, lan: Option<Ipv4Net>) -> Seq<Ipv4Range>
    decreases t,
{
    match t {
        Target::LAN => match lan {
            Some(n) => seq![lan_range(n)],
            None => Seq::empty(),
        },
        Target::Range { ipv4_range } => seq![ipv4_range],
        Target::Multi { targets } => list_ranges(targets@, lan),
        _ => Seq::empty(),
    }
}

pub open spec fn list_ranges(ts: Seq<Target>, lan: Option<Ipv4Net>) -> Seq<Ipv4Range>
    decreases ts,
{
    if ts.len() == 0 {
        Seq::empty()
    } else {
        list_ranges(ts.drop_last(), lan) + target_ranges(ts.last(), lan)
    }
}

/// The single addresses that a target adds.
pub open spec fn target_singles(t: Target) -> Set<IpAddr>
    decreases t,
{
    match t {
        Target::Host { target_addr } => set![target_addr],
        Target::Multi { targets } => list_singles(targets@),
        _ => Set::empty(),
    }
}

pub open spec fn list_singles(ts: Seq<Target>) -> Set<IpAddr>
    decreases ts,
{
    if ts.len() == 0 {
        Set::empty()
    } else {
        list_singles(ts.drop_last()).union(target_singles(ts.last()))
    }
}

/// Whether a target can be resolved: no VPN anywhere in it, and a LAN only
/// where the LAN's network could be looked up.
pub open spec fn target_ok(t: Target, lan_found: bool) -> bool
    decreases t,
{
    match t {
        Target::LAN => lan_found,
        Target::VPN => false,
        Target::Multi { targets } => list_ok(targets@, lan_found),
        _ => true,
    }
}

pub open spec fn list_ok(ts: Seq<Target>, lan_found: bool) -> bool
    decreases ts,
{
    if ts.len() == 0 {
        true
    } else {
        list_ok(ts.drop_last(), lan_found) && target_ok(ts.last(), lan_found)
    }
}

/// Whether resolving the target scans the LAN without its network and
/// broadcast addresses.
pub open spec fn target_lan_scan(t: Target, lan: Option<Ipv4Net>) -> bool
    decreases t,
{
    match t {
        Target::LAN => match lan {
            Some(n) => lan_strips(n),
            None => false,
        },
        Target::Multi { targets } => list_lan_scan(targets@, lan),
        _ => false,
    }
}

pub open spec fn list_lan_scan(ts: Seq<Target>, lan: Option<Ipv4Net>) -> bool
    decreases ts,
{
    if ts.len() == 0 {
        false
    } else {
        list_lan_scan(ts.drop_last(), lan) || target_lan_scan(ts.last(), lan)
    }
}

pub open spec fn lan_of(lan: Result<Option<Ipv4Net>, String>) -> Option<Ipv4Net> {
    match lan {
        Ok(Some(n)) => Some(n),
        _ => None,
    }
}

/// Adds the addresses of a target to a collection. `lan` is the outcome of
/// looking up the LAN's network: a LAN target adds its usable range, nothing
/// when there is no LAN network, and fails when the lookup failed. A VPN
/// target fails. On success the result tells whether the LAN's range was
/// trimmed of its network and broadcast addresses.
pub fn resolve_target(
    target: Target,
    collection: &mut IpCollection,
    lan: &Result<Option<Ipv4Net>, String>,
) -> (r: Result<bool, String>)
    ensures
        r is Ok <==> target_ok(target, lan is Ok),
        r matches Ok(flag) ==> flag == target_lan_scan(target, lan_of(*lan))
            && final(collection).spec_ranges() == old(collection).spec_ranges() + target_ranges(
            target,
            lan_of(*lan),
        ) && final(collection).spec_singles().to_set() == old(collection).spec_singles().to_set().union(
            target_singles(target),
        ),
    decreases target,
{
    match target {
        Target::LAN => {
            match lan {
                Err(e) => Err(e.clone()),
                Ok(None) => {
                    assert(collection.spec_singles().to_set() =~= collection.spec_singles().to_set().union(
                        Set::empty(),
                    ));
                    assert(collection.spec_ranges() =~= collection.spec_ranges() + Seq::empty());
                    Ok(false)
                },
                Ok(Some(net)) => {
                    let network = net.network();
                    let broadcast = net.broadcast();
                    let start_u32 = network.bits.saturating_add(1);
                    let end_u32 = broadcast.bits.saturating_sub(1);
                    let _prefix = net.prefix();
                    proof {
                        crate::network::lemma_net_contains_interval(*net, net.spec_ip());
                    }
                    let flag = start_u32 <= end_u32;
                    if flag {
                        collection.add_range(
                            Ipv4Range::new(Ipv4Addr { bits: start_u32 }, Ipv4Addr { bits: end_u32 }),
                        );
                    } else {
                        collection.add_range(Ipv4Range::new(network, broadcast));
                    }
                    assert(collection.spec_singles().to_set() =~= old(collection).spec_singles().to_set().union(
                        Set::empty(),
                    ));
                    Ok(flag)
                },
            }
        },
        Target::Host { target_addr } => {
            collection.add_single(target_addr);
            assert(set![target_addr] =~= Set::empty().insert(target_addr));
            assert(collection.spec_ranges() =~= old(collection).spec_ranges() + Seq::empty());
            Ok(false)
        },
        Target::Range { ipv4_range } => {
            collection.add_range(ipv4_range);
            assert(collection.spec_singles().to_set() =~= old(collection).spec_singles().to_set().union(
                Set::empty(),
            ));
            Ok(false)
        },
        Target::VPN => {
            Err(String::from_str("VPN scan target not yet implemented"))
        },
        Target::Multi { targets } => {
            let ghost all = targets@;
            assert(decreases_to!(target => targets));
            let mut rest = targets;
            let mut flag = false;
            let mut k: usize = 0;
            let n = rest.len();
            assert(all.take(0) =~= Seq::<Target>::empty());
            assert(collection.spec_ranges() =~= old(collection).spec_ranges() + Seq::empty());
            assert(collection.spec_singles().to_set() =~= old(collection).spec_singles().to_set().union(
                Set::empty(),
            ));
            while k < n
                invariant
                    n == all.len(),
                    0 <= k <= n,
                    rest@ == all.skip(k as int),
                    all == targets@,
                    decreases_to!(target => targets),
                    target_ok(target, lan is Ok) == list_ok(all, lan is Ok),
                    list_ok(all.take(k as int), lan is Ok),
                    flag == list_lan_scan(all.take(k as int), lan_of(*lan)),
                    collection.spec_ranges() == old(collection).spec_ranges() + list_ranges(
                        all.take(k as int),
                        lan_of(*lan),
                    ),
                    collection.spec_singles().to_set() == old(collection).spec_singles().to_set().union(
                        list_singles(all.take(k as int)),
                    ),
                decreases n - k,
            {
                let t = rest.remove(0);
                assert(t == all[k as int]);
                proof {
                    assert(decreases_to!(targets => targets@));
                    assert(decreases_to!(targets@ => targets@[k as int]));
                    assert(decreases_to!(target => t));
                }
                assert(all.take(k + 1).drop_last() =~= all.take(k as int));
                let ghost before = collection.spec_ranges();
                let ghost before_s = collection.spec_singles().to_set();
                match resolve_target(t, collection, lan) {
                    Err(e) => {
                        proof {
                            lemma_list_ok_prefix(all, k as int + 1, lan is Ok);
                        }
                        return Err(e);
                    },
                    Ok(f) => {
                        flag = flag || f;
                    },
                }
                assert(rest@ =~= all.skip(k + 1));
                assert(collection.spec_ranges() =~= old(collection).spec_ranges() + list_ranges(
                    all.take(k + 1),
                    lan_of(*lan),
                ));
                assert(collection.spec_singles().to_set() =~= old(collection).spec_singles().to_set().union(
                    list_singles(all.take(k + 1)),
                ));
                k = k + 1;
            }
            assert(all.take(n as int) =~= all);
            Ok(flag)
        },
    }
}

proof fn lemma_list_ok_prefix(ts: Seq<Target>, k: int, found: bool)
    requires
        0 < k <= ts.len(),
        !target_ok(ts[k - 1], found),
    ensures
        !list_ok(ts, found),
    decreases ts.len() - k,
{
    if k < ts.len() {
        lemma_list_ok_prefix(ts.drop_last(), k, found);
    }
}

/// The addresses of a target as a fresh collection; see `resolve_target`.
pub fn to_collection(target: Target, lan: &Result<Option<Ipv4Net>, String>) -> (r: Result<(IpCollection, bool), String>)
    ensures
        r is Ok <==> target_ok(target, lan is Ok),
        r matches Ok((c, flag)) ==> flag == target_lan_scan(target, lan_of(*lan)) && c.spec_ranges()
            == target_ranges(target, lan_of(*lan)) && c.spec_singles().to_set() == target_singles(target),
{
    let mut collection = IpCollection::new();
    let ghost t = target;
    let flag = resolve_target(target, &mut collection, lan)?;
    assert(collection.spec_ranges() =~= target_ranges(t, lan_of(*lan)));
    assert(collection.spec_singles().to_set() =~= target_singles(t));
    Ok((collection, flag))
}

/// The keywords are read without regard to case: a text that spells
/// "lan" in any mix of upper and lower case is read as the LAN target, and
/// one that spells "vpn" so as the VPN target.
pub proof fn lemma_keywords_ignore_case(s: Seq<char>, r: Result<Target, String>)
    requires
        parse_outcome(s, r),
        s.len() == 3,
    ensures
        (s[0] == 'l' || s[0] == 'L') && (s[1] == 'a' || s[1] == 'A') && (s[2] == 'n' || s[2] == 'N') ==> (r matches Ok(
            t,
        ) && t == Target::LAN),
        (s[0] == 'v' || s[0] == 'V') && (s[1] == 'p' || s[1] == 'P') && (s[2] == 'n' || s[2] == 'N') ==> (r matches Ok(
            t,
        ) && t == Target::VPN),
{
    reveal_strlit("lan");
    reveal_strlit("vpn");
    let l = lower_seq(s);
    assert(l.len() == 3);
    assert(l[0] == crate::text::ascii_lower(s[0]));
    assert(l[1] == crate::text::ascii_lower(s[1]));
    assert(l[2] == crate::text::ascii_lower(s[2]));
    assert(crate::text::ascii_lower('L') == 'l');
    assert(crate::text::ascii_lower('A') == 'a');
    assert(crate::text::ascii_lower('N') == 'n');
    assert(crate::text::ascii_lower('V') == 'v');
    assert(crate::text::ascii_lower('P') == 'p');
    if (s[0] == 'l' || s[0] == 'L') && (s[1] == 'a' || s[1] == 'A') && (s[2] == 'n' || s[2] == 'N') {
        assert(l =~= "lan"@);
    }
    if (s[0] == 'v' || s[0] == 'V') && (s[1] == 'p' || s[1] == 'P') && (s[2] == 'n' || s[2] == 'N') {
        assert(l =~= "vpn"@);
    }
}

/// Two texts that are the same in lower case are read as the same keyword
/// target, or as no keyword at all.
pub proof fn lemma_keyword_depends_on_lower_case(s1: Seq<char>, s2: Seq<char>)
    requires
        lower_seq(s1) == lower_seq(s2),
    ensures
        spec_keyword(s1) == spec_keyword(s2),
{
}

/// The range that a LAN target adds, given the LAN's network: when the
/// block has room for it, every address of the block but the network and
/// broadcast addresses, whatever the interface's own address; otherwise
/// the whole block.
pub proof fn lemma_lan_range_covers_hosts(net: Ipv4Net, a: Ipv4Addr)
    requires
        net.spec_prefix() <= 32,
    ensures
        target_ranges(Target::LAN, Some(net)).len() == 1,
        net.spec_network() + 1 <= net.spec_broadcast() - 1 ==> (crate::common::range::range_holds(
            target_ranges(Target::LAN, Some(net))[0],
            a,
        ) <==> (net.spec_contains(a) && a.bits != net.spec_network() && a.bits != net.spec_broadcast())),
        net.spec_network() + 1 > net.spec_broadcast() - 1 ==> (crate::common::range::range_holds(
            target_ranges(Target::LAN, Some(net))[0],
            a,
        ) <==> net.spec_contains(a)),
{
    crate::network::lemma_net_contains_interval(net, a);
    assert(target_ranges(Target::LAN, Some(net)) == seq![lan_range(net)]);
}

} // verus!
