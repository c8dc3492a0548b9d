//! Normalised IPv4 ranges and collections of scan addresses.

use vstd::prelude::*;
use crate::addr::{IpAddr, Ipv4Addr};
use crate::domain::range::span;
use crate::network::{Ipv4Net, NetError};

verus! {

/// A range of IPv4 addresses whose start never lies above its end.
#[derive(Clone, Copy, Debug, PartialEq, Eq, Structural, Hash)]
pub struct Ipv4Range {
    pub start_addr: Ipv4Addr,
    pub end_addr: Ipv4Addr,
}

/// Whether `a` lies between the bounds of `r`.
pub open spec fn range_holds(r: Ipv4Range, a: Ipv4Addr) -> bool {
    r.start_addr.bits <= a.bits <= r.end_addr.bits
}

/// The number of addresses between the bounds of `r`.
pub open spec fn range_size(r: Ipv4Range) -> int {
    if r.end_addr.bits >= r.start_addr.bits {
        r.end_addr.bits - r.start_addr.bits + 1
    } else {
        0
    }
}

/// The addresses of `r` in ascending order.
pub open spec fn range_addrs(r: Ipv4Range) -> Seq<IpAddr> {
    span(r.start_addr.bits, r.end_addr.bits).map_values(|b: u32| IpAddr::V4(Ipv4Addr { bits: b }))
}

impl Ipv4Range {
    /// The range between two addresses, given in either order.
    pub fn new(start: Ipv4Addr, end: Ipv4Addr) -> (r: Self)
        ensures
            r.start_addr.bits <= r.end_addr.bits,
            (r.start_addr == start && r.end_addr == end) || (r.start_addr == end && r.end_addr
                == start),
    {
        if start.bits <= end.bits {
            Ipv4Range { start_addr: start, end_addr: end }
        } else {
            Ipv4Range { start_addr: end, end_addr: start }
        }
    }

    /// Every address of the range, ascending, as `IpAddr`.
    pub fn to_iter(&self) -> (r: Vec<IpAddr>)
        requires
            range_size(*self) <= usize::MAX,
        ensures
            r@ == range_addrs(*self),
    {
        let mut out: Vec<IpAddr> = Vec::new();
        if self.start_addr.bits > self.end_addr.bits {
            assert(out@ =~= range_addrs(*self));
            return out;
        }
        let mut cur: u32 = self.start_addr.bits;
        let ghost all = range_addrs(*self);
        loop
            invariant_except_break
                out@.len() == cur - self.start_addr.bits,
                out@ == all.subrange(0, out@.len() as int),
            invariant
                all == range_addrs(*self),
                self.start_addr.bits <= cur <= self.end_addr.bits,
                all.len() == self.end_addr.bits - self.start_addr.bits + 1,
            ensures
                out@ == all,
            decreases self.end_addr.bits - cur,
        {
            out.push(IpAddr::V4(Ipv4Addr { bits: cur }));
            assert(out@ =~= all.subrange(0, out@.len() as int));
            if cur == self.end_addr.bits {
                assert(out@ =~= all);
                break ;
            }
            cur = cur + 1;
        }
        out
    }

    pub fn contains(&self, ip: &Ipv4Addr) -> (r: bool)
        ensures
            r == range_holds(*self, *ip),
    {
        ip.bits >= self.start_addr.bits && ip.bits <= self.end_addr.bits
    }
}

/// The block of the network that `ip` and `prefix` denote, from its network
/// address to its broadcast address; fails when `prefix > 32`.
pub fn cidr_range(ip: Ipv4Addr, prefix: u8) -> (r: Result<Ipv4Range, NetError>)
    ensures
        prefix > 32 <==> r is Err,
        r matches Ok(range) ==> exists|n: Ipv4Net|
            n.spec_ip() == ip && n.spec_prefix() == prefix && range.start_addr.bits
                == n.spec_network() && range.end_addr.bits == n.spec_broadcast(),
{
    let network = Ipv4Net::new(ip, prefix)?;
    let start = network.network();
    let end = network.broadcast();
    let p = network.prefix();
    proof {
        crate::network::lemma_net_contains_interval(network, ip);
    }
    Ok(Ipv4Range::new(start, end))
}

/// Total number of addresses over a list of ranges, overlaps counted again.
pub open spec fn ranges_size(rs: Seq<Ipv4Range>) -> int
    decreases rs.len(),
{
    if rs.len() == 0 {
        0
    } else {
        ranges_size(rs.drop_last()) + range_size(rs.last())
    }
}

/// The addresses of a list of ranges, range after range.
pub open spec fn ranges_addrs(rs: Seq<Ipv4Range>) -> Seq<IpAddr>
    decreases rs.len(),
{
    if rs.len() == 0 {
        Seq::empty()
    } else {
        ranges_addrs(rs.drop_last()) + range_addrs(rs.last())
    }
}

pub proof fn lemma_range_addrs_len(r: Ipv4Range)
    ensures
        range_addrs(r).len() == range_size(r),
{
}

pub proof fn lemma_ranges_addrs_len(rs: Seq<Ipv4Range>)
    ensures
        ranges_addrs(rs).len() == ranges_size(rs),
        ranges_size(rs) >= 0,
    decreases rs.len(),
{
    if rs.len() > 0 {
        lemma_ranges_addrs_len(rs.drop_last());
    }
}

/// An address is listed by a range exactly when the range holds it.
pub proof fn lemma_range_addrs_members(r: Ipv4Range, x: IpAddr)
    ensures
        range_addrs(r).contains(x) <==> (x matches IpAddr::V4(a) && range_holds(r, a)),
{
    let s = range_addrs(r);
    if s.contains(x) {
        let i = choose|i: int| 0 <= i < s.len() && s[i] == x;
        assert(r.start_addr.bits <= r.start_addr.bits + i <= r.end_addr.bits);
    }
    if let IpAddr::V4(a) = x {
        if range_holds(r, a) {
            let i = a.bits - r.start_addr.bits;
            assert(s[i] == x);
        }
    }
}

/// An address is listed by a list of ranges exactly when one of them
/// holds it.
pub proof fn lemma_ranges_addrs_members(rs: Seq<Ipv4Range>, x: IpAddr)
    ensures
        ranges_addrs(rs).contains(x) <==> (x matches IpAddr::V4(a) && exists|i: int|
            0 <= i < rs.len() && range_holds(#[trigger] rs[i], a)),
    decreases rs.len(),
{
    if rs.len() > 0 {
        let init = rs.drop_last();
        lemma_ranges_addrs_members(init, x);
        lemma_range_addrs_members(rs.last(), x);
        let a_part = ranges_addrs(init);
        let b_part = range_addrs(rs.last());
        assert(ranges_addrs(rs) == a_part + b_part);
        if (a_part + b_part).contains(x) {
            let k = choose|k: int| 0 <= k < (a_part + b_part).len() && (a_part + b_part)[k] == x;
            if k < a_part.len() {
                assert(a_part[k] == x);
            } else {
                assert(b_part[k - a_part.len()] == x);
            }
        }
        if a_part.contains(x) {
            let k = choose|k: int| 0 <= k < a_part.len() && a_part[k] == x;
            assert((a_part + b_part)[k] == x);
        }
        if b_part.contains(x) {
            let k = choose|k: int| 0 <= k < b_part.len() && b_part[k] == x;
            assert((a_part + b_part)[a_part.len() + k] == x);
        }
        if let IpAddr::V4(a) = x {
            if exists|i: int| 0 <= i < rs.len() && range_holds(#[trigger] rs[i], a) {
                let i = choose|i: int| 0 <= i < rs.len() && range_holds(#[trigger] rs[i], a);
                if i < init.len() {
                    assert(init[i] == rs[i]);
                }
            }
            if exists|i: int| 0 <= i < init.len() && range_holds(#[trigger] init[i], a) {
                let i = choose|i: int| 0 <= i < init.len() && range_holds(#[trigger] init[i], a);
                assert(rs[i] == init[i]);
            }
        }
    } else {
        assert(ranges_addrs(rs) =~= Seq::<IpAddr>::empty());
    }
}

pub proof fn lemma_ranges_size_append(a: Seq<Ipv4Range>, b: Seq<Ipv4Range>)
    ensures
        ranges_size(a + b) == ranges_size(a) + ranges_size(b),
    decreases b.len(),
{
    if b.len() > 0 {
        assert((a + b).drop_last() =~= a + b.drop_last());
        lemma_ranges_size_append(a, b.drop_last());
    } else {
        assert(a + b =~= a);
    }
}

/// A collection of scan addresses: IPv4 ranges, kept in the order they were
/// added, and single addresses, each held once.
#[derive(Debug)]
pub struct IpCollection {
    ranges: Vec<Ipv4Range>,
    singles: Vec<IpAddr>,
}

impl IpCollection {
    #[verifier::type_invariant]
    spec fn inv(self) -> bool {
        self.singles@.no_duplicates()
    }

    pub closed spec fn spec_ranges(self) -> Seq<Ipv4Range> {
        self.ranges@
    }

    pub closed spec fn spec_singles(self) -> Seq<IpAddr> {
        self.singles@
    }

    /// Whether the collection names `ip`, in a range or on its own.
    pub open spec fn spec_contains(self, ip: IpAddr) -> bool {
        ||| (ip matches IpAddr::V4(a) && exists|i: int|
            0 <= i < self.spec_ranges().len() && range_holds(#[trigger] self.spec_ranges()[i], a))
        ||| self.spec_singles().contains(ip)
    }

    /// The count of addresses: the singles plus the size of every range.
    pub open spec fn spec_len(self) -> int {
        self.spec_singles().len() + ranges_size(self.spec_ranges())
    }

    pub fn new() -> (r: Self)
        ensures
            r.spec_ranges().len() == 0,
            r.spec_singles().len() == 0,
    {
        IpCollection { ranges: Vec::new(), singles: Vec::new() }
    }

    /// Takes the collection apart into its ranges and its singles.
    pub fn into_parts(self) -> (r: (Vec<Ipv4Range>, Vec<IpAddr>))
        ensures
            r.0@ == self.spec_ranges(),
            r.1@ == self.spec_singles(),
            r.1@.no_duplicates(),
    {
        proof {
            use_type_invariant(&self);
        }
        let IpCollection { ranges, singles } = self;
        (ranges, singles)
    }

    pub fn ranges(&self) -> (r: &Vec<Ipv4Range>)
        ensures
            r@ == self.spec_ranges(),
    {
        &self.ranges
    }

    pub fn singles(&self) -> (r: &Vec<IpAddr>)
        ensures
            r@ == self.spec_singles(),
            r@.no_duplicates(),
    {
        proof {
            use_type_invariant(self);
        }
        &self.singles
    }

    fn find_single(&self, ip: &IpAddr) -> (r: bool)
        ensures
            r == self.spec_singles().contains(*ip),
    {
        let mut i: usize = 0;
        while i < self.singles.len()
            invariant
                0 <= i <= self.singles@.len(),
                forall|j: int| 0 <= j < i ==> self.singles@[j] != *ip,
            decreases self.singles@.len() - i,
        {
            if self.singles[i] == *ip {
                return true;
            }
            i = i + 1;
        }
        false
    }

    /// Adds one address; an address already present is kept once.
    pub fn add_single(&mut self, ip: IpAddr)
        ensures
            final(self).spec_ranges() == old(self).spec_ranges(),
            final(self).spec_singles().to_set() == old(self).spec_singles().to_set().insert(ip),
            old(self).spec_singles().contains(ip) ==> final(self).spec_singles() == old(
                self,
            ).spec_singles(),
            !old(self).spec_singles().contains(ip) ==> final(self).spec_singles() == old(
                self,
            ).spec_singles().push(ip),
            forall|x: IpAddr| #[trigger] final(self).spec_contains(x) <==> (old(self).spec_contains(x) || x == ip),
    {
        proof {
            use_type_invariant(&*self);
        }
        if !self.find_single(&ip) {
            let ghost before = self.singles@;
            let mut v: Vec<IpAddr> = Vec::new();
            std::mem::swap(&mut v, &mut self.singles);
            v.push(ip);
            proof {
                assert(v@ == before.push(ip));
                assert forall|a: int, b: int|
                    0 <= a < b < v@.len() implies v@[a] != v@[b] by {
                    if b == before.len() {
                        assert(before.contains(before[a]));
                    }
                }
            }
            self.singles = v;
            proof {
                before.lemma_push_to_set_commute(ip);
                assert(self.spec_ranges() == old(self).spec_ranges());
                assert(self.spec_singles() == before.push(ip));
                assert(old(self).spec_singles() == before);
                assert forall|x: IpAddr| #[trigger] self.spec_contains(x) <==> (old(self).spec_contains(x) || x == ip) by {
                    crate::net::sender::lemma_push_contains(before, ip, x);
                }
            }
        } else {
            assert(self.singles@.to_set() =~= self.singles@.to_set().insert(ip));
        }
    }

    /// Appends one range.
    pub fn add_range(&mut self, range: Ipv4Range)
        ensures
            final(self).spec_ranges() == old(self).spec_ranges().push(range),
            final(self).spec_singles() == old(self).spec_singles(),
            forall|x: IpAddr| #[trigger] final(self).spec_contains(x) <==> (old(self).spec_contains(x) || (
            x matches IpAddr::V4(a) && range_holds(range, a))),
    {
        proof {
            use_type_invariant(&*self);
        }
        let ghost before = self.ranges@;
        let mut v: Vec<Ipv4Range> = Vec::new();
        std::mem::swap(&mut v, &mut self.ranges);
        v.push(range);
        self.ranges = v;
        proof {
            assert(self.spec_singles() == old(self).spec_singles());
            assert(old(self).spec_ranges() == before);
            assert(self.ranges@ == before.push(range));
            assert forall|x: IpAddr| #[trigger] self.spec_contains(x) <==> (old(self).spec_contains(x) || (
            x matches IpAddr::V4(a) && range_holds(range, a))) by {
                if let IpAddr::V4(a) = x {
                    if exists|i: int| 0 <= i < self.ranges@.len() && range_holds(#[trigger] self.ranges@[i], a) {
                        let i = choose|i: int| 0 <= i < self.ranges@.len() && range_holds(#[trigger] self.ranges@[i], a);
                        if i < before.len() {
                            assert(before[i] == self.ranges@[i]);
                            assert(range_holds(old(self).spec_ranges()[i], a));
                        }
                    }
                    if exists|i: int| 0 <= i < before.len() && range_holds(#[trigger] before[i], a) {
                        let i = choose|i: int| 0 <= i < before.len() && range_holds(#[trigger] before[i], a);
                        assert(self.ranges@[i] == before[i]);
                        assert(range_holds(self.spec_ranges()[i], a));
                    }
                    if range_holds(range, a) {
                        assert(self.ranges@[before.len() as int] == range);
                        assert(range_holds(self.spec_ranges()[before.len() as int], a));
                    }
                }
            }
        }
    }

    /// Takes over the ranges and the singles of `other`.
    pub fn extend(&mut self, other: IpCollection)
        ensures
            final(self).spec_ranges() == old(self).spec_ranges() + other.spec_ranges(),
            final(self).spec_singles().to_set() == old(self).spec_singles().to_set().union(
                other.spec_singles().to_set(),
            ),
            forall|x: IpAddr| #[trigger] final(self).spec_contains(x) <==> (old(self).spec_contains(x) || other.spec_contains(x)),
    {
        proof {
            use_type_invariant(&other);
            use_type_invariant(&*self);
        }
        let IpCollection { ranges, singles } = other;
        let mut ranges = ranges;
        let mut v: Vec<Ipv4Range> = Vec::new();
        std::mem::swap(&mut v, &mut self.ranges);
        v.append(&mut ranges);
        self.ranges = v;
        let mut i: usize = 0;
        let ghost start = self.singles@.to_set();
        while i < singles.len()
            invariant
                0 <= i <= singles@.len(),
                self.ranges@ == old(self).spec_ranges() + other.spec_ranges(),
                self.singles@.to_set() == start.union(singles@.subrange(0, i as int).to_set()),
                start == old(self).spec_singles().to_set(),
                singles@ == other.spec_singles(),
            decreases singles@.len() - i,
        {
            let ip = singles[i];
            self.add_single(ip);
            proof {
                assert(singles@.subrange(0, i + 1) =~= singles@.subrange(0, i as int).push(ip));
                singles@.subrange(0, i as int).lemma_push_to_set_commute(ip);
                assert(self.singles@.to_set() =~= start.union(singles@.subrange(0, i + 1).to_set()));
            }
            i = i + 1;
        }
        assert(singles@.subrange(0, singles@.len() as int) =~= singles@);
        proof {
            let ro = old(self).spec_ranges();
            let rt = other.spec_ranges();
            assert(self.spec_ranges() == ro + rt);
            assert forall|x: IpAddr| #[trigger] self.spec_contains(x) <==> (old(self).spec_contains(x) || other.spec_contains(x)) by {
                assert(self.spec_singles().contains(x) <==> self.spec_singles().to_set().contains(x));
                assert(old(self).spec_singles().contains(x) <==> old(self).spec_singles().to_set().contains(x));
                assert(other.spec_singles().contains(x) <==> other.spec_singles().to_set().contains(x));
                if let IpAddr::V4(a) = x {
                    if exists|i: int| 0 <= i < (ro + rt).len() && range_holds(#[trigger] (ro + rt)[i], a) {
                        let i = choose|i: int| 0 <= i < (ro + rt).len() && range_holds(#[trigger] (ro + rt)[i], a);
                        if i < ro.len() {
                            assert(range_holds(ro[i], a));
                        } else {
                            assert(range_holds(rt[i - ro.len()], a));
                        }
                    }
                    if exists|i: int| 0 <= i < ro.len() && range_holds(#[trigger] ro[i], a) {
                        let i = choose|i: int| 0 <= i < ro.len() && range_holds(#[trigger] ro[i], a);
                        assert(range_holds((ro + rt)[i], a));
                    }
                    if exists|i: int| 0 <= i < rt.len() && range_holds(#[trigger] rt[i], a) {
                        let i = choose|i: int| 0 <= i < rt.len() && range_holds(#[trigger] rt[i], a);
                        assert(range_holds((ro + rt)[ro.len() + i], a));
                    }
                }
            }
        }
    }

    /// The number of addresses the collection names, each range counted in
    /// full and overlaps counted again.
    pub fn len(&self) -> (r: usize)
        requires
            self.spec_len() <= usize::MAX,
            forall|i: int|
                0 <= i < self.spec_ranges().len() ==> !(#[trigger] self.spec_ranges()[i].start_addr.bits
                    == 0 && self.spec_ranges()[i].end_addr.bits == u32::MAX),
        ensures
            r == self.spec_len(),
    {
        let mut count: usize = self.singles.len();
        let mut i: usize = 0;
        while i < self.ranges.len()
            invariant
                0 <= i <= self.ranges@.len(),
                self.spec_len() <= usize::MAX,
                count == self.singles@.len() + ranges_size(self.ranges@.subrange(0, i as int)),
                forall|k: int|
                    0 <= k < self.ranges@.len() ==> !(#[trigger] self.ranges@[k].start_addr.bits == 0
                        && self.ranges@[k].end_addr.bits == u32::MAX),
            decreases self.ranges@.len() - i,
        {
            let range = self.ranges[i];
            let start: u32 = range.start_addr.bits;
            let end: u32 = range.end_addr.bits;
            proof {
                assert(self.ranges@.subrange(0, i + 1).drop_last() =~= self.ranges@.subrange(
                    0,
                    i as int,
                ));
                lemma_ranges_size_append(self.ranges@.subrange(0, i + 1), self.ranges@.subrange(i + 1, self.ranges@.len() as int));
                assert(self.ranges@.subrange(0, i + 1) + self.ranges@.subrange(i + 1, self.ranges@.len() as int) =~= self.ranges@);
                lemma_ranges_addrs_len(self.ranges@.subrange(i + 1, self.ranges@.len() as int));
            }
            if end >= start {
                count = count + (end - start + 1) as usize;
            }
            i = i + 1;
        }
        assert(self.ranges@.subrange(0, self.ranges@.len() as int) =~= self.ranges@);
        count
    }

    pub fn contains(&self, ip: &IpAddr) -> (r: bool)
        ensures
            r == self.spec_contains(*ip),
    {
        match ip {
            IpAddr::V4(ipv4_addr) => {
                let mut i: usize = 0;
                while i < self.ranges.len()
                    invariant
                        0 <= i <= self.ranges@.len(),
                        *ip == IpAddr::V4(*ipv4_addr),
                        forall|j: int| 0 <= j < i ==> !range_holds(#[trigger] self.ranges@[j], *ipv4_addr),
                    decreases self.ranges@.len() - i,
                {
                    if self.ranges[i].contains(ipv4_addr) {
                        assert(range_holds(self.spec_ranges()[i as int], *ipv4_addr));
                        assert(*ip == IpAddr::V4(*ipv4_addr));
                        assert(self.spec_contains(*ip));
                        return true;
                    }
                    i = i + 1;
                }
            },
            _ => {},
        }
        self.find_single(ip)
    }

    pub fn is_empty(&self) -> (r: bool)
        ensures
            r == (self.spec_ranges().len() == 0 && self.spec_singles().len() == 0),
    {
        self.ranges.len() == 0 && self.singles.len() == 0
    }

    /// Every address: the ranges' addresses range after range, then the
    /// singles.
    pub fn iter(&self) -> (r: Vec<IpAddr>)
        requires
            self.spec_len() <= usize::MAX,
        ensures
            r@ == ranges_addrs(self.spec_ranges()) + self.spec_singles(),
            r@.len() == self.spec_len(),
            forall|x: IpAddr| r@.contains(x) <==> self.spec_contains(x),
    {
        let mut out: Vec<IpAddr> = Vec::new();
        let mut i: usize = 0;
        while i < self.ranges.len()
            invariant
                0 <= i <= self.ranges@.len(),
                self.spec_len() <= usize::MAX,
                out@ == ranges_addrs(self.ranges@.subrange(0, i as int)),
            decreases self.ranges@.len() - i,
        {
            proof {
                assert(self.ranges@.subrange(0, i + 1).drop_last() =~= self.ranges@.subrange(
                    0,
                    i as int,
                ));
                lemma_ranges_size_append(self.ranges@.subrange(0, i + 1), self.ranges@.subrange(i + 1, self.ranges@.len() as int));
                assert(self.ranges@.subrange(0, i + 1) + self.ranges@.subrange(i + 1, self.ranges@.len() as int) =~= self.ranges@);
                lemma_ranges_addrs_len(self.ranges@.subrange(i + 1, self.ranges@.len() as int));
                lemma_ranges_addrs_len(self.ranges@.subrange(0, i as int));
            }
            let mut part = self.ranges[i].to_iter();
            out.append(&mut part);
            i = i + 1;
        }
        assert(self.ranges@.subrange(0, self.ranges@.len() as int) =~= self.ranges@);
        let mut j: usize = 0;
        let ghost head = out@;
        while j < self.singles.len()
            invariant
                0 <= j <= self.singles@.len(),
                out@ == head + self.singles@.subrange(0, j as int),
            decreases self.singles@.len() - j,
        {
            out.push(self.singles[j]);
            assert(out@ =~= head + self.singles@.subrange(0, j + 1));
            j = j + 1;
        }
        assert(self.singles@.subrange(0, self.singles@.len() as int) =~= self.singles@);
        proof {
            lemma_ranges_addrs_len(self.ranges@);
            let ra = ranges_addrs(self.ranges@);
            assert forall|x: IpAddr| out@.contains(x) <==> self.spec_contains(x) by {
                lemma_ranges_addrs_members(self.ranges@, x);
                if out@.contains(x) {
                    let k = choose|k: int| 0 <= k < out@.len() && out@[k] == x;
                    if k < ra.len() {
                        assert(ra[k] == x);
                    } else {
                        assert(self.singles@[k - ra.len()] == x);
                    }
                }
                if ra.contains(x) {
                    let k = choose|k: int| 0 <= k < ra.len() && ra[k] == x;
                    assert(out@[k] == x);
                }
                if self.singles@.contains(x) {
                    let k = choose|k: int| 0 <= k < self.singles@.len() && self.singles@[k] == x;
                    assert(out@[ra.len() + k] == x);
                }
            }
        }
        out
    }

    /// Consumes the collection into every address it names: the singles
    /// first, then the ranges' addresses range after range.
    pub fn into_iter(self) -> (r: Vec<IpAddr>)
        requires
            self.spec_len() <= usize::MAX,
        ensures
            r@ == self.spec_singles() + ranges_addrs(self.spec_ranges()),
    {
        let all = self.iter();
        let mut out: Vec<IpAddr> = Vec::new();
        let all_len = all.len();
        let n_ranges = all_len - self.singles.len();
        proof {
            lemma_ranges_addrs_len(self.ranges@);
        }
        let mut j: usize = 0;
        while j < self.singles.len()
            invariant
                0 <= j <= self.singles@.len(),
                all@ == ranges_addrs(self.ranges@) + self.singles@,
                n_ranges == ranges_addrs(self.ranges@).len(),
                all@.len() == n_ranges + self.singles@.len(),
                all@.len() == all_len,
                out@ == all@.subrange(n_ranges as int, n_ranges + j),
            decreases self.singles@.len() - j,
        {
            out.push(all[n_ranges + j]);
            assert(out@ =~= all@.subrange(n_ranges as int, n_ranges + j + 1));
            j = j + 1;
        }
        let mut k: usize = 0;
        let ghost head = out@;
        while k < n_ranges
            invariant
                0 <= k <= n_ranges,
                all@ == ranges_addrs(self.ranges@) + self.singles@,
                n_ranges == ranges_addrs(self.ranges@).len(),
                out@ == head + all@.subrange(0, k as int),
            decreases n_ranges - k,
        {
            out.push(all[k]);
            assert(out@ =~= head + all@.subrange(0, k + 1));
            k = k + 1;
        }
        assert(head =~= self.singles@);
        assert(all@.subrange(0, n_ranges as int) =~= ranges_addrs(self.ranges@));
        out
    }

    /// Merges a list of collections into one, in order.
    pub fn from_iter(iter: Vec<IpCollection>) -> (r: IpCollection)
        ensures
            r.spec_ranges() == concat_ranges(iter@),
            r.spec_singles().to_set() == union_singles(iter@),
    {
        let mut master = IpCollection::new();
        let mut rest = iter;
        let ghost all = rest@;
        let mut taken: usize = 0;
        assert(master.spec_singles().to_set() =~= Set::<IpAddr>::empty());
        let n = rest.len();
        while taken < n
            invariant
                n == all.len(),
                0 <= taken <= n,
                rest@ == all.subrange(taken as int, n as int),
                master.spec_ranges() == concat_ranges(all.subrange(0, taken as int)),
                master.spec_singles().to_set() == union_singles(all.subrange(0, taken as int)),
            decreases n - taken,
        {
            let c = rest.remove(0);
            assert(all.subrange(0, taken + 1).drop_last() =~= all.subrange(0, taken as int));
            assert(rest@ =~= all.subrange(taken + 1, n as int));
            master.extend(c);
            taken = taken + 1;
        }
        assert(all.subrange(0, n as int) =~= all);
        master
    }
}

/// The ranges of a list of collections, collection after collection.
pub open spec fn concat_ranges(cs: Seq<IpCollection>) -> Seq<Ipv4Range>
    decreases cs.len(),
{
    if cs.len() == 0 {
        Seq::empty()
    } else {
        concat_ranges(cs.drop_last()) + cs.last().spec_ranges()
    }
}

/// The singles of a list of collections, as one set.
pub open spec fn union_singles(cs: Seq<IpCollection>) -> Set<IpAddr>
    decreases cs.len(),
{
    if cs.len() == 0 {
        Set::empty()
    } else {
        union_singles(cs.drop_last()).union(cs.last().spec_singles().to_set())
    }
}

impl Clone for IpCollection {
    fn clone(&self) -> (r: Self)
        ensures
            r.spec_ranges() == self.spec_ranges(),
            r.spec_singles() == self.spec_singles(),
    {
        proof {
            use_type_invariant(self);
        }
        IpCollection { ranges: self.ranges.clone(), singles: self.singles.clone() }
    }
}

impl Default for IpCollection {
    fn default() -> (r: Self)
        ensures
            r.spec_ranges().len() == 0,
            r.spec_singles().len() == 0,
    {
        IpCollection::new()
    }
}

} // verus!
