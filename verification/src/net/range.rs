//! Ranges of IPv4 addresses as the scanning engine walks them.

use vstd::prelude::*;
use crate::addr::Ipv4Addr;
use crate::domain::range::{span, lemma_block_mask};
use crate::network::{Ipv4Net, v4_mask};

verus! {

/// A range of IPv4 addresses from `start_addr` to `end_addr`, inclusive,
/// bounds kept as given.
#[derive(Clone, Copy, Debug, PartialEq, Eq, Structural)]
pub struct Ipv4Range {
    pub start_addr: Ipv4Addr,
    pub end_addr: Ipv4Addr,
}

impl Ipv4Range {
    pub fn _new(start_addr: Ipv4Addr, end_addr: Ipv4Addr) -> (r: Self)
        ensures
            r.start_addr == start_addr && r.end_addr == end_addr,
    {
        Ipv4Range { start_addr, end_addr }
    }

    pub fn from_tuple(range: (Ipv4Addr, Ipv4Addr)) -> (r: Self)
        ensures
            r.start_addr == range.0 && r.end_addr == range.1,
    {
        Ipv4Range { start_addr: range.0, end_addr: range.1 }
    }
}

/// A walk over an inclusive range of IPv4 addresses, from both ends. Each
/// address is handed out once; once the two ends have met the walk is over
/// and hands out nothing more, also at the edges of the address space.
#[derive(Clone, Copy, Debug)]
pub struct IpRange {
    front: u32,
    back: u32,
    done: bool,
}

impl IpRange {
    pub closed spec fn spec_front(self) -> u32 {
        self.front
    }

    pub closed spec fn spec_back(self) -> u32 {
        self.back
    }

    pub closed spec fn spec_done(self) -> bool {
        self.done
    }

    /// The addresses still to be handed out, front first.
    pub open spec fn remaining(self) -> Seq<u32> {
        if self.spec_done() {
            Seq::empty()
        } else {
            span(self.spec_front(), self.spec_back())
        }
    }

    pub fn new(start: Ipv4Addr, end: Ipv4Addr) -> (r: Self)
        ensures
            r.remaining() == span(start.bits, end.bits),
    {
        IpRange { front: start.bits, back: end.bits, done: false }
    }

    /// The next address from the front, if any is left.
    pub fn next(&mut self) -> (r: Option<Ipv4Addr>)
        ensures
            old(self).remaining().len() == 0 ==> r is None && final(self).remaining() == old(self).remaining(),
            old(self).remaining().len() > 0 ==> r == Some(Ipv4Addr { bits: old(self).remaining()[0] })
                && final(self).remaining() == old(self).remaining().drop_first(),
    {
        if self.done || self.front > self.back {
            return None;
        }
        let ip = Ipv4Addr { bits: self.front };
        if self.front == self.back {
            self.done = true;
        } else {
            self.front = self.front + 1;
        }
        assert(final(self).remaining() =~= old(self).remaining().drop_first());
        Some(ip)
    }

    /// The next address from the back, if any is left.
    pub fn next_back(&mut self) -> (r: Option<Ipv4Addr>)
        ensures
            old(self).remaining().len() == 0 ==> r is None && final(self).remaining() == old(self).remaining(),
            old(self).remaining().len() > 0 ==> r == Some(Ipv4Addr { bits: old(self).remaining().last() })
                && final(self).remaining() == old(self).remaining().drop_last(),
    {
        if self.done || self.front > self.back {
            return None;
        }
        let ip = Ipv4Addr { bits: self.back };
        if self.front == self.back {
            self.done = true;
        } else {
            self.back = self.back - 1;
        }
        assert(final(self).remaining() =~= old(self).remaining().drop_last());
        Some(ip)
    }

    /// The exact number of addresses still to be handed out, as both
    /// bounds.
    pub fn size_hint(&self) -> (r: (usize, Option<usize>))
        requires
            self.remaining().len() <= usize::MAX,
        ensures
            r.0 == self.remaining().len(),
            r.1 == Some(r.0),
    {
        let len: usize = self.count();
        (len, Some(len))
    }

    /// Walks the range front to back.
    pub fn collect(self) -> (r: Vec<Ipv4Addr>)
        ensures
            r@.len() == self.remaining().len(),
            forall|i: int| 0 <= i < r@.len() ==> r@[i].bits == self.remaining()[i],
    {
        let mut it = self;
        let mut out: Vec<Ipv4Addr> = Vec::new();
        let ghost all = self.remaining();
        loop
            invariant
                all == self.remaining(),
                out@.len() + it.remaining().len() == all.len(),
                it.remaining() == all.subrange(out@.len() as int, all.len() as int),
                forall|i: int| 0 <= i < out@.len() ==> out@[i].bits == all[i],
            ensures
                out@.len() == all.len(),
                forall|i: int| 0 <= i < out@.len() ==> out@[i].bits == all[i],
            decreases it.remaining().len(),
        {
            match it.next() {
                Some(a) => {
                    out.push(a);
                },
                None => {
                    break ;
                },
            }
        }
        out
    }

    /// Walks the range back to front.
    pub fn collect_rev(self) -> (r: Vec<Ipv4Addr>)
        ensures
            r@.len() == self.remaining().len(),
            forall|i: int|
                0 <= i < r@.len() ==> r@[i].bits == self.remaining()[self.remaining().len() - 1 - i],
    {
        let mut it = self;
        let mut out: Vec<Ipv4Addr> = Vec::new();
        let ghost all = self.remaining();
        loop
            invariant
                all == self.remaining(),
                out@.len() + it.remaining().len() == all.len(),
                it.remaining() == all.subrange(0, it.remaining().len() as int),
                forall|i: int| 0 <= i < out@.len() ==> out@[i].bits == all[all.len() - 1 - i],
            ensures
                out@.len() == all.len(),
                forall|i: int| 0 <= i < out@.len() ==> out@[i].bits == all[all.len() - 1 - i],
            decreases it.remaining().len(),
        {
            match it.next_back() {
                Some(a) => {
                    out.push(a);
                },
                None => {
                    break ;
                },
            }
        }
        out
    }

    /// The number of addresses that `next` hands out before it returns `None`.
    pub fn count(self) -> (r: usize)
        requires
            self.remaining().len() <= usize::MAX,
        ensures
            r == self.remaining().len(),
    {
        if self.done || self.front > self.back {
            0
        } else {
            ((self.back - self.front) as usize) + 1
        }
    }
}

/// A walk over `ipv4_range`.
pub fn ip_iter(ipv4_range: &Ipv4Range) -> (r: IpRange)
    ensures
        r.remaining() == span(ipv4_range.start_addr.bits, ipv4_range.end_addr.bits),
{
    IpRange::new(ipv4_range.start_addr, ipv4_range.end_addr)
}

/// The block of addresses that shares the first `prefix` bits with `ip`.
pub fn cidr_range(ip: Ipv4Addr, prefix: u8) -> (r: Ipv4Range)
    requires
        prefix <= 32,
    ensures
        r.start_addr.bits == ip.bits & v4_mask(prefix),
        r.end_addr.bits == ip.bits | !v4_mask(prefix),
{
    let ip_u32 = ip.bits;
    let mask: u32 = if prefix == 0 {
        0
    } else {
        0xffff_ffffu32 << ((32 - prefix) as u32)
    };
    let network = ip_u32 & mask;
    let broadcast = network | !mask;
    proof {
        lemma_block_mask(prefix);
        crate::network::lemma_mask_interval(ip_u32, ip_u32, prefix);
    }
    Ipv4Range::from_tuple((Ipv4Addr { bits: network }, Ipv4Addr { bits: broadcast }))
}

/// The whole block of a network, if there is one.
pub fn from_ipv4_net(ipv4_net: Option<Ipv4Net>) -> (r: Option<Ipv4Range>)
    ensures
        ipv4_net is None <==> r is None,
        ipv4_net matches Some(n) ==> r matches Some(range) && range.start_addr.bits
            == n.spec_network() && range.end_addr.bits == n.spec_broadcast(),
{
    if let Some(net) = ipv4_net {
        let p = net.prefix();
        Some(cidr_range(net.ip(), p))
    } else {
        None
    }
}

pub open spec fn spec_in_range(addr: Ipv4Addr, range: Ipv4Range) -> bool {
    range.start_addr.bits <= addr.bits <= range.end_addr.bits
}

/// Whether `ipv4_addr` lies between the bounds of the range.
pub fn in_range(ipv4_addr: &Ipv4Addr, ipv4_range: &Ipv4Range) -> (r: bool)
    ensures
        r == spec_in_range(*ipv4_addr, *ipv4_range),
{
    ipv4_range.start_addr.bits <= ipv4_addr.bits && ipv4_addr.bits <= ipv4_range.end_addr.bits
}

/// Whether `addr` lies in the range; with no range every address does.
pub fn in_range_optional_range(addr: &Ipv4Addr, range: &Option<Ipv4Range>) -> (r: bool)
    ensures
        r == match range {
            None => true,
            Some(rg) => spec_in_range(*addr, *rg),
        },
{
    match range {
        None => true,
        Some(rg) => in_range(addr, rg),
    }
}

} // verus!
