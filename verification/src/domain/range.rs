//! Continuous, inclusive ranges of IPv4 addresses.

use vstd::prelude::*;
use crate::addr::{IpAddr, Ipv4Addr};
use crate::network::{v4_mask, lemma_mask_interval};
use crate::text::{decimal, u64_to_string};

verus! {

/// The addresses from `start` to `end`, both included, in ascending order;
/// empty when `start > end`.
pub open spec fn span(start: u32, end: u32) -> Seq<u32> {
    if start > end {
        Seq::empty()
    } else {
        Seq::new((end - start + 1) as nat, |i: int| (start + i) as u32)
    }
}

/// A range of IPv4 addresses from `start_addr` to `end_addr`, inclusive.
/// The bounds are kept as given: a range whose start lies above its end
/// holds no address.
#[derive(Clone, Copy, Debug, PartialEq, Eq, Structural)]
pub struct Ipv4Range {
    pub start_addr: Ipv4Addr,
    pub end_addr: Ipv4Addr,
}

impl Ipv4Range {
    pub open spec fn addresses(self) -> Seq<u32> {
        span(self.start_addr.bits, self.end_addr.bits)
    }

    pub fn new(start_addr: Ipv4Addr, end_addr: Ipv4Addr) -> (r: Self)
        ensures
            r.start_addr == start_addr,
            r.end_addr == end_addr,
    {
        Ipv4Range { start_addr, end_addr }
    }

    /// An iterator over the range, usable from both ends.
    pub fn iter(&self) -> (r: RangeIter)
        ensures
            r.remaining() == self.addresses(),
    {
        RangeIter { front: self.start_addr.bits, back: self.end_addr.bits, exhausted: false }
    }

    /// Every address of the range, in ascending order, as `IpAddr`.
    pub fn to_iter(&self) -> (r: Vec<IpAddr>)
        requires
            self.addresses().len() <= usize::MAX,
        ensures
            r@.len() == self.addresses().len(),
            forall|i: int|
                0 <= i < r@.len() ==> r@[i] == IpAddr::V4(Ipv4Addr { bits: self.addresses()[i] }),
    {
        let mut it = self.iter();
        let mut out: Vec<IpAddr> = Vec::new();
        let ghost all = self.addresses();
        loop
            invariant
                all == self.addresses(),
                all.len() <= usize::MAX,
                out@.len() + it.remaining().len() == all.len(),
                it.remaining() == all.subrange(out@.len() as int, all.len() as int),
                forall|i: int| 0 <= i < out@.len() ==> out@[i] == IpAddr::V4(Ipv4Addr { bits: all[i] }),
            ensures
                out@.len() == all.len(),
                forall|i: int| 0 <= i < out@.len() ==> out@[i] == IpAddr::V4(Ipv4Addr { bits: all[i] }),
            decreases it.remaining().len(),
        {
            match it.next() {
                Some(a) => {
                    out.push(IpAddr::V4(a));
                },
                None => {
                    break ;
                },
            }
        }
        out
    }
}

/// An iterator over an inclusive range of IPv4 addresses that can be
/// consumed from the front and from the back.
#[derive(Clone, Copy, Debug)]
pub struct RangeIter {
    front: u32,
    back: u32,
    exhausted: bool,
}

impl RangeIter {
    /// The addresses that the iterator has still to hand out, front first.
    pub closed spec fn remaining(self) -> Seq<u32> {
        if self.exhausted {
            Seq::empty()
        } else {
            span(self.front, self.back)
        }
    }

    pub fn next(&mut self) -> (r: Option<Ipv4Addr>)
        ensures
            old(self).remaining().len() == 0 ==> r is None && final(self).remaining() == old(
                self,
            ).remaining(),
            old(self).remaining().len() > 0 ==> r == Some(Ipv4Addr { bits: old(self).remaining()[0] })
                && final(self).remaining() == old(self).remaining().drop_first(),
    {
        if self.exhausted || self.front > self.back {
            return None;
        }
        let n = self.front;
        if self.front < self.back {
            self.front = self.front + 1;
        } else {
            self.exhausted = true;
        }
        assert(final(self).remaining() =~= old(self).remaining().drop_first());
        Some(Ipv4Addr { bits: n })
    }

    pub fn next_back(&mut self) -> (r: Option<Ipv4Addr>)
        ensures
            old(self).remaining().len() == 0 ==> r is None && final(self).remaining() == old(
                self,
            ).remaining(),
            old(self).remaining().len() > 0 ==> r == Some(Ipv4Addr { bits: old(self).remaining().last() })
                && final(self).remaining() == old(self).remaining().drop_last(),
    {
        if self.exhausted || self.front > self.back {
            return None;
        }
        let n = self.back;
        if self.front < self.back {
            self.back = self.back - 1;
        } else {
            self.exhausted = true;
        }
        assert(final(self).remaining() =~= old(self).remaining().drop_last());
        Some(Ipv4Addr { bits: n })
    }

    /// The number of addresses still to come.
    pub fn count(self) -> (r: usize)
        requires
            self.remaining().len() <= usize::MAX,
        ensures
            r == self.remaining().len(),
    {
        if self.exhausted || self.front > self.back {
            0
        } else {
            ((self.back - self.front) as usize) + 1
        }
    }
}

/// Why a CIDR block could not be formed.
#[derive(Clone, Copy, Debug, PartialEq, Eq, Structural)]
pub enum CidrError {
    /// The prefix is longer than the 32 bits of an IPv4 address.
    InvalidPrefix(u8),
}

impl CidrError {
    pub open spec fn spec_message(self) -> Seq<char> {
        match self {
            CidrError::InvalidPrefix(p) => "Invalid prefix: "@ + decimal(p as nat) + " > 32"@,
        }
    }

    /// The text of the error, e.g. `Invalid prefix: 33 > 32`.
    pub fn message(&self) -> (r: String)
        ensures
            r@ == self.spec_message(),
    {
        match self {
            CidrError::InvalidPrefix(p) => {
                let mut s = String::from_str("Invalid prefix: ");
                let n = u64_to_string(*p as u64);
                s.append(n.as_str());
                s.append(" > 32");
                s
            },
        }
    }
}

/// The mask of a prefix as the block computes it: no bit for the prefix 0,
/// otherwise all bits shifted left by the host part.
pub open spec fn block_mask(prefix: u8) -> u32 {
    if prefix == 0 {
        0
    } else {
        0xffff_ffffu32 << ((32 - prefix) as u32)
    }
}

/// The block's mask is the netmask of the prefix.
pub proof fn lemma_block_mask(prefix: u8)
    requires
        prefix <= 32,
    ensures
        block_mask(prefix) == v4_mask(prefix),
{
    let p = prefix as u64;
    let s = (32 - prefix) as u32;
    if prefix == 0 {
        assert((!(0xffff_ffffu64 >> p)) as u32 == 0) by (bit_vector)
            requires
                p == 0,
        ;
    } else {
        assert(0xffff_ffffu32 << s == (!(0xffff_ffffu64 >> p)) as u32) by (bit_vector)
            requires
                1 <= p <= 32,
                s == 32 - p,
        ;
    }
}

/// The block of `2^(32 - prefix)` addresses that contains `ip`, from its
/// network address to its broadcast address; fails when `prefix > 32`.
pub fn cidr_range(ip: Ipv4Addr, prefix: u8) -> (r: Result<Ipv4Range, CidrError>)
    ensures
        prefix > 32 <==> r is Err,
        prefix > 32 ==> r == Err::<Ipv4Range, CidrError>(CidrError::InvalidPrefix(prefix)),
        r matches Ok(range) ==> range.start_addr.bits == ip.bits & v4_mask(prefix)
            && range.end_addr.bits == ip.bits | !v4_mask(prefix),
{
    if prefix > 32 {
        return Err(CidrError::InvalidPrefix(prefix));
    }
    let ip_u32 = ip.bits;
    let mask: u32 = if prefix == 0 {
        0
    } else {
        0xffff_ffffu32 << ((32 - prefix) as u32)
    };
    let network = ip_u32 & mask;
    let broadcast = network | !mask;
    proof {
        lemma_block_mask(prefix);
        lemma_mask_interval(ip_u32, ip_u32, prefix);
    }
    Ok(Ipv4Range::new(Ipv4Addr { bits: network }, Ipv4Addr { bits: broadcast }))
}

/// A CIDR block holds the address it was formed from, and exactly the
/// addresses that share its first `prefix` bits.
pub proof fn lemma_cidr_block_members(ip: Ipv4Addr, prefix: u8, x: u32)
    requires
        prefix <= 32,
    ensures
        (ip.bits & v4_mask(prefix)) <= ip.bits <= (ip.bits | !v4_mask(prefix)),
        (x & v4_mask(prefix) == ip.bits & v4_mask(prefix)) <==> ((ip.bits & v4_mask(prefix)) <= x
            && x <= (ip.bits | !v4_mask(prefix))),
{
    lemma_mask_interval(x, ip.bits, prefix);
}

} // verus!
