//! The textual notation of IP addresses: dot-decimal IPv4 and the
//! colon-separated hexadecimal IPv6 notation with `::` compression and an
//! optional trailing dot-decimal part.

use vstd::prelude::*;
use crate::addr::{be32, IpAddr, Ipv4Addr, Ipv6Addr};
use crate::text::{digit_value, is_digit, split_seq, split_str};

verus! {

pub open spec fn is_hex(c: char) -> bool {
    is_digit(c) || ('a' <= c && c <= 'f') || ('A' <= c && c <= 'F')
}

pub open spec fn hex_value(c: char) -> int {
    if is_digit(c) {
        digit_value(c)
    } else if 'a' <= c && c <= 'f' {
        c as int - 'a' as int + 10
    } else {
        c as int - 'A' as int + 10
    }
}

/// Value of a string of decimal digits.
pub open spec fn dec_val(p: Seq<char>) -> int
    decreases p.len(),
{
    if p.len() == 0 {
        0
    } else {
        dec_val(p.drop_last()) * 10 + digit_value(p.last())
    }
}

/// Value of a string of hexadecimal digits.
pub open spec fn hex_val(p: Seq<char>) -> int
    decreases p.len(),
{
    if p.len() == 0 {
        0
    } else {
        hex_val(p.drop_last()) * 16 + hex_value(p.last())
    }
}

/// One octet of dot-decimal notation: one to three decimal digits, no
/// leading zero unless the octet is `0` itself, at most 255.
pub open spec fn dec_octet(p: Seq<char>) -> Option<u8> {
    if 1 <= p.len() <= 3 && (forall|i: int| 0 <= i < p.len() ==> is_digit(#[trigger] p[i])) && !(
    p.len() > 1 && p[0] == '0') && dec_val(p) <= 255 {
        Some(dec_val(p) as u8)
    } else {
        None
    }
}

/// One group of IPv6 notation: one to four hexadecimal digits.
pub open spec fn hex_group(p: Seq<char>) -> Option<u16> {
    if 1 <= p.len() <= 4 && (forall|i: int| 0 <= i < p.len() ==> is_hex(#[trigger] p[i])) {
        Some(hex_val(p) as u16)
    } else {
        None
    }
}

/// Dot-decimal IPv4 notation: exactly four octets separated by dots.
pub open spec fn ipv4_text(s: Seq<char>) -> Option<u32> {
    let ps = split_seq(s, '.');
    if ps.len() == 4 && dec_octet(ps[0]) is Some && dec_octet(ps[1]) is Some && dec_octet(
        ps[2],
    ) is Some && dec_octet(ps[3]) is Some {
        Some(
            be32(
                dec_octet(ps[0])->0 as int,
                dec_octet(ps[1])->0 as int,
                dec_octet(ps[2])->0 as int,
                dec_octet(ps[3])->0 as int,
            ) as u32,
        )
    } else {
        None
    }
}

/// The 16-bit groups that colon-separated pieces denote: every piece a
/// hexadecimal group, except that the last one may be a dot-decimal IPv4
/// address, worth two groups, when `v4_last` allows it.
pub open spec fn piece_groups(ps: Seq<Seq<char>>, v4_last: bool) -> Option<Seq<int>>
    decreases ps.len(),
{
    if ps.len() == 0 {
        Some(Seq::empty())
    } else {
        match piece_groups(ps.drop_last(), false) {
            None => None,
            Some(gs) => match hex_group(ps.last()) {
                Some(g) => Some(gs.push(g as int)),
                None => if v4_last {
                    match ipv4_text(ps.last()) {
                        Some(b) => Some(gs.push(b as int / 65536).push(b as int % 65536)),
                        None => None,
                    }
                } else {
                    None
                },
            },
        }
    }
}

/// Index of the first `::` in `s`, or -1 when there is none.
pub open spec fn first_pair(s: Seq<char>) -> int
    decreases s.len(),
{
    if s.len() < 2 {
        -1
    } else if s[0] == ':' && s[1] == ':' {
        0
    } else {
        let p = first_pair(s.drop_first());
        if p < 0 {
            -1
        } else {
            p + 1
        }
    }
}

/// Value of a list of 16-bit groups, the first one most significant.
pub open spec fn groups_value(gs: Seq<int>) -> int
    decreases gs.len(),
{
    if gs.len() == 0 {
        0
    } else {
        groups_value(gs.drop_last()) * 65536 + gs.last()
    }
}

/// IPv6 notation. Without `::` it is eight groups, or six groups and a
/// dot-decimal address. With `::` the groups before it and after it (the
/// latter possibly ending in a dot-decimal address) number at most seven,
/// and `::` stands for the zero groups in between.
pub open spec fn ipv6_text(s: Seq<char>) -> Option<u128> {
    let p = first_pair(s);
    if p < 0 {
        match piece_groups(split_seq(s, ':'), true) {
            Some(gs) => if gs.len() == 8 {
                Some(groups_value(gs) as u128)
            } else {
                None
            },
            None => None,
        }
    } else {
        let h = s.take(p);
        let t = s.skip(p + 2);
        let hg = if h.len() == 0 {
            Some(Seq::<int>::empty())
        } else {
            piece_groups(split_seq(h, ':'), false)
        };
        let tg = if t.len() == 0 {
            Some(Seq::<int>::empty())
        } else {
            piece_groups(split_seq(t, ':'), true)
        };
        match (hg, tg) {
            (Some(a), Some(b)) => if a.len() + b.len() <= 7 {
                Some(
                    groups_value(a + Seq::new((8 - a.len() - b.len()) as nat, |i: int| 0int) + b) as u128,
                )
            } else {
                None
            },
            _ => None,
        }
    }
}

/// IPv4 notation first, IPv6 notation otherwise.
pub open spec fn ip_text(s: Seq<char>) -> Option<IpAddr> {
    match ipv4_text(s) {
        Some(b) => Some(IpAddr::V4(Ipv4Addr { bits: b })),
        None => match ipv6_text(s) {
            Some(b) => Some(IpAddr::V6(Ipv6Addr { bits: b })),
            None => None,
        },
    }
}

pub open spec fn opt_v4(b: Option<u32>) -> Option<Ipv4Addr> {
    match b {
        Some(bits) => Some(Ipv4Addr { bits }),
        None => None,
    }
}

pub open spec fn opt_v6(b: Option<u128>) -> Option<Ipv6Addr> {
    match b {
        Some(bits) => Some(Ipv6Addr { bits }),
        None => None,
    }
}

fn parse_dec_octet(p: &str) -> (r: Option<u8>)
    ensures
        r == dec_octet(p@),
{
    let n = p.unicode_len();
    if n < 1 || n > 3 {
        return None;
    }
    let mut acc: u32 = 0;
    let mut i: usize = 0;
    while i < n
        invariant
            n == p@.len(),
            1 <= n <= 3,
            0 <= i <= n,
            forall|j: int| 0 <= j < i ==> is_digit(#[trigger] p@[j]),
            acc == dec_val(p@.take(i as int)),
            i <= 1 ==> acc < 10,
            i <= 2 ==> acc < 100,
            acc < 1000,
        decreases n - i,
    {
        let c = p.get_char(i);
        if !('0' <= c && c <= '9') {
            return None;
        }
        assert(p@.take(i + 1).drop_last() =~= p@.take(i as int));
        acc = acc * 10 + ((c as u32) - ('0' as u32));
        i = i + 1;
    }
    assert(p@.take(n as int) =~= p@);
    if n > 1 && p.get_char(0) == '0' {
        return None;
    }
    if acc > 255 {
        return None;
    }
    Some(acc as u8)
}

fn parse_hex_group(p: &str) -> (r: Option<u16>)
    ensures
        r == hex_group(p@),
{
    let n = p.unicode_len();
    if n < 1 || n > 4 {
        return None;
    }
    let mut acc: u32 = 0;
    let mut i: usize = 0;
    while i < n
        invariant
            n == p@.len(),
            1 <= n <= 4,
            0 <= i <= n,
            forall|j: int| 0 <= j < i ==> is_hex(#[trigger] p@[j]),
            acc == hex_val(p@.take(i as int)),
            acc < 65536,
            i < 4 ==> acc < 4096,
            i < 3 ==> acc < 256,
            i < 2 ==> acc < 16,
            i < 1 ==> acc == 0,
        decreases n - i,
    {
        let c = p.get_char(i);
        let v: u32 = if '0' <= c && c <= '9' {
            (c as u32) - ('0' as u32)
        } else if 'a' <= c && c <= 'f' {
            (c as u32) - ('a' as u32) + 10
        } else if 'A' <= c && c <= 'F' {
            (c as u32) - ('A' as u32) + 10
        } else {
            return None;
        };
        assert(p@.take(i + 1).drop_last() =~= p@.take(i as int));
        acc = acc * 16 + v;
        i = i + 1;
    }
    assert(p@.take(n as int) =~= p@);
    Some(acc as u16)
}

/// Reads dot-decimal IPv4 notation.
pub fn parse_ipv4_text(s: &str) -> (r: Option<Ipv4Addr>)
    ensures
        r == opt_v4(ipv4_text(s@)),
{
    let ps = split_str(s, '.');
    if ps.len() != 4 {
        return None;
    }
    let a = parse_dec_octet(ps[0]);
    let b = parse_dec_octet(ps[1]);
    let c = parse_dec_octet(ps[2]);
    let d = parse_dec_octet(ps[3]);
    match (a, b, c, d) {
        (Some(a), Some(b), Some(c), Some(d)) => Some(Ipv4Addr::new(a, b, c, d)),
        _ => None,
    }
}

pub proof fn lemma_groups_value_bound(gs: Seq<int>)
    requires
        forall|i: int| 0 <= i < gs.len() ==> 0 <= #[trigger] gs[i] < 65536,
    ensures
        0 <= groups_value(gs) < vstd::arithmetic::power2::pow2((16 * gs.len()) as nat),
    decreases gs.len(),
{
    vstd::arithmetic::power2::lemma2_to64();
    if gs.len() > 0 {
        assert forall|i: int| 0 <= i < gs.drop_last().len() implies 0 <= #[trigger] gs.drop_last()[i]
            < 65536 by {
            assert(gs.drop_last()[i] == gs[i]);
        }
        lemma_groups_value_bound(gs.drop_last());
        let k = (16 * (gs.len() - 1)) as nat;
        vstd::arithmetic::power2::lemma_pow2_adds(k, 16);
        vstd::arithmetic::power2::lemma2_to64();
        assert(k + 16 == 16 * gs.len());
        let v = groups_value(gs.drop_last());
        let pk = vstd::arithmetic::power2::pow2(k);
        assert(vstd::arithmetic::power2::pow2(16) == 65536);
        assert(pk * 65536 == vstd::arithmetic::power2::pow2(k + 16));
        assert(gs.last() == gs[gs.len() - 1]);
        assert(v * 65536 + gs.last() < pk * 65536) by (nonlinear_arith)
            requires
                0 <= v < pk,
                0 <= gs.last() < 65536,
        ;
        assert(groups_value(gs) == v * 65536 + gs.last());
        assert((k + 16) as nat == (16 * gs.len()) as nat);
    }
}

/// Parses colon-separated pieces into their groups.
fn parse_pieces(ps: &Vec<&str>, v4_last: bool) -> (r: Option<Vec<u16>>)
    ensures
        match piece_groups(ps@.map_values(|x: &str| x@), v4_last) {
            None => r is None,
            Some(gs) => r matches Some(v) && v@.len() == gs.len() && forall|i: int|
                0 <= i < gs.len() ==> v@[i] as int == #[trigger] gs[i],
        },
{
    let ghost all = ps@.map_values(|x: &str| x@);
    let n = ps.len();
    let mut out: Vec<u16> = Vec::new();
    let mut i: usize = 0;
    while i < n
        invariant
            n == ps@.len(),
            all == ps@.map_values(|x: &str| x@),
            0 <= i <= n,
            piece_groups(all.take(i as int), false) matches Some(gs) && out@.len() == gs.len()
                && forall|k: int| 0 <= k < gs.len() ==> out@[k] as int == #[trigger] gs[k],
        decreases n - i,
    {
        let ghost pre = all.take(i as int);
        assert(all.take(i + 1).drop_last() =~= pre);
        assert(all.take(i + 1).last() == ps@[i as int]@);
        let g = parse_hex_group(ps[i]);
        match g {
            Some(g) => {
                out.push(g);
                i = i + 1;
            },
            None => {
                if v4_last && i + 1 == n {
                    match parse_ipv4_text(ps[i]) {
                        Some(a) => {
                            out.push((a.bits / 65536) as u16);
                            out.push((a.bits % 65536) as u16);
                            assert(all.take(n as int) =~= all);
                            return Some(out);
                        },
                        None => {
                            assert(all.take(n as int) =~= all);
                            return None;
                        },
                    }
                } else {
                    proof {
                        if i + 1 == n {
                            assert(all.take(n as int) =~= all);
                        } else {
                            lemma_piece_groups_prefix_none(all, i as int + 1);
                        }
                    }
                    return None;
                }
            },
        }
    }
    assert(all.take(n as int) =~= all);
    proof {
        if n > 0 {
            lemma_piece_groups_flag(all);
        }
    }
    Some(out)
}

/// Whether the last piece may be dot-decimal makes no difference when it is
/// a hexadecimal group.
proof fn lemma_piece_groups_flag(ps: Seq<Seq<char>>)
    requires
        ps.len() > 0,
        piece_groups(ps, false) is Some,
    ensures
        piece_groups(ps, true) == piece_groups(ps, false),
{
}

/// A failing prefix makes the whole list fail.
proof fn lemma_piece_groups_prefix_none(ps: Seq<Seq<char>>, k: int)
    requires
        0 < k < ps.len(),
        piece_groups(ps.take(k), false) is None,
    ensures
        forall|f: bool| piece_groups(ps, f) is None,
    decreases ps.len() - k,
{
    if k + 1 < ps.len() {
        assert(ps.take(k + 1).drop_last() =~= ps.take(k));
        lemma_piece_groups_prefix_none(ps, k + 1);
    } else {
        assert(ps.drop_last() =~= ps.take(k));
    }
}

fn first_pair_index(s: &str) -> (r: Option<usize>)
    ensures
        match r {
            None => first_pair(s@) < 0,
            Some(i) => first_pair(s@) == i && i + 2 <= s@.len(),
        },
{
    let n = s.unicode_len();
    let mut i: usize = 0;
    assert(s@.skip(0) =~= s@);
    while n >= 2 && i < n - 1
        invariant
            n == s@.len(),
            0 <= i <= n,
            first_pair(s@) == (if first_pair(s@.skip(i as int)) < 0 {
                -1
            } else {
                first_pair(s@.skip(i as int)) + i
            }),
        decreases n - i,
    {
        assert(s@.skip(i as int)[0] == s@[i as int]);
        assert(s@.skip(i as int)[1] == s@[i + 1]);
        if s.get_char(i) == ':' && s.get_char(i + 1) == ':' {
            return Some(i);
        }
        assert(s@.skip(i as int).drop_first() =~= s@.skip(i + 1));
        i = i + 1;
    }
    None
}

proof fn lemma_split_nonempty(s: Seq<char>, c: char)
    ensures
        split_seq(s, c).len() >= 1,
    decreases s.len(),
{
    let p = crate::text::first_pos(s, c);
    crate::text::lemma_first_pos(s, c);
    if !(p < 0 || p >= s.len()) {
        lemma_split_nonempty(s.skip(p + 1), c);
    }
}

/// Reads IPv6 notation.
pub fn parse_ipv6_text(s: &str) -> (r: Option<Ipv6Addr>)
    ensures
        r == opt_v6(ipv6_text(s@)),
{
    match first_pair_index(s) {
        None => {
            let ps = split_str(s, ':');
            assert(ps@.map_values(|x: &str| x@) =~= split_seq(s@, ':'));
            match parse_pieces(&ps, true) {
                None => None,
                Some(gs) => {
                    if gs.len() != 8 {
                        return None;
                    }
                    let v = groups_to_u128(&gs);
                    proof {
                        let g = piece_groups(split_seq(s@, ':'), true)->0;
                        assert(gs@.map_values(|x: u16| x as int) =~= g);
                    }
                    Some(Ipv6Addr { bits: v })
                },
            }
        },
        Some(p) => {
            let n = s.unicode_len();
            let h = s.substring_char(0, p);
            let t = s.substring_char(p + 2, n);
            assert(h@ =~= s@.take(p as int));
            assert(t@ =~= s@.skip(p + 2));
            let hg: Option<Vec<u16>> = if h.unicode_len() == 0 {
                Some(Vec::new())
            } else {
                let hp = split_str(h, ':');
                assert(hp@.map_values(|x: &str| x@) =~= split_seq(h@, ':'));
                parse_pieces(&hp, false)
            };
            let tg: Option<Vec<u16>> = if t.unicode_len() == 0 {
                Some(Vec::new())
            } else {
                let tp = split_str(t, ':');
                assert(tp@.map_values(|x: &str| x@) =~= split_seq(t@, ':'));
                parse_pieces(&tp, true)
            };
            match (hg, tg) {
                (Some(a), Some(b)) => {
                    if a.len() > 7 || b.len() > 7 - a.len() {
                        return None;
                    }
                    let mut all: Vec<u16> = Vec::new();
                    let mut k: usize = 0;
                    while k < a.len()
                        invariant
                            0 <= k <= a@.len(),
                            all@ == a@.take(k as int),
                        decreases a@.len() - k,
                    {
                        all.push(a[k]);
                        assert(all@ =~= a@.take(k + 1));
                        k = k + 1;
                    }
                    let zeros = 8 - a.len() - b.len();
                    let mut z: usize = 0;
                    while z < zeros
                        invariant
                            0 <= z <= zeros,
                            all@ == a@ + Seq::new(z as nat, |i: int| 0u16),
                        decreases zeros - z,
                    {
                        all.push(0);
                        assert(all@ =~= a@ + Seq::new((z + 1) as nat, |i: int| 0u16));
                        z = z + 1;
                    }
                    let mut m: usize = 0;
                    let ghost mid = all@;
                    while m < b.len()
                        invariant
                            0 <= m <= b@.len(),
                            all@ == mid + b@.take(m as int),
                        decreases b@.len() - m,
                    {
                        all.push(b[m]);
                        assert(all@ =~= mid + b@.take(m + 1));
                        m = m + 1;
                    }
                    assert(b@.take(b@.len() as int) =~= b@);
                    assert(a@.take(a@.len() as int) =~= a@);
                    let v = groups_to_u128(&all);
                    proof {
                        let ga = if h@.len() == 0 {
                            Seq::<int>::empty()
                        } else {
                            piece_groups(split_seq(h@, ':'), false)->0
                        };
                        let gb = if t@.len() == 0 {
                            Seq::<int>::empty()
                        } else {
                            piece_groups(split_seq(t@, ':'), true)->0
                        };
                        let whole = ga + Seq::new((8 - ga.len() - gb.len()) as nat, |i: int| 0int) + gb;
                        assert(a@.map_values(|x: u16| x as int) =~= ga);
                        assert(b@.map_values(|x: u16| x as int) =~= gb);
                        assert(whole =~= all@.map_values(|x: u16| x as int));
                        assert(groups_value(whole) == v);
                    }
                    Some(Ipv6Addr { bits: v })
                },
                _ => None,
            }
        },
    }
}

fn groups_to_u128(gs: &Vec<u16>) -> (r: u128)
    requires
        gs@.len() == 8,
    ensures
        r == groups_value(gs@.map_values(|x: u16| x as int)),
{
    let ghost all = gs@.map_values(|x: u16| x as int);
    let mut acc: u128 = 0;
    let mut i: usize = 0;
    while i < 8
        invariant
            gs@.len() == 8,
            all == gs@.map_values(|x: u16| x as int),
            0 <= i <= 8,
            acc == groups_value(all.take(i as int)),
        decreases 8 - i,
    {
        proof {
            assert(all.take(i + 1).drop_last() =~= all.take(i as int));
            lemma_groups_value_bound(all.take(i + 1));
            vstd::arithmetic::power2::lemma2_to64();
            vstd::arithmetic::power2::lemma2_to64_rest();
            lemma_pow2_16k(i as int + 1);
        }
        acc = acc * 65536 + gs[i] as u128;
        i = i + 1;
    }
    assert(all.take(8) =~= all);
    acc
}

proof fn lemma_pow2_16k(k: int)
    requires
        1 <= k <= 8,
    ensures
        vstd::arithmetic::power2::pow2((16 * k) as nat) <= 0x1_0000_0000_0000_0000_0000_0000_0000_0000,
{
    vstd::arithmetic::power2::lemma2_to64();
    vstd::arithmetic::power2::lemma2_to64_rest();
    vstd::arithmetic::power2::lemma_pow2_adds(64, 64);
    if k < 8 {
        vstd::arithmetic::power2::lemma_pow2_strictly_increases((16 * k) as nat, 128);
    }
}

/// Reads an IP address: IPv4 notation first, IPv6 notation otherwise.
pub fn parse_ip_text(s: &str) -> (r: Option<IpAddr>)
    ensures
        r == ip_text(s@),
{
    match parse_ipv4_text(s) {
        Some(a) => Some(IpAddr::V4(a)),
        None => match parse_ipv6_text(s) {
            Some(a) => Some(IpAddr::V6(a)),
            None => None,
        },
    }
}

} // verus!
