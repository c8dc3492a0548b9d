//! Big-endian numbers on the wire: how a value is laid out in bytes, and
//! how bytes are read back as a value.

use vstd::prelude::*;

verus! {

/// 256 to the power `n`.
pub open spec fn pow256(n: nat) -> nat
    decreases n,
{
    if n == 0 {
        1
    } else {
        256 * pow256((n - 1) as nat)
    }
}

/// The `n` low-order bytes of `v`, most significant first.
pub open spec fn be_bytes(v: nat, n: nat) -> Seq<u8>
    decreases n,
{
    if n == 0 {
        Seq::empty()
    } else {
        be_bytes(v / 256, (n - 1) as nat).push((v % 256) as u8)
    }
}

/// The value of `s` read as one big-endian number.
pub open spec fn be_value(s: Seq<u8>) -> nat
    decreases s.len(),
{
    if s.len() == 0 {
        0
    } else {
        be_value(s.drop_last()) * 256 + s.last() as nat
    }
}

/// `s` with the bytes from `off` on replaced by `b`.
pub open spec fn overwrite(s: Seq<u8>, off: int, b: Seq<u8>) -> Seq<u8> {
    s.subrange(0, off) + b + s.subrange(off + b.len(), s.len() as int)
}

/// `n` zero bytes.
pub open spec fn zeros(n: nat) -> Seq<u8> {
    Seq::new(n, |i: int| 0u8)
}

pub proof fn lemma_pow256_positive(n: nat)
    ensures
        pow256(n) >= 1,
    decreases n,
{
    if n > 0 {
        lemma_pow256_positive((n - 1) as nat);
    }
}

pub proof fn lemma_be_bytes_len(v: nat, n: nat)
    ensures
        be_bytes(v, n).len() == n,
    decreases n,
{
    if n > 0 {
        lemma_be_bytes_len(v / 256, (n - 1) as nat);
    }
}

/// Reading back the bytes of `v` gives `v` modulo the range of `n` bytes.
pub proof fn lemma_be_value_of_bytes(v: nat, n: nat)
    ensures
        be_value(be_bytes(v, n)) == v % pow256(n),
    decreases n,
{
    if n == 0 {
    } else {
        let m = (n - 1) as nat;
        lemma_be_value_of_bytes(v / 256, m);
        lemma_pow256_positive(m);
        let s = be_bytes(v, n);
        assert(s.drop_last() =~= be_bytes(v / 256, m));
        vstd::arithmetic::div_mod::lemma_mod_breakdown(v as int, 256, pow256(m) as int);
        assert(256 * ((v as int / 256) % (pow256(m) as int)) == ((v / 256) % pow256(m)) * 256);
    }
}

/// A value below the range of `n` bytes reads back unchanged.
pub proof fn lemma_be_round_trip(v: nat, n: nat)
    requires
        v < pow256(n),
    ensures
        be_value(be_bytes(v, n)) == v,
        be_bytes(v, n).len() == n,
{
    lemma_be_value_of_bytes(v, n);
    vstd::arithmetic::div_mod::lemma_small_mod(v, pow256(n));
    lemma_be_bytes_len(v, n);
}

pub proof fn lemma_be_value_bound(s: Seq<u8>)
    ensures
        be_value(s) < pow256(s.len()),
    decreases s.len(),
{
    if s.len() > 0 {
        lemma_be_value_bound(s.drop_last());
        let p = pow256((s.len() - 1) as nat);
        assert(be_value(s.drop_last()) + 1 <= p);
        assert((be_value(s.drop_last()) + 1) * 256 <= p * 256) by (nonlinear_arith)
            requires
                be_value(s.drop_last()) + 1 <= p,
        ;
    }
}

pub proof fn lemma_pow256_values()
    ensures
        pow256(1) == 256,
        pow256(2) == 65536,
        pow256(4) == 0x1_0000_0000,
        pow256(6) == 0x1_0000_0000_0000,
        pow256(16) == 0x1_0000_0000_0000_0000_0000_0000_0000_0000,
{
    reveal_with_fuel(pow256, 17);
}

/// Appends the `n` low-order bytes of `v` to `buf`, most significant first.
pub fn push_be(buf: &mut Vec<u8>, v: u128, n: usize)
    requires
        n <= 16,
    ensures
        final(buf)@ == old(buf)@ + be_bytes(v as nat, n as nat),
    decreases n,
{
    if n > 0 {
        push_be(buf, v / 256, n - 1);
        buf.push((v % 256) as u8);
        proof {
            assert(be_bytes(v as nat, n as nat) == be_bytes((v / 256) as nat, (n - 1) as nat).push(
                (v % 256) as u8,
            ));
        }
    } else {
        assert(be_bytes(v as nat, 0) =~= Seq::<u8>::empty());
        assert(old(buf)@ + Seq::<u8>::empty() =~= old(buf)@);
    }
}

/// Appends `n` zero bytes to `buf`.
pub fn push_zeros(buf: &mut Vec<u8>, n: usize)
    ensures
        final(buf)@ == old(buf)@ + zeros(n as nat),
{
    let ghost start = buf@;
    let mut i: usize = 0;
    while i < n
        invariant
            i <= n,
            buf@ == start + zeros(i as nat),
        decreases n - i,
    {
        buf.push(0u8);
        i = i + 1;
        assert(buf@ =~= start + zeros(i as nat));
    }
}

/// Reads `n` bytes of `s` from `off` on as one big-endian number.
pub fn read_be(s: &[u8], off: usize, n: usize) -> (r: u128)
    requires
        n <= 16,
        off + n <= s@.len(),
    ensures
        r as nat == be_value(s@.subrange(off as int, off + n)),
{
    let len = s.len();
    let mut acc: u128 = 0;
    let mut i: usize = 0;
    while i < n
        invariant
            i <= n <= 16,
            off + n <= s@.len(),
            len == s@.len(),
            acc as nat == be_value(s@.subrange(off as int, off + i)),
        decreases n - i,
    {
        proof {
            lemma_be_value_bound(s@.subrange(off as int, off + i));
            lemma_pow256_values();
            lemma_pow256_mono(i as nat, 15);
            assert(s@.subrange(off as int, off + i + 1).drop_last() =~= s@.subrange(
                off as int,
                off + i,
            ));
        }
        acc = acc * 256 + s[off + i] as u128;
        i = i + 1;
    }
    acc
}

pub proof fn lemma_pow256_mono(a: nat, b: nat)
    requires
        a <= b,
    ensures
        pow256(a) <= pow256(b),
    decreases b,
{
    if a < b {
        lemma_pow256_mono(a, (b - 1) as nat);
        lemma_pow256_positive((b - 1) as nat);
    }
}

/// Replaces the bytes of `buf` from `off` on by those of `b`.
pub fn write_at(buf: &mut Vec<u8>, off: usize, b: &Vec<u8>)
    requires
        off + b@.len() <= old(buf)@.len(),
    ensures
        final(buf)@ == overwrite(old(buf)@, off as int, b@),
        final(buf)@.len() == old(buf)@.len(),
{
    let ghost orig = buf@;
    let len = buf.len();
    let mut i: usize = 0;
    while i < b.len()
        invariant
            i <= b@.len(),
            len == orig.len(),
            off + b@.len() <= orig.len(),
            buf@.len() == orig.len(),
            forall|j: int| 0 <= j < off ==> buf@[j] == orig[j],
            forall|j: int| off <= j < off + i ==> buf@[j] == b@[j - off],
            forall|j: int| off + i <= j < orig.len() ==> buf@[j] == orig[j],
        decreases b@.len() - i,
    {
        buf.set(off + i, b[i]);
        i = i + 1;
    }
    assert(buf@ =~= overwrite(orig, off as int, b@));
}

/// The sum of the big-endian 16-bit words of `data`, numbered from `i`,
/// leaving out word `skip`; an odd last byte counts as the high byte of a
/// word.
pub open spec fn word_sum(data: Seq<u8>, i: int, skip: int) -> nat
    decreases data.len(),
{
    if data.len() == 0 {
        0
    } else if data.len() == 1 {
        if i != skip {
            data[0] as nat * 256
        } else {
            0
        }
    } else {
        (if i != skip {
            data[0] as nat * 256 + data[1] as nat
        } else {
            0
        }) + word_sum(data.skip(2), i + 1, skip)
    }
}

/// The sum with its carries folded back in until it fits in 16 bits.
pub open spec fn fold_carries(sum: nat) -> nat
    decreases sum,
{
    if sum < 0x10000 {
        sum
    } else {
        proof {
            assert(sum / 0x10000 + sum % 0x10000 < sum) by (nonlinear_arith)
                requires
                    sum >= 0x10000,
            ;
        }
        fold_carries(sum / 0x10000 + sum % 0x10000)
    }
}

/// The Internet checksum of a word sum: the ones' complement of the folded
/// sum.
pub open spec fn ones_complement(sum: nat) -> u16 {
    (0xffff - fold_carries(sum)) as u16
}

/// The sum of the eight 16-bit groups of an IPv6 address.
pub open spec fn group_sum(v: nat, n: nat) -> nat
    decreases n,
{
    if n == 0 {
        0
    } else {
        v % 0x10000 + group_sum(v / 0x10000, (n - 1) as nat)
    }
}

} // verus!
