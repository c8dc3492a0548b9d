//! IPv4 and IPv6 headers: written after an Ethernet header, and read back
//! from a received frame.

use vstd::prelude::*;
use crate::addr::{IpAddr, Ipv4Addr, Ipv6Addr};
use crate::net::utils::{ETH_HDR_LEN, IP_V6_HDR_LEN, random_u32};
use crate::net::wire::{
    ones_complement, word_sum, be_bytes, be_value, overwrite, lemma_be_bytes_len, lemma_be_value_bound, lemma_pow256_values,
    push_be, read_be, write_at,
};
use crate::net::datalink::ethernet::{payload_len, truncated_msg};
use crate::text::decimal;

verus! {

/// IP protocol number of ICMPv6.
pub const IPPROTO_ICMPV6: u8 = 58;

/// The Internet checksum of an IPv4 header, as
/// `pnet::packet::ipv4::checksum` computes it: the ones' complement of the
/// sum of the header's 16-bit words, the checksum field (word 5) left out.
pub open spec fn ipv4_header_checksum(header: Seq<u8>) -> u16 {
    if header.len() == 0 {
        0
    } else {
        ones_complement(word_sum(header, 0, 5))
    }
}

/// `pnet::packet::ipv4::checksum` over a 20-byte header.
///
/// pnet clamps the header length that the header gives to between 20 bytes
/// and the buffer's length, here always 20, and sums the 16-bit words of
/// those bytes but the checksum field, with `pnet::util::checksum`. The
/// contract states that computation.
#[verifier::external_body]
fn ipv4_checksum(header: &Vec<u8>) -> (r: u16)
    requires
        header@.len() == 20,
    ensures
        r == ipv4_header_checksum(header@),
{
    let packet = pnet::packet::ipv4::Ipv4Packet::new(header.as_slice()).unwrap();
    pnet::packet::ipv4::checksum(&packet)
}

/// The 40 bytes of an IPv6 header with traffic class 0 and hop limit 1.
/// Only the low 20 bits of `flow_label` are carried.
pub open spec fn ipv6_header(
    src: Ipv6Addr,
    dst: Ipv6Addr,
    payload_length: u16,
    next_header: u8,
    flow_label: u32,
) -> Seq<u8> {
    seq![
        0x60u8,
        ((flow_label / 65536) % 16) as u8,
        ((flow_label / 256) % 256) as u8,
        (flow_label % 256) as u8,
    ] + be_bytes(payload_length as nat, 2) + seq![next_header, 1u8] + be_bytes(src.bits as nat, 16)
        + be_bytes(dst.bits as nat, 16)
}

pub proof fn lemma_ipv6_header_len(
    src: Ipv6Addr,
    dst: Ipv6Addr,
    payload_length: u16,
    next_header: u8,
    flow_label: u32,
)
    ensures
        ipv6_header(src, dst, payload_length, next_header, flow_label).len() == 40,
{
    lemma_be_bytes_len(payload_length as nat, 2);
    lemma_be_bytes_len(src.bits as nat, 16);
    lemma_be_bytes_len(dst.bits as nat, 16);
}

/// The bytes of an IPv6 header, built in a fresh buffer.
pub fn ipv6_header_bytes(
    src: Ipv6Addr,
    dst: Ipv6Addr,
    payload_length: u16,
    next_header: u8,
    flow_label: u32,
) -> (r: Vec<u8>)
    ensures
        r@ == ipv6_header(src, dst, payload_length, next_header, flow_label),
{
    let mut v: Vec<u8> = Vec::new();
    v.push(0x60u8);
    v.push(((flow_label / 65536) % 16) as u8);
    v.push(((flow_label / 256) % 256) as u8);
    v.push((flow_label % 256) as u8);
    push_be(&mut v, payload_length as u128, 2);
    v.push(next_header);
    v.push(1u8);
    push_be(&mut v, src.bits, 16);
    push_be(&mut v, dst.bits, 16);
    assert(v@ =~= ipv6_header(src, dst, payload_length, next_header, flow_label));
    v
}

/// Writes an IPv6 header with the given flow label after the Ethernet
/// header of `buffer`.
pub fn write_ipv6_header(
    src_addr: Ipv6Addr,
    dst_addr: Ipv6Addr,
    payload_length: u16,
    next_protocol: u8,
    flow_label: u32,
    buffer: &mut Vec<u8>,
)
    requires
        old(buffer)@.len() >= 54,
    ensures
        final(buffer)@ == overwrite(
            old(buffer)@,
            14,
            ipv6_header(src_addr, dst_addr, payload_length, next_protocol, flow_label),
        ),
{
    let hdr = ipv6_header_bytes(src_addr, dst_addr, payload_length, next_protocol, flow_label);
    proof {
        lemma_ipv6_header_len(src_addr, dst_addr, payload_length, next_protocol, flow_label);
    }
    write_at(buffer, ETH_HDR_LEN, &hdr);
}

/// Writes an IPv6 header after the Ethernet header of `buffer`, with a
/// random flow label.
pub fn make_ipv6_header(
    src_addr: Ipv6Addr,
    dst_addr: Ipv6Addr,
    payload_length: u16,
    next_protocol: u8,
    buffer: &mut Vec<u8>,
) -> (r: Result<(), String>)
    requires
        old(buffer)@.len() >= 54,
    ensures
        r is Ok,
        exists|flow_label: u32|
            final(buffer)@ == overwrite(
                old(buffer)@,
                14,
                #[trigger] ipv6_header(src_addr, dst_addr, payload_length, next_protocol, flow_label),
            ),
{
    let flow_label = random_u32();
    write_ipv6_header(src_addr, dst_addr, payload_length, next_protocol, flow_label, buffer);
    Ok(())
}

/// The 20 bytes of an IPv4 header without options: version 4, header
/// length 5 words, the don't-fragment flag, time to live 64.
pub open spec fn ipv4_header(
    src: Ipv4Addr,
    dst: Ipv4Addr,
    total_length: u16,
    protocol: u8,
    identification: u16,
    checksum: u16,
) -> Seq<u8> {
    seq![0x45u8, 0u8] + be_bytes(total_length as nat, 2) + be_bytes(identification as nat, 2) + seq![
        0x40u8,
        0u8,
        64u8,
        protocol,
    ] + be_bytes(checksum as nat, 2) + be_bytes(src.bits as nat, 4) + be_bytes(dst.bits as nat, 4)
}

pub proof fn lemma_ipv4_header_len(
    src: Ipv4Addr,
    dst: Ipv4Addr,
    total_length: u16,
    protocol: u8,
    identification: u16,
    checksum: u16,
)
    ensures
        ipv4_header(src, dst, total_length, protocol, identification, checksum).len() == 20,
{
    lemma_be_bytes_len(total_length as nat, 2);
    lemma_be_bytes_len(identification as nat, 2);
    lemma_be_bytes_len(checksum as nat, 2);
    lemma_be_bytes_len(src.bits as nat, 4);
    lemma_be_bytes_len(dst.bits as nat, 4);
}

/// The bytes of an IPv4 header, built in a fresh buffer.
pub fn ipv4_header_bytes(
    src: Ipv4Addr,
    dst: Ipv4Addr,
    total_length: u16,
    protocol: u8,
    identification: u16,
    checksum: u16,
) -> (r: Vec<u8>)
    ensures
        r@ == ipv4_header(src, dst, total_length, protocol, identification, checksum),
{
    let mut v: Vec<u8> = Vec::new();
    v.push(0x45u8);
    v.push(0u8);
    push_be(&mut v, total_length as u128, 2);
    push_be(&mut v, identification as u128, 2);
    v.push(0x40u8);
    v.push(0u8);
    v.push(64u8);
    v.push(protocol);
    push_be(&mut v, checksum as u128, 2);
    push_be(&mut v, src.bits as u128, 4);
    push_be(&mut v, dst.bits as u128, 4);
    assert(v@ =~= ipv4_header(src, dst, total_length, protocol, identification, checksum));
    v
}

/// The header that goes on the wire: its checksum field holds the checksum
/// of the same header with a zero checksum field.
pub open spec fn checksummed_ipv4_header(
    src: Ipv4Addr,
    dst: Ipv4Addr,
    total_length: u16,
    protocol: u8,
    identification: u16,
) -> Seq<u8> {
    ipv4_header(
        src,
        dst,
        total_length,
        protocol,
        identification,
        ipv4_header_checksum(ipv4_header(src, dst, total_length, protocol, identification, 0)),
    )
}

/// Writes an IPv4 header with the given identification after the Ethernet
/// header of `buffer`, its checksum computed over the header itself.
pub fn write_ipv4_header(
    src_addr: Ipv4Addr,
    dst_addr: Ipv4Addr,
    total_length: u16,
    next_protocol: u8,
    identification: u16,
    buffer: &mut Vec<u8>,
)
    requires
        old(buffer)@.len() >= 34,
    ensures
        final(buffer)@ == overwrite(
            old(buffer)@,
            14,
            checksummed_ipv4_header(src_addr, dst_addr, total_length, next_protocol, identification),
        ),
{
    let blank = ipv4_header_bytes(src_addr, dst_addr, total_length, next_protocol, identification, 0);
    proof {
        lemma_ipv4_header_len(src_addr, dst_addr, total_length, next_protocol, identification, 0);
    }
    let csm = ipv4_checksum(&blank);
    let hdr = ipv4_header_bytes(src_addr, dst_addr, total_length, next_protocol, identification, csm);
    proof {
        lemma_ipv4_header_len(src_addr, dst_addr, total_length, next_protocol, identification, csm);
    }
    write_at(buffer, ETH_HDR_LEN, &hdr);
}

/// Writes an IPv4 header after the Ethernet header of `buffer`, with a
/// random identification and its checksum.
pub fn create_ipv4_header(
    src_addr: Ipv4Addr,
    dst_addr: Ipv4Addr,
    total_length: u16,
    next_protocol: u8,
    buffer: &mut Vec<u8>,
) -> (r: Result<(), String>)
    requires
        old(buffer)@.len() >= 34,
    ensures
        r is Ok,
        exists|identification: u16|
            final(buffer)@ == overwrite(
                old(buffer)@,
                14,
                #[trigger] checksummed_ipv4_header(
                    src_addr,
                    dst_addr,
                    total_length,
                    next_protocol,
                    identification,
                ),
            ),
{
    let identification = (random_u32() % 65536) as u16;
    write_ipv4_header(src_addr, dst_addr, total_length, next_protocol, identification, buffer);
    Ok(())
}

/// The message of the error for a payload too short to be an IPv6 header.
pub open spec fn ipv6_truncated_msg(payload_len: nat) -> Seq<char> {
    "truncated or invalid IPv6 packet (payload len "@ + decimal(payload_len) + ")"@
}

/// The source address of the IPv6 header carried by `frame`: the
/// big-endian value of its bytes 22 to 37.
pub open spec fn ipv6_source(frame: Seq<u8>) -> Ipv6Addr {
    Ipv6Addr { bits: be_value(frame.subrange(22, 38)) as u128 }
}

/// The source of the IPv6 packet in an Ethernet frame, when that packet
/// carries ICMPv6.
///
/// A payload shorter than an IPv6 header is refused with its length.
pub fn extract_addr_if_icmpv6(frame: &[u8]) -> (r: Result<Option<IpAddr>, String>)
    requires
        frame@.len() >= 14,
    ensures
        frame@.len() - 14 < 40 ==> (r matches Err(e) && e@ == ipv6_truncated_msg(
            payload_len(frame@),
        )),
        frame@.len() - 14 >= 40 ==> r == Ok::<Option<IpAddr>, String>(
            if frame@[20] == 58 {
                Some(IpAddr::V6(ipv6_source(frame@)))
            } else {
                None
            },
        ),
{
    let len = frame.len() - ETH_HDR_LEN;
    if len < IP_V6_HDR_LEN {
        return Err(truncated_msg("truncated or invalid IPv6 packet (payload len ", len));
    }
    if frame[20] == IPPROTO_ICMPV6 {
        let bits = read_be(frame, 22, 16);
        proof {
            lemma_be_value_bound(frame@.subrange(22, 38));
            lemma_pow256_values();
        }
        return Ok(Some(IpAddr::V6(Ipv6Addr { bits })));
    }
    Ok(None)
}

} // verus!
