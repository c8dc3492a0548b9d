//! The ICMPv6 echo request sent to every node on the link.

use vstd::prelude::*;
use crate::addr::{Ipv6Addr, MacAddr};
use crate::net::datalink::ethernet::{eth_header, lemma_eth_header_len, make_header, ETHERTYPE_IPV6};
use crate::net::packets::ip::{ipv6_header, lemma_ipv6_header_len};
use crate::net::utils::random_u32;
use crate::net::wire::{group_sum, ones_complement, word_sum, be_bytes, lemma_be_bytes_len, push_be, push_zeros, write_at};

verus! {

/// ff02::1, the all-nodes multicast address.
pub open spec fn all_nodes_bits() -> u128 {
    0xff02_0000_0000_0000_0000_0000_0000_0001
}

/// The checksum that `pnet::packet::icmpv6::checksum` computes over an
/// ICMPv6 message and the IPv6 pseudo-header of its source and
/// destination: the ones' complement of the sum of the addresses' 16-bit
/// groups, the next-header number 58, the message's length and the
/// message's 16-bit words, its checksum field (word 1) left out.
pub open spec fn ipv6_message_checksum(message: Seq<u8>, source: u128, destination: u128) -> u16 {
    ones_complement(
        group_sum(source as nat, 8) + group_sum(destination as nat, 8) + 58 + message.len() + word_sum(
            message,
            0,
            1,
        ),
    )
}

/// `pnet::packet::icmpv6::checksum` over `message`, sent from `source` to
/// `destination`.
///
/// pnet (`pnet::util::ipv6_checksum`) adds the pseudo-header and the
/// message's 16-bit words into a `u32` and folds and complements the sum;
/// the contract states that computation. The message is kept to at most
/// 65535 bytes, where that `u32` sum cannot overflow.
#[verifier::external_body]
fn message_checksum(message: &Vec<u8>, source: Ipv6Addr, destination: Ipv6Addr) -> (r: u16)
    requires
        4 <= message@.len() <= 65535,
    ensures
        r == ipv6_message_checksum(message@, source.bits, destination.bits),
{
    let packet = pnet::packet::icmpv6::Icmpv6Packet::new(message.as_slice()).unwrap();
    let src = pnet::util::core_net::Ipv6Addr::from(source.bits);
    let dst = pnet::util::core_net::Ipv6Addr::from(destination.bits);
    pnet::packet::icmpv6::checksum(&packet, &src, &dst)
}

/// The 8 bytes of an echo request: type 128, code 0, the checksum, the
/// identifier and sequence number 0.
pub open spec fn echo_message(identifier: u16, checksum: u16) -> Seq<u8> {
    seq![128u8, 0u8] + be_bytes(checksum as nat, 2) + be_bytes(identifier as nat, 2) + be_bytes(0, 2)
}

/// The whole 62-byte frame: to 33:33:00:00:00:01 and ff02::1, from
/// `src_mac` and `src_addr`, with hop limit 1 and the checksum of the
/// message over the pseudo-header.
pub open spec fn echo_request_frame(
    src_mac: MacAddr,
    src_addr: Ipv6Addr,
    flow_label: u32,
    identifier: u16,
) -> Seq<u8> {
    eth_header(MacAddr(0x33, 0x33, 0, 0, 0, 1), src_mac, 0x86dd) + ipv6_header(
        src_addr,
        Ipv6Addr { bits: all_nodes_bits() },
        8,
        58,
        flow_label,
    ) + echo_message(
        identifier,
        ipv6_message_checksum(echo_message(identifier, 0), src_addr.bits, all_nodes_bits()),
    )
}

pub proof fn lemma_echo_message_len(identifier: u16, checksum: u16)
    ensures
        echo_message(identifier, checksum).len() == 8,
{
    lemma_be_bytes_len(checksum as nat, 2);
    lemma_be_bytes_len(identifier as nat, 2);
    lemma_be_bytes_len(0, 2);
}

/// The bytes of an echo request, built in a fresh buffer.
pub fn echo_message_bytes(identifier: u16, checksum: u16) -> (r: Vec<u8>)
    ensures
        r@ == echo_message(identifier, checksum),
{
    let mut v: Vec<u8> = Vec::new();
    v.push(128u8);
    v.push(0u8);
    push_be(&mut v, checksum as u128, 2);
    push_be(&mut v, identifier as u128, 2);
    push_be(&mut v, 0, 2);
    assert(v@ =~= echo_message(identifier, checksum));
    v
}

/// The echo request frame for a given flow label and identifier.
pub fn echo_request_frame_bytes(src_mac: MacAddr, src_addr: Ipv6Addr, flow_label: u32, identifier: u16) -> (r: Vec<u8>)
    ensures
        r@ == echo_request_frame(src_mac, src_addr, flow_label, identifier),
{
    let dst_mac = MacAddr::new(0x33, 0x33, 0, 0, 0, 1);
    let dst_addr = Ipv6Addr::new(0xff02, 0, 0, 0, 0, 0, 0, 1);
    let mut buffer: Vec<u8> = Vec::new();
    push_zeros(&mut buffer, 62);
    let _ = make_header(&mut buffer, src_mac, dst_mac, ETHERTYPE_IPV6);
    crate::net::packets::ip::write_ipv6_header(src_addr, dst_addr, 8, 58, flow_label, &mut buffer);
    let blank = echo_message_bytes(identifier, 0);
    proof {
        lemma_echo_message_len(identifier, 0);
    }
    let sum = message_checksum(&blank, src_addr, dst_addr);
    let msg = echo_message_bytes(identifier, sum);
    proof {
        lemma_echo_message_len(identifier, sum);
        lemma_eth_header_len(dst_mac, src_mac, 0x86dd);
        lemma_ipv6_header_len(src_addr, dst_addr, 8, 58, flow_label);
    }
    write_at(&mut buffer, 54, &msg);
    assert(buffer@ =~= echo_request_frame(src_mac, src_addr, flow_label, identifier));
    buffer
}

/// Builds an echo request to every node on the link, with a random flow
/// label and a random identifier.
pub fn create_all_nodes_echo_request_v6(src_mac: MacAddr, src_addr: Ipv6Addr) -> (r: Result<
    Vec<u8>,
    String,
>)
    ensures
        r matches Ok(v) && exists|flow_label: u32, identifier: u16|
            v@ == #[trigger] echo_request_frame(src_mac, src_addr, flow_label, identifier),
{
    let flow_label = random_u32();
    let identifier = (random_u32() % 65536) as u16;
    let v = echo_request_frame_bytes(src_mac, src_addr, flow_label, identifier);
    Ok(v)
}

/// An echo request built here reads back as coming from the hardware
/// address and the IPv6 address it was built with.
pub proof fn lemma_echo_request_reads_back(
    src_mac: MacAddr,
    src_addr: Ipv6Addr,
    flow_label: u32,
    identifier: u16,
)
    ensures
        crate::net::packets::frame_reading(echo_request_frame(src_mac, src_addr, flow_label, identifier)) == Ok::<
            Option<(MacAddr, crate::addr::IpAddr)>,
            Seq<char>,
        >(Some((src_mac, crate::addr::IpAddr::V6(src_addr)))),
{
    let f = echo_request_frame(src_mac, src_addr, flow_label, identifier);
    let dst = Ipv6Addr { bits: all_nodes_bits() };
    let sum = ipv6_message_checksum(
        echo_message(identifier, 0),
        src_addr.bits,
        all_nodes_bits(),
    );
    crate::net::datalink::ethernet::lemma_eth_header_len(
        MacAddr(0x33, 0x33, 0, 0, 0, 1),
        src_mac,
        0x86dd,
    );
    crate::net::packets::ip::lemma_ipv6_header_len(src_addr, dst, 8, 58, flow_label);
    lemma_echo_message_len(identifier, sum);
    crate::net::wire::lemma_be_bytes_len(0x86dd, 2);
    crate::net::wire::lemma_be_bytes_len(8, 2);
    crate::net::wire::lemma_pow256_values();
    crate::net::wire::lemma_be_round_trip(0x86dd, 2);
    crate::net::wire::lemma_be_round_trip(src_addr.bits as nat, 16);
    assert(f.subrange(12, 14) =~= crate::net::wire::be_bytes(0x86dd, 2));
    assert(f.subrange(22, 38) =~= crate::net::wire::be_bytes(src_addr.bits as nat, 16));
    assert(f[20] == 58);
    assert(f[6] == src_mac.0);
    assert(f[7] == src_mac.1);
    assert(f[8] == src_mac.2);
    assert(f[9] == src_mac.3);
    assert(f[10] == src_mac.4);
    assert(f[11] == src_mac.5);
}

} // verus!
