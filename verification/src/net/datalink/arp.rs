//! ARP for IPv4 over Ethernet: the request that asks who holds an address,
//! and the sender address read back from a received message.

use vstd::prelude::*;
use crate::addr::{IpAddr, Ipv4Addr, MacAddr};
use crate::net::datalink::ethernet::{eth_header, lemma_eth_header_len, make_header, payload_len, truncated_msg, ETHERTYPE_ARP};
use crate::net::utils::{ARP_LEN, ETH_HDR_LEN, MIN_ETH_FRAME_NO_FCS};
use crate::net::wire::{be_bytes, be_value, zeros, lemma_be_bytes_len, lemma_be_round_trip, lemma_pow256_values, push_be, push_zeros, read_be, write_at};
use crate::text::decimal;

verus! {

/// ARP operation code of a request.
pub const ARP_REQUEST: u16 = 1;

/// ARP operation code of a reply.
pub const ARP_REPLY: u16 = 2;

/// The 28 bytes of an ARP message for IPv4 over Ethernet: hardware type 1,
/// protocol type 0x0800, address lengths 6 and 4, the operation, then the
/// sender's and the target's hardware and protocol addresses.
pub open spec fn arp_body(op: u16, sha: MacAddr, spa: Ipv4Addr, tha: MacAddr, tpa: Ipv4Addr) -> Seq<
    u8,
> {
    be_bytes(1, 2) + be_bytes(0x0800, 2) + seq![6u8, 4u8] + be_bytes(op as nat, 2)
        + sha.spec_bytes() + be_bytes(spa.bits as nat, 4) + tha.spec_bytes() + be_bytes(
        tpa.bits as nat,
        4,
    )
}

/// The whole 60-byte request frame: broadcast to every station, from
/// `src_mac`, asking which station holds `dst_addr`, with `dst_mac` as the
/// target hardware address and zero padding after the message.
pub open spec fn arp_request_frame(
    src_mac: MacAddr,
    dst_mac: MacAddr,
    src_addr: Ipv4Addr,
    dst_addr: Ipv4Addr,
) -> Seq<u8> {
    eth_header(MacAddr(0xff, 0xff, 0xff, 0xff, 0xff, 0xff), src_mac, 0x0806) + arp_body(
        1,
        src_mac,
        src_addr,
        dst_mac,
        dst_addr,
    ) + zeros(18)
}

pub proof fn lemma_arp_body_len(op: u16, sha: MacAddr, spa: Ipv4Addr, tha: MacAddr, tpa: Ipv4Addr)
    ensures
        arp_body(op, sha, spa, tha, tpa).len() == 28,
{
    lemma_be_bytes_len(1, 2);
    lemma_be_bytes_len(0x0800, 2);
    lemma_be_bytes_len(op as nat, 2);
    lemma_be_bytes_len(spa.bits as nat, 4);
    lemma_be_bytes_len(tpa.bits as nat, 4);
}

/// The bytes of an ARP message, built in a fresh buffer.
pub fn arp_body_bytes(op: u16, sha: MacAddr, spa: Ipv4Addr, tha: MacAddr, tpa: Ipv4Addr) -> (r: Vec<
    u8,
>)
    ensures
        r@ == arp_body(op, sha, spa, tha, tpa),
{
    let mut v: Vec<u8> = Vec::new();
    push_be(&mut v, 1, 2);
    push_be(&mut v, 0x0800, 2);
    v.push(6u8);
    v.push(4u8);
    push_be(&mut v, op as u128, 2);
    v.push(sha.0);
    v.push(sha.1);
    v.push(sha.2);
    v.push(sha.3);
    v.push(sha.4);
    v.push(sha.5);
    push_be(&mut v, spa.bits as u128, 4);
    v.push(tha.0);
    v.push(tha.1);
    v.push(tha.2);
    v.push(tha.3);
    v.push(tha.4);
    v.push(tha.5);
    push_be(&mut v, tpa.bits as u128, 4);
    assert(v@ =~= arp_body(op, sha, spa, tha, tpa));
    v
}

/// Builds the ARP request frame that asks who holds `dst_addr`.
///
/// The frame is always sent to the broadcast address; `dst_mac` only fills
/// the target hardware address of the message.
pub fn create_packet(src_mac: MacAddr, dst_mac: MacAddr, src_addr: Ipv4Addr, dst_addr: Ipv4Addr) -> (r:
    Result<Vec<u8>, String>)
    ensures
        r matches Ok(v) && v@ == arp_request_frame(src_mac, dst_mac, src_addr, dst_addr),
{
    let mut buffer: Vec<u8> = Vec::new();
    push_zeros(&mut buffer, MIN_ETH_FRAME_NO_FCS);
    let ghost blank = buffer@;
    match make_header(&mut buffer, src_mac, MacAddr::broadcast(), ETHERTYPE_ARP) {
        Ok(()) => {},
        Err(e) => {
            return Err(e);
        },
    }
    let body = arp_body_bytes(ARP_REQUEST, src_mac, src_addr, dst_mac, dst_addr);
    proof {
        lemma_arp_body_len(ARP_REQUEST, src_mac, src_addr, dst_mac, dst_addr);
        lemma_eth_header_len(MacAddr(0xff, 0xff, 0xff, 0xff, 0xff, 0xff), src_mac, 0x0806);
    }
    write_at(&mut buffer, ETH_HDR_LEN, &body);
    assert(buffer@ =~= arp_request_frame(src_mac, dst_mac, src_addr, dst_addr));
    Ok(buffer)
}

/// The message of the error for a payload too short to be an ARP message.
pub open spec fn arp_truncated_msg(payload_len: nat) -> Seq<char> {
    "truncated or invalid ARP packet (payload len "@ + decimal(payload_len) + ")"@
}

/// The sender protocol address of the ARP message carried by `frame`: the
/// big-endian value of its bytes 28 to 31.
pub open spec fn arp_sender_addr(frame: Seq<u8>) -> Ipv4Addr {
    Ipv4Addr { bits: be_value(frame.subrange(28, 32)) as u32 }
}

/// The sender protocol address of the ARP message in an Ethernet frame.
///
/// A payload shorter than an ARP message is refused with its length.
pub fn get_ip_addr(frame: &[u8]) -> (r: Result<IpAddr, String>)
    requires
        frame@.len() >= 14,
    ensures
        frame@.len() - 14 < 28 ==> (r matches Err(e) && e@ == arp_truncated_msg(
            payload_len(frame@),
        )),
        frame@.len() - 14 >= 28 ==> r == Ok::<IpAddr, String>(
            IpAddr::V4(arp_sender_addr(frame@)),
        ),
{
    let len = frame.len() - ETH_HDR_LEN;
    if len < ARP_LEN {
        return Err(truncated_msg("truncated or invalid ARP packet (payload len ", len));
    }
    let bits = read_be(frame, 28, 4);
    proof {
        crate::net::wire::lemma_be_value_bound(frame@.subrange(28, 32));
        lemma_pow256_values();
    }
    Ok(IpAddr::V4(Ipv4Addr { bits: bits as u32 }))
}

/// Reading a built request back gives the address it was built with.
pub proof fn lemma_arp_request_sender(
    src_mac: MacAddr,
    dst_mac: MacAddr,
    src_addr: Ipv4Addr,
    dst_addr: Ipv4Addr,
)
    ensures
        arp_request_frame(src_mac, dst_mac, src_addr, dst_addr).len() == 60,
        arp_sender_addr(arp_request_frame(src_mac, dst_mac, src_addr, dst_addr)) == src_addr,
        arp_request_frame(src_mac, dst_mac, src_addr, dst_addr).subrange(6, 12)
            == src_mac.spec_bytes(),
        be_value(arp_request_frame(src_mac, dst_mac, src_addr, dst_addr).subrange(12, 14))
            == 0x0806,
{
    let f = arp_request_frame(src_mac, dst_mac, src_addr, dst_addr);
    lemma_arp_body_len(1, src_mac, src_addr, dst_mac, dst_addr);
    lemma_eth_header_len(MacAddr(0xff, 0xff, 0xff, 0xff, 0xff, 0xff), src_mac, 0x0806);
    lemma_pow256_values();
    lemma_be_round_trip(src_addr.bits as nat, 4);
    lemma_be_round_trip(0x0806, 2);
    lemma_be_bytes_len(1, 2);
    lemma_be_bytes_len(0x0800, 2);
    lemma_be_bytes_len(1, 2);
    assert(f.subrange(28, 32) =~= be_bytes(src_addr.bits as nat, 4));
    assert(f.subrange(6, 12) =~= src_mac.spec_bytes());
    assert(f.subrange(12, 14) =~= be_bytes(0x0806, 2));
}

} // verus!
