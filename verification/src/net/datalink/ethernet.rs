//! The Ethernet header: destination, source and EtherType.

use vstd::prelude::*;
use crate::addr::MacAddr;
use crate::net::wire::{be_bytes, overwrite, lemma_be_bytes_len, push_be, write_at};
use crate::text::{decimal, u64_to_string};

verus! {

/// EtherType of an IPv4 payload.
pub const ETHERTYPE_IPV4: u16 = 0x0800;

/// EtherType of an ARP payload.
pub const ETHERTYPE_ARP: u16 = 0x0806;

/// EtherType of an IPv6 payload.
pub const ETHERTYPE_IPV6: u16 = 0x86dd;

/// The 14 bytes of an Ethernet header.
pub open spec fn eth_header(dst: MacAddr, src: MacAddr, et: u16) -> Seq<u8> {
    dst.spec_bytes() + src.spec_bytes() + be_bytes(et as nat, 2)
}

pub proof fn lemma_eth_header_len(dst: MacAddr, src: MacAddr, et: u16)
    ensures
        eth_header(dst, src, et).len() == 14,
{
    lemma_be_bytes_len(et as nat, 2);
}

/// The header bytes, built in a fresh buffer.
pub fn header_bytes(src_mac: MacAddr, dst_mac: MacAddr, et: u16) -> (r: Vec<u8>)
    ensures
        r@ == eth_header(dst_mac, src_mac, et),
{
    let mut v: Vec<u8> = Vec::new();
    v.push(dst_mac.0);
    v.push(dst_mac.1);
    v.push(dst_mac.2);
    v.push(dst_mac.3);
    v.push(dst_mac.4);
    v.push(dst_mac.5);
    v.push(src_mac.0);
    v.push(src_mac.1);
    v.push(src_mac.2);
    v.push(src_mac.3);
    v.push(src_mac.4);
    v.push(src_mac.5);
    let ghost macs = v@;
    assert(macs =~= dst_mac.spec_bytes() + src_mac.spec_bytes());
    push_be(&mut v, et as u128, 2);
    v
}

/// The number of bytes that follow the Ethernet header of `frame`.
pub open spec fn payload_len(frame: Seq<u8>) -> nat {
    (frame.len() - 14) as nat
}

/// The message of an error for a payload too short for what it should
/// carry: `prefix`, the payload length in decimal, and a closing bracket.
pub fn truncated_msg(prefix: &str, len: usize) -> (r: String)
    ensures
        r@ == prefix@ + decimal(len as nat) + ")"@,
{
    let mut msg = String::from_str(prefix);
    let n = u64_to_string(len as u64);
    msg.append(n.as_str());
    msg.append(")");
    msg
}

/// Writes an Ethernet header at the start of `buffer`.
///
/// A buffer shorter than a header is left as it is, and the call fails.
pub fn make_header(buffer: &mut Vec<u8>, src_mac: MacAddr, dst_mac: MacAddr, et: u16) -> (r: Result<
    (),
    String,
>)
    ensures
        old(buffer)@.len() < 14 ==> (r matches Err(e) && e@
            == "failed to create mutable Ethernet packet"@) && final(buffer)@ == old(buffer)@,
        old(buffer)@.len() >= 14 ==> r is Ok && final(buffer)@ == overwrite(
            old(buffer)@,
            0,
            eth_header(dst_mac, src_mac, et),
        ),
{
    if buffer.len() < 14 {
        return Err(String::from_str("failed to create mutable Ethernet packet"));
    }
    let hdr = header_bytes(src_mac, dst_mac, et);
    proof {
        lemma_eth_header_len(dst_mac, src_mac, et);
    }
    write_at(buffer, 0, &hdr);
    Ok(())
}

} // verus!
