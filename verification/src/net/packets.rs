//! Discovery packets: what is sent for each kind of probe, and what a
//! received frame tells about the station that sent it.

pub mod ip;
pub mod icmp;

use vstd::prelude::*;
use crate::addr::{IpAddr, Ipv4Addr, Ipv6Addr, MacAddr};
use crate::domain::range::span;
use crate::net::datalink::arp::{self, arp_request_frame, arp_sender_addr, arp_truncated_msg};
use crate::net::datalink::channel::SenderContext;
use crate::net::datalink::ethernet::payload_len;
use crate::net::packets::icmp::echo_request_frame;
use crate::net::packets::ip::{ipv6_source, ipv6_truncated_msg};
use crate::net::range::{self, Ipv4Range};
use crate::net::wire::{be_value, read_be};
use crate::network::{v4_mask, Ipv4Net};

verus! {

/// The kinds of probe a single packet can be built for.
#[derive(Clone, Copy, Debug, PartialEq, Eq, Structural)]
pub enum PacketType {
    Arp,
    Icmpv6,
    Ndp,
}

/// The addresses that the ARP sweep of a context covers: its explicit
/// range, or else the whole block of its source network.
pub open spec fn arp_target_range(net: Ipv4Net, explicit: Option<Ipv4Range>) -> (u32, u32) {
    match explicit {
        Some(r) => (r.start_addr.bits, r.end_addr.bits),
        None => (net.spec_ip().bits & v4_mask(net.spec_prefix()), net.spec_ip().bits | !v4_mask(
            net.spec_prefix(),
        )),
    }
}

/// The ARP requests of a sweep: one per target address, in order.
pub open spec fn arp_sweep(ctx: SenderContext, net: Ipv4Net) -> Seq<Seq<u8>> {
    let bounds = arp_target_range(net, ctx.ipv4_range);
    span(bounds.0, bounds.1).map_values(
        |a: u32|
            arp_request_frame(
                ctx.src_mac,
                MacAddr(0xff, 0xff, 0xff, 0xff, 0xff, 0xff),
                net.spec_ip(),
                Ipv4Addr { bits: a },
            ),
    )
}

/// Whether `v` is an all-nodes echo request from the context's link-local
/// address, for some flow label and identifier.
pub open spec fn is_echo_request_from(v: Seq<u8>, src_mac: MacAddr, src_addr: Ipv6Addr) -> bool {
    exists|flow_label: u32, identifier: u16|
        v == #[trigger] echo_request_frame(src_mac, src_addr, flow_label, identifier)
}

/// The number of ARP requests in the context's sweep.
pub open spec fn arp_count(ctx: SenderContext) -> nat {
    match ctx.ipv4_net {
        Some(net) => arp_sweep(ctx, net).len(),
        None => 0,
    }
}

/// The number of echo requests the context allows: one with a link-local
/// address, none without.
pub open spec fn echo_count(ctx: SenderContext) -> nat {
    if ctx.link_local is Some {
        1
    } else {
        0
    }
}

/// Whether `v` holds the context's ARP sweep, in order, followed by one
/// echo request when the context has a link-local address.
pub open spec fn is_discovery_batch(ctx: SenderContext, v: Seq<Vec<u8>>) -> bool {
    &&& v.len() == arp_count(ctx) + echo_count(ctx)
    &&& forall|i: int|
        #![trigger v[i]]
        0 <= i < arp_count(ctx) ==> (ctx.ipv4_net matches Some(net) && v[i]@ == arp_sweep(ctx, net)[i])
    &&& (ctx.link_local matches Some(ll) ==> is_echo_request_from(v.last()@, ctx.src_mac, ll))
}

/// Builds the packet of one kind for the context.
pub fn create_single_packet(sender_context: &SenderContext, packet_type: PacketType) -> (r: Result<
    Vec<u8>,
    String,
>)
    ensures
        packet_type == PacketType::Arp ==> arp_packet_result(*sender_context, r),
        packet_type == PacketType::Ndp ==> (r matches Err(e) && e@
            == "Ndp packet creation not possible as of now"@),
        packet_type == PacketType::Icmpv6 ==> echo_packet_result(*sender_context, r),
{
    match packet_type {
        PacketType::Arp => create_arp_packet(sender_context),
        PacketType::Ndp => create_ndp_packet(sender_context),
        PacketType::Icmpv6 => create_icmpv6_packet(sender_context),
    }
}

/// What `create_arp_packet` gives for a context.
pub open spec fn arp_packet_result(ctx: SenderContext, r: Result<Vec<u8>, String>) -> bool {
    match (ctx.ipv4_net, ctx.dst_addr_v4) {
        (None, _) => r matches Err(e) && e@ == "Missing source IPv4 network for ARP packet"@,
        (Some(_), None) => r matches Err(e) && e@
            == "Missing destination IPv4 address for ARP packet"@,
        (Some(net), Some(dst)) => r matches Ok(v) && v@ == arp_request_frame(
            ctx.src_mac,
            MacAddr(0xff, 0xff, 0xff, 0xff, 0xff, 0xff),
            net.spec_ip(),
            dst,
        ),
    }
}

/// What `create_icmpv6_packet` gives for a context.
pub open spec fn echo_packet_result(ctx: SenderContext, r: Result<Vec<u8>, String>) -> bool {
    match ctx.link_local {
        None => r matches Err(e) && e@
            == "Failed to create ICMPv6 packets: No link local address in context"@,
        Some(ll) => r matches Ok(v) && is_echo_request_from(v@, ctx.src_mac, ll),
    }
}

/// The ARP request for the context's one destination, from the address of
/// its source network.
pub fn create_arp_packet(sender_context: &SenderContext) -> (r: Result<Vec<u8>, String>)
    ensures
        arp_packet_result(*sender_context, r),
{
    let ipv4_net = match sender_context.ipv4_net {
        Some(n) => n,
        None => {
            return Err(String::from_str("Missing source IPv4 network for ARP packet"));
        },
    };
    let dst_addr = match sender_context.dst_addr_v4 {
        Some(d) => d,
        None => {
            return Err(String::from_str("Missing destination IPv4 address for ARP packet"));
        },
    };
    let src_mac = sender_context.src_mac;
    let dst_mac = MacAddr::broadcast();
    let src_addr = ipv4_net.ip();
    arp::create_packet(src_mac, dst_mac, src_addr, dst_addr)
}

/// The ARP requests of the context's sweep.
pub fn create_arp_packets(sender_context: &SenderContext) -> (r: Result<Vec<Vec<u8>>, String>)
    ensures
        sender_context.ipv4_net is None ==> (r matches Err(e) && e@
            == "Failed to create ARP packets: No source IPv4 network in context"@),
        sender_context.ipv4_net matches Some(net) ==> (r matches Ok(v) && v@.len() == arp_sweep(
            *sender_context,
            net,
        ).len() && forall|i: int|
            0 <= i < v@.len() ==> (#[trigger] v@[i])@ == arp_sweep(*sender_context, net)[i]),
{
    let src_mac = sender_context.src_mac;
    let dst_mac = MacAddr::broadcast();
    let src_net = match sender_context.ipv4_net {
        Some(n) => n,
        None => {
            return Err(
                String::from_str("Failed to create ARP packets: No source IPv4 network in context"),
            );
        },
    };
    let src_addr = src_net.ip();
    let target_range: Ipv4Range = match sender_context.ipv4_range {
        Some(explicit_range) => explicit_range,
        None => {
            let p = src_net.prefix();
            range::cidr_range(src_addr, p)
        },
    };
    let ghost sweep = arp_sweep(*sender_context, src_net);
    let targets = range::ip_iter(&target_range).collect();
    let mut packets: Vec<Vec<u8>> = Vec::new();
    let mut i: usize = 0;
    while i < targets.len()
        invariant
            i <= targets@.len(),
            targets@.len() == sweep.len(),
            forall|j: int|
                0 <= j < targets@.len() ==> arp_request_frame(
                    src_mac,
                    dst_mac,
                    src_addr,
                    #[trigger] targets@[j],
                ) == sweep[j],
            packets@.len() == i,
            forall|j: int| 0 <= j < i ==> (#[trigger] packets@[j])@ == sweep[j],
        decreases targets@.len() - i,
    {
        let p = match arp::create_packet(src_mac, dst_mac, src_addr, targets[i]) {
            Ok(p) => p,
            Err(e) => {
                return Err(e);
            },
        };
        packets.push(p);
        i = i + 1;
    }
    Ok(packets)
}

/// The all-nodes echo request from the context's link-local address.
pub fn create_icmpv6_packet(sender_context: &SenderContext) -> (r: Result<Vec<u8>, String>)
    ensures
        echo_packet_result(*sender_context, r),
{
    match sender_context.link_local {
        Some(link_local) => {
            let src_mac = sender_context.src_mac;
            icmp::create_all_nodes_echo_request_v6(src_mac, link_local)
        },
        None => Err(
            String::from_str("Failed to create ICMPv6 packets: No link local address in context"),
        ),
    }
}

/// Neighbour discovery packets cannot be built yet.
pub fn create_ndp_packet(_sender_context: &SenderContext) -> (r: Result<Vec<u8>, String>)
    ensures
        r matches Err(e) && e@ == "Ndp packet creation not possible as of now"@,
{
    Err(String::from_str("Ndp packet creation not possible as of now"))
}

/// Every discovery packet the context allows: the ARP sweep of its IPv4
/// network, then the all-nodes echo request from its link-local address.
/// A context that allows none is refused.
pub fn create_discovery_packets(sender_context: &SenderContext) -> (r: Result<Vec<Vec<u8>>, String>)
    ensures
        arp_count(*sender_context) + echo_count(*sender_context) == 0 ==> (r matches Err(e) && e@
            == "No discovery packets could be created. Check context and logs."@),
        arp_count(*sender_context) + echo_count(*sender_context) > 0 ==> (r matches Ok(v)
            && is_discovery_batch(*sender_context, v@)),
{
    let mut packets: Vec<Vec<u8>> = Vec::new();
    if sender_context.ipv4_net.is_some() {
        match create_arp_packets(sender_context) {
            Ok(arp_packets) => {
                let mut arp_packets = arp_packets;
                packets.append(&mut arp_packets);
            },
            Err(_) => {},
        }
    }
    let ghost n_arp = packets@.len();
    match create_icmpv6_packet(sender_context) {
        Ok(echo_packet) => {
            if echo_packet.len() > 0 {
                packets.push(echo_packet);
            }
        },
        Err(_) => {},
    }
    if packets.len() == 0 {
        Err(String::from_str("No discovery packets could be created. Check context and logs."))
    } else {
        Ok(packets)
    }
}

/// What a received frame tells: the sender's hardware address and, for an
/// ARP message or an IPv6 packet that carries ICMPv6, its IP address.
pub open spec fn frame_reading(frame: Seq<u8>) -> Result<Option<(MacAddr, IpAddr)>, Seq<char>> {
    if frame.len() < 14 {
        Err("truncated or invalid Ethernet frame"@)
    } else {
        let mac = MacAddr(frame[6], frame[7], frame[8], frame[9], frame[10], frame[11]);
        let ethertype = be_value(frame.subrange(12, 14));
        if ethertype == 0x0806 {
            if payload_len(frame) < 28 {
                Err(arp_truncated_msg(payload_len(frame)))
            } else {
                Ok(Some((mac, IpAddr::V4(arp_sender_addr(frame)))))
            }
        } else if ethertype == 0x86dd {
            if payload_len(frame) < 40 {
                Err(ipv6_truncated_msg(payload_len(frame)))
            } else if frame[20] == 58 {
                Ok(Some((mac, IpAddr::V6(ipv6_source(frame)))))
            } else {
                Ok(None)
            }
        } else {
            Ok(None)
        }
    }
}

/// A result with its error message taken as text.
pub open spec fn reading_view(r: Result<Option<(MacAddr, IpAddr)>, String>) -> Result<
    Option<(MacAddr, IpAddr)>,
    Seq<char>,
> {
    match r {
        Ok(v) => Ok(v),
        Err(e) => Err(e@),
    }
}

/// Reads the sender of a received frame.
pub fn handle_frame(frame: &[u8]) -> (r: Result<Option<(MacAddr, IpAddr)>, String>)
    ensures
        reading_view(r) == frame_reading(frame@),
{
    if frame.len() < 14 {
        return Err(String::from_str("truncated or invalid Ethernet frame"));
    }
    let mac_addr = MacAddr(frame[6], frame[7], frame[8], frame[9], frame[10], frame[11]);
    let ethertype = read_be(frame, 12, 2);
    let ip: Option<IpAddr> = if ethertype == 0x0806 {
        match arp::get_ip_addr(frame) {
            Ok(a) => Some(a),
            Err(e) => {
                return Err(e);
            },
        }
    } else if ethertype == 0x86dd {
        match ip::extract_addr_if_icmpv6(frame) {
            Ok(a) => a,
            Err(e) => {
                return Err(e);
            },
        }
    } else {
        None
    };
    match ip {
        Some(ip) => Ok(Some((mac_addr, ip))),
        None => Ok(None),
    }
}

/// An ARP request built here reads back as coming from the hardware and
/// protocol addresses it was built with.
pub proof fn lemma_arp_request_reads_back(
    src_mac: MacAddr,
    dst_mac: MacAddr,
    src_addr: Ipv4Addr,
    dst_addr: Ipv4Addr,
)
    ensures
        frame_reading(arp_request_frame(src_mac, dst_mac, src_addr, dst_addr)) == Ok::<
            Option<(MacAddr, IpAddr)>,
            Seq<char>,
        >(Some((src_mac, IpAddr::V4(src_addr)))),
{
    let f = arp_request_frame(src_mac, dst_mac, src_addr, dst_addr);
    arp::lemma_arp_request_sender(src_mac, dst_mac, src_addr, dst_addr);
    assert(f[6] == f.subrange(6, 12)[0]);
    assert(f[7] == f.subrange(6, 12)[1]);
    assert(f[8] == f.subrange(6, 12)[2]);
    assert(f[9] == f.subrange(6, 12)[3]);
    assert(f[10] == f.subrange(6, 12)[4]);
    assert(f[11] == f.subrange(6, 12)[5]);
}

} // verus!
