use mappr::addr::{IpAddr, Ipv4Addr, Ipv6Addr, MacAddr};
use mappr::net::datalink::arp::{create_packet, get_ip_addr};
use mappr::net::datalink::channel::SenderContext;
use mappr::net::datalink::ethernet::{make_header, ETHERTYPE_ARP, ETHERTYPE_IPV4, ETHERTYPE_IPV6};
use mappr::net::packets::icmp::{create_all_nodes_echo_request_v6, echo_request_frame_bytes};
use mappr::net::packets::ip::{create_ipv4_header, extract_addr_if_icmpv6, make_ipv6_header};
use mappr::net::packets::{
    create_arp_packet, create_arp_packets, create_discovery_packets, create_icmpv6_packet,
    create_ndp_packet, create_single_packet, handle_frame, PacketType,
};
use mappr::net::range::Ipv4Range;
use mappr::net::utils::{ip_addr_to_ipv4_addr, ARP_LEN, ETH_HDR_LEN, MIN_ETH_FRAME_NO_FCS};
use mappr::network::Ipv4Net;

use pnet::packet::arp::{ArpHardwareTypes, ArpOperations, ArpPacket, MutableArpPacket};
use pnet::packet::ethernet::{EtherTypes, EthernetPacket, MutableEthernetPacket};
use pnet::packet::icmpv6::{Icmpv6Packet, Icmpv6Types};
use pnet::packet::ip::IpNextHeaderProtocols;
use pnet::packet::ipv4::Ipv4Packet;
use pnet::packet::ipv6::Ipv6Packet;
use pnet::packet::Packet;

fn pnet_mac(m: MacAddr) -> pnet::util::MacAddr {
    pnet::util::MacAddr::new(m.0, m.1, m.2, m.3, m.4, m.5)
}

fn std_v4(a: Ipv4Addr) -> pnet::util::core_net::Ipv4Addr {
    pnet::util::core_net::Ipv4Addr::from(a.bits)
}

fn buf() -> Vec<u8> {
    vec![0u8; MIN_ETH_FRAME_NO_FCS]
}

fn build_mock_arp_packet(sender_ip: Ipv4Addr, payload_size: usize) -> Vec<u8> {
    let buf_len = ETH_HDR_LEN + payload_size;
    let mut buffer = vec![0u8; buf_len];
    {
        let mut eth_pkt = MutableEthernetPacket::new(&mut buffer).unwrap();
        eth_pkt.set_destination(pnet::util::MacAddr::broadcast());
        eth_pkt.set_source(pnet::util::MacAddr::new(0x01, 0x02, 0x03, 0x04, 0x05, 0x06));
        eth_pkt.set_ethertype(EtherTypes::Arp);
    }
    if payload_size >= ARP_LEN {
        let mut arp_pkt = MutableArpPacket::new(&mut buffer[ETH_HDR_LEN..ETH_HDR_LEN + ARP_LEN]).unwrap();
        arp_pkt.set_hardware_type(ArpHardwareTypes::Ethernet);
        arp_pkt.set_protocol_type(EtherTypes::Ipv4);
        arp_pkt.set_hw_addr_len(6);
        arp_pkt.set_proto_addr_len(4);
        arp_pkt.set_operation(ArpOperations::Reply);
        arp_pkt.set_sender_hw_addr(pnet::util::MacAddr::new(0x01, 0x02, 0x03, 0x04, 0x05, 0x06));
        arp_pkt.set_sender_proto_addr(std_v4(sender_ip));
        arp_pkt.set_target_hw_addr(pnet::util::MacAddr::zero());
        arp_pkt.set_target_proto_addr(pnet::util::core_net::Ipv4Addr::new(192, 168, 1, 1));
    }
    buffer
}

#[test]
fn create_arp_request_packet() {
    let src_mac = MacAddr::new(0x01, 0x02, 0x03, 0x04, 0x05, 0x06);
    let dst_mac = MacAddr::new(0xAA, 0xBB, 0xCC, 0xDD, 0xEE, 0xFF);
    let src_addr = Ipv4Addr::new(192, 168, 1, 10);
    let dst_addr = Ipv4Addr::new(192, 168, 1, 1);

    let buffer = create_packet(src_mac, dst_mac, src_addr, dst_addr).expect("Packet creation failed");

    let eth_packet = EthernetPacket::new(&buffer).expect("Failed to parse Ethernet packet");
    assert_eq!(eth_packet.get_destination(), pnet::util::MacAddr::broadcast());
    assert_eq!(eth_packet.get_source(), pnet_mac(src_mac));
    assert_eq!(eth_packet.get_ethertype(), EtherTypes::Arp);
    let arp_payload = eth_packet.payload();
    let arp_packet = ArpPacket::new(arp_payload).expect("Failed to parse ARP packet");
    assert_eq!(arp_packet.get_operation(), ArpOperations::Request);
    assert_eq!(arp_packet.get_hardware_type(), ArpHardwareTypes::Ethernet);
    assert_eq!(arp_packet.get_protocol_type(), EtherTypes::Ipv4);
    assert_eq!(arp_packet.get_hw_addr_len(), 6);
    assert_eq!(arp_packet.get_proto_addr_len(), 4);
    assert_eq!(arp_packet.get_sender_hw_addr(), pnet_mac(src_mac));
    assert_eq!(arp_packet.get_sender_proto_addr(), std_v4(src_addr));
    assert_eq!(arp_packet.get_target_hw_addr(), pnet_mac(dst_mac));
    assert_eq!(arp_packet.get_target_proto_addr(), std_v4(dst_addr));
}

#[test]
fn test_get_ip_addr_success() {
    let expected_ip = Ipv4Addr::new(192, 168, 1, 123);
    let buffer = build_mock_arp_packet(expected_ip, ARP_LEN);
    let result = get_ip_addr(&buffer);
    assert!(result.is_ok());
    assert_eq!(result.unwrap(), IpAddr::V4(expected_ip));
}

#[test]
fn test_get_ip_addr_truncated_payload() {
    let truncated_payload_size = 10;
    let buffer = build_mock_arp_packet(Ipv4Addr::new(0, 0, 0, 0), truncated_payload_size);
    assert_eq!(buffer.len() - ETH_HDR_LEN, truncated_payload_size);
    let result = get_ip_addr(&buffer);
    assert!(result.is_err());
    let err_msg = result.unwrap_err();
    assert!(err_msg.contains("truncated or invalid ARP packet"));
    assert!(err_msg.contains("(payload len 10)"));
}

#[test]
fn test_get_ip_addr_wrong_payload_type() {
    const IPV4_PAYLOAD_SIZE: usize = 20;
    let mut buffer = build_mock_arp_packet(Ipv4Addr::new(0, 0, 0, 0), IPV4_PAYLOAD_SIZE);
    {
        let mut eth_pkt = MutableEthernetPacket::new(&mut buffer).unwrap();
        eth_pkt.set_ethertype(EtherTypes::Ipv4);
    }
    assert_eq!(buffer.len() - ETH_HDR_LEN, IPV4_PAYLOAD_SIZE);
    let result = get_ip_addr(&buffer);
    assert!(result.is_err());
    let err_msg = result.unwrap_err();
    assert!(err_msg.contains("truncated or invalid ARP packet (payload len 20)"));
}

#[test]
fn ethernet_header_sets_fields() {
    let mut b = buf();
    let src = MacAddr::new(0x00, 0x11, 0x22, 0x33, 0x44, 0x55);
    let dst = MacAddr::new(0xaa, 0xbb, 0xcc, 0xdd, 0xee, 0xff);

    make_header(&mut b, src, dst, ETHERTYPE_IPV4).unwrap();

    let eth = EthernetPacket::new(&b[..ETH_HDR_LEN]).expect("parse eth");
    assert_eq!(eth.get_source(), pnet_mac(src));
    assert_eq!(eth.get_destination(), pnet_mac(dst));
    assert_eq!(eth.get_ethertype(), EtherTypes::Ipv4);
}

#[test]
fn ethernet_header_errors_when_buffer_too_small() {
    let mut tiny: Vec<u8> = vec![];
    let err = make_header(&mut tiny, MacAddr::zero(), MacAddr::zero(), ETHERTYPE_ARP).unwrap_err();
    assert!(err.contains("Ethernet"), "unexpected error: {err:?}");
}

#[test]
fn ethernet_header_leaves_the_payload_alone() {
    let mut b: Vec<u8> = (0..20u8).collect();
    make_header(&mut b, MacAddr::zero(), MacAddr::broadcast(), ETHERTYPE_IPV6).unwrap();
    assert_eq!(&b[12..14], &[0x86, 0xdd]);
    assert_eq!(&b[14..], &[14, 15, 16, 17, 18, 19]);
}

#[test]
fn handle_frame_errors_on_short_ethernet_buffer() {
    let short = [0u8; ETH_HDR_LEN - 1];
    let err = handle_frame(&short).unwrap_err();
    assert!(err.contains("Ethernet"), "unexpected error: {err:?}");
}

#[test]
fn handle_frame_errors_on_bad_arp_buffer() {
    let mut frame = vec![0u8; ETH_HDR_LEN + ARP_LEN - 1];
    make_header(&mut frame, MacAddr::zero(), MacAddr::broadcast(), ETHERTYPE_ARP).expect("eth header");
    let err = handle_frame(&frame).unwrap_err();
    assert!(err.contains("ARP"), "unexpected error: {err:?}");
}

#[test]
fn handle_frame_reads_back_an_arp_request() {
    let src_mac = MacAddr::new(0x02, 0x00, 0x00, 0xaa, 0xbb, 0xcc);
    let src_addr = Ipv4Addr::new(10, 1, 2, 3);
    let frame = create_packet(src_mac, MacAddr::zero(), src_addr, Ipv4Addr::new(10, 1, 2, 4)).unwrap();
    assert_eq!(handle_frame(&frame), Ok(Some((src_mac, IpAddr::V4(src_addr)))));
}

#[test]
fn handle_frame_ignores_other_ethertypes() {
    let mut frame = buf();
    make_header(&mut frame, MacAddr::zero(), MacAddr::broadcast(), ETHERTYPE_IPV4).unwrap();
    assert_eq!(handle_frame(&frame), Ok(None));
}

fn sample_context() -> SenderContext {
    let src_mac = MacAddr::new(0x01, 0x02, 0x03, 0x04, 0x05, 0x06);
    let src_net = Ipv4Net::new(Ipv4Addr::new(192, 168, 1, 10), 24).unwrap();
    let dst_addr = Ipv4Addr::new(192, 168, 1, 1);
    SenderContext { src_mac, ipv4_net: Some(src_net), dst_addr_v4: Some(dst_addr), ..Default::default() }
}

#[test]
fn create_arp_packet_success() {
    let context = sample_context();
    let src_mac = context.src_mac;
    let src_net = context.ipv4_net.unwrap();
    let dst_addr = context.dst_addr_v4.unwrap();

    let result = create_arp_packet(&context);
    assert!(result.is_ok());
    let packet_bytes = result.unwrap();

    let eth_packet = EthernetPacket::new(&packet_bytes).expect("Test failed: could not parse Ethernet packet");
    assert_eq!(eth_packet.get_source(), pnet_mac(src_mac));
    assert_eq!(eth_packet.get_destination(), pnet::util::MacAddr::broadcast());
    assert_eq!(eth_packet.get_ethertype(), EtherTypes::Arp);
    let arp_payload = eth_packet.payload();
    let arp_packet = ArpPacket::new(arp_payload).expect("Test failed: could not parse ARP packet");
    assert_eq!(arp_packet.get_sender_hw_addr(), pnet_mac(src_mac));
    assert_eq!(arp_packet.get_sender_proto_addr(), std_v4(src_net.ip()));
    assert_eq!(arp_packet.get_target_hw_addr(), pnet::util::MacAddr::broadcast());
    assert_eq!(arp_packet.get_target_proto_addr(), std_v4(dst_addr));
}

#[test]
fn create_arp_packet_missing_source_net() {
    let context = SenderContext { ipv4_net: None, dst_addr_v4: Some(Ipv4Addr::new(192, 168, 1, 1)), ..Default::default() };
    let result = create_arp_packet(&context);
    assert!(result.is_err());
    let err_msg = result.unwrap_err();
    assert!(err_msg.contains("Missing source IPv4 network for ARP packet"));
}

#[test]
fn create_arp_packet_missing_dest_addr() {
    let context = SenderContext {
        ipv4_net: Some(Ipv4Net::new(Ipv4Addr::new(192, 168, 1, 10), 24).unwrap()),
        dst_addr_v4: None,
        ..Default::default()
    };
    let result = create_arp_packet(&context);
    assert!(result.is_err());
    let err_msg = result.unwrap_err();
    assert!(err_msg.contains("Missing destination IPv4 address for ARP packet"));
}

#[test]
fn arp_sweep_covers_the_source_block() {
    let context = SenderContext {
        src_mac: MacAddr::new(2, 0, 0, 0, 0, 1),
        ipv4_net: Some(Ipv4Net::new(Ipv4Addr::new(10, 0, 0, 5), 30).unwrap()),
        ..Default::default()
    };
    let packets = create_arp_packets(&context).unwrap();
    assert_eq!(packets.len(), 4);
    for (i, p) in packets.iter().enumerate() {
        let eth = EthernetPacket::new(p).unwrap();
        let arp = ArpPacket::new(eth.payload()).unwrap();
        assert_eq!(arp.get_target_proto_addr(), pnet::util::core_net::Ipv4Addr::new(10, 0, 0, 4 + i as u8));
        assert_eq!(arp.get_sender_proto_addr(), pnet::util::core_net::Ipv4Addr::new(10, 0, 0, 5));
    }
}

#[test]
fn arp_sweep_follows_an_explicit_range() {
    let context = SenderContext {
        ipv4_net: Some(Ipv4Net::new(Ipv4Addr::new(10, 0, 0, 5), 24).unwrap()),
        ipv4_range: Some(Ipv4Range::from_tuple((Ipv4Addr::new(10, 0, 0, 7), Ipv4Addr::new(10, 0, 0, 8)))),
        ..Default::default()
    };
    let packets = create_arp_packets(&context).unwrap();
    assert_eq!(packets.len(), 2);
}

#[test]
fn ndp_packets_are_not_built() {
    let err = create_ndp_packet(&sample_context()).unwrap_err();
    assert_eq!(err, "Ndp packet creation not possible as of now");
    let err = create_single_packet(&sample_context(), PacketType::Ndp).unwrap_err();
    assert_eq!(err, "Ndp packet creation not possible as of now");
}

#[test]
fn icmpv6_packet_needs_a_link_local_address() {
    let err = create_icmpv6_packet(&sample_context()).unwrap_err();
    assert_eq!(err, "Failed to create ICMPv6 packets: No link local address in context");
}

fn link_local() -> Ipv6Addr {
    Ipv6Addr::new(0xfe80, 0, 0, 0, 0x0211, 0x22ff, 0xfe33, 0x4455)
}

#[test]
fn echo_request_is_well_formed() {
    let src_mac = MacAddr::new(0x00, 0x11, 0x22, 0x33, 0x44, 0x55);
    let frame = create_all_nodes_echo_request_v6(src_mac, link_local()).unwrap();
    assert_eq!(frame.len(), 62);
    let eth = EthernetPacket::new(&frame).unwrap();
    assert_eq!(eth.get_destination(), pnet::util::MacAddr::new(0x33, 0x33, 0, 0, 0, 1));
    assert_eq!(eth.get_ethertype(), EtherTypes::Ipv6);
    let ip = Ipv6Packet::new(eth.payload()).unwrap();
    assert_eq!(ip.get_version(), 6);
    assert_eq!(ip.get_hop_limit(), 1);
    assert_eq!(ip.get_payload_length(), 8);
    assert_eq!(ip.get_next_header(), IpNextHeaderProtocols::Icmpv6);
    assert_eq!(u128::from(ip.get_source()), link_local().bits);
    assert_eq!(ip.get_destination(), pnet::util::core_net::Ipv6Addr::new(0xff02, 0, 0, 0, 0, 0, 0, 1));
    let icmp = Icmpv6Packet::new(ip.payload()).unwrap();
    assert_eq!(icmp.get_icmpv6_type(), Icmpv6Types::EchoRequest);
    let expected = pnet::packet::icmpv6::checksum(&icmp, &ip.get_source(), &ip.get_destination());
    assert_eq!(icmp.get_checksum(), expected);
    assert_ne!(icmp.get_checksum(), 0);
}

#[test]
fn echo_request_flow_label_and_identifier_are_placed() {
    let frame = echo_request_frame_bytes(MacAddr::zero(), link_local(), 0xfabcde, 0x1234);
    assert_eq!(&frame[14..18], &[0x60, 0x0a, 0xbc, 0xde]);
    assert_eq!(&frame[58..60], &[0x12, 0x34]);
    assert_eq!(&frame[60..62], &[0, 0]);
}

#[test]
fn echo_request_reads_back_its_source() {
    let src_mac = MacAddr::new(0x00, 0x11, 0x22, 0x33, 0x44, 0x55);
    let frame = create_all_nodes_echo_request_v6(src_mac, link_local()).unwrap();
    assert_eq!(handle_frame(&frame), Ok(Some((src_mac, IpAddr::V6(link_local())))));
    assert_eq!(extract_addr_if_icmpv6(&frame), Ok(Some(IpAddr::V6(link_local()))));
}

#[test]
fn extract_addr_rejects_short_ipv6_packet() {
    let mut frame = vec![0u8; ETH_HDR_LEN + 39];
    make_header(&mut frame, MacAddr::zero(), MacAddr::broadcast(), ETHERTYPE_IPV6).unwrap();
    assert_eq!(extract_addr_if_icmpv6(&frame), Err("truncated or invalid IPv6 packet (payload len 39)".to_string()));
}

#[test]
fn ipv6_header_is_written_after_ethernet() {
    let mut b = vec![0u8; 54];
    let src = link_local();
    let dst = Ipv6Addr::new(0xff02, 0, 0, 0, 0, 0, 0, 1);
    make_ipv6_header(src, dst, 8, 58, &mut b).unwrap();
    let ip = Ipv6Packet::new(&b[14..]).unwrap();
    assert_eq!(ip.get_version(), 6);
    assert_eq!(ip.get_traffic_class(), 0);
    assert_eq!(ip.get_payload_length(), 8);
    assert_eq!(ip.get_hop_limit(), 1);
}

#[test]
fn ipv4_header_checksum_verifies() {
    let mut b = vec![0u8; 34];
    let src = Ipv4Addr::new(192, 168, 0, 2);
    let dst = Ipv4Addr::new(192, 168, 0, 1);
    create_ipv4_header(src, dst, 40, 6, &mut b).unwrap();
    let ip = Ipv4Packet::new(&b[14..]).unwrap();
    assert_eq!(ip.get_version(), 4);
    assert_eq!(ip.get_header_length(), 5);
    assert_eq!(ip.get_total_length(), 40);
    assert_eq!(ip.get_ttl(), 64);
    assert_eq!(ip.get_flags(), 2);
    assert_eq!(ip.get_source(), std_v4(src));
    assert_eq!(ip.get_destination(), std_v4(dst));
    assert_eq!(ip.get_checksum(), pnet::packet::ipv4::checksum(&ip));
    assert_ne!(ip.get_checksum(), 0);
}

#[test]
fn discovery_packets_hold_sweep_then_echo() {
    let context = SenderContext {
        src_mac: MacAddr::new(2, 0, 0, 0, 0, 1),
        ipv4_net: Some(Ipv4Net::new(Ipv4Addr::new(10, 0, 0, 5), 30).unwrap()),
        link_local: Some(link_local()),
        ..Default::default()
    };
    let packets = create_discovery_packets(&context).unwrap();
    assert_eq!(packets.len(), 5);
    assert_eq!(packets[4].len(), 62);
    let arp = create_single_packet(&context, PacketType::Icmpv6).unwrap();
    assert_eq!(arp.len(), 62);
}

#[test]
fn discovery_without_addresses_is_refused() {
    let err = create_discovery_packets(&SenderContext::default()).unwrap_err();
    assert_eq!(err, "No discovery packets could be created. Check context and logs.");
}

#[test]
fn only_ipv4_addresses_convert() {
    assert_eq!(ip_addr_to_ipv4_addr(IpAddr::V4(Ipv4Addr::new(1, 2, 3, 4))), Ok(Ipv4Addr::new(1, 2, 3, 4)));
    assert_eq!(ip_addr_to_ipv4_addr(IpAddr::V6(link_local())), Err("passed value is not a ipv4!".to_string()));
}

#[test]
fn pnet_ipv4_checksum_matches_the_internet_checksum() {
    let header = [
        0x45u8, 0x00, 0x00, 0x73, 0x00, 0x00, 0x40, 0x00, 0x40, 0x11, 0x00, 0x00, 0xc0, 0xa8, 0x00, 0x01, 0xc0,
        0xa8, 0x00, 0xc7,
    ];
    let packet = Ipv4Packet::new(&header).unwrap();
    assert_eq!(pnet::packet::ipv4::checksum(&packet), 0xb861);
}

#[test]
fn pnet_icmpv6_checksum_matches_the_pseudo_header_sum() {
    let message = [0x80u8, 0x00, 0xff, 0xff, 0x00, 0x00, 0x00, 0x01];
    let packet = Icmpv6Packet::new(&message).unwrap();
    let lo = pnet::util::core_net::Ipv6Addr::from(1u128);
    assert_eq!(pnet::packet::icmpv6::checksum(&packet, &lo, &lo), 0x7fba);
}
