use mappr::addr::{IpAddr, Ipv4Addr, Ipv6Addr, MacAddr};
use mappr::application::{lan_context, record_frame};
use mappr::domain::host::{ExternalHost, Host, InternalHost};
use mappr::engine::EngineHost;
use mappr::iface::{Interface, IFF_BROADCAST, IFF_UP};
use mappr::net::datalink::arp::create_packet;
use mappr::net::packets::icmp::echo_request_frame_bytes;
use mappr::net::sender::SenderConfig;
use mappr::network::{IpNetwork, Ipv4Net, Ipv6Net};

fn lan_iface() -> Interface {
    Interface {
        name: "eth0".to_string(),
        description: String::new(),
        index: 0,
        mac: Some(MacAddr::new(2, 0, 0, 0, 0, 1)),
        ips: vec![
            IpNetwork::V4(Ipv4Net::new(Ipv4Addr::new(192, 168, 1, 10), 24).unwrap()),
            IpNetwork::V6(Ipv6Net::new(Ipv6Addr::new(0xfe80, 0, 0, 0, 0, 0, 0, 1), 64).unwrap()),
        ],
        flags: IFF_UP | IFF_BROADCAST,
    }
}

fn arp_from(mac: MacAddr, ip: Ipv4Addr) -> Vec<u8> {
    create_packet(mac, MacAddr::broadcast(), ip, Ipv4Addr::new(192, 168, 1, 10)).unwrap()
}

#[test]
fn record_frame_merges_answers_by_hardware_address() {
    let mut cfg = SenderConfig::from_interface(&lan_iface());
    let a = IpAddr::V4(Ipv4Addr::new(192, 168, 1, 20));
    let b = IpAddr::V4(Ipv4Addr::new(192, 168, 1, 21));
    cfg.add_target(a);
    cfg.add_target(b);
    let mac1 = MacAddr::new(0xaa, 0, 0, 0, 0, 1);
    let mac2 = MacAddr::new(0xaa, 0, 0, 0, 0, 2);
    let mut hosts: Vec<EngineHost> = Vec::new();
    record_frame(&mut hosts, &cfg, &arp_from(mac1, Ipv4Addr::new(192, 168, 1, 20)));
    record_frame(&mut hosts, &cfg, &arp_from(mac2, Ipv4Addr::new(192, 168, 1, 21)));
    record_frame(&mut hosts, &cfg, &arp_from(mac1, Ipv4Addr::new(192, 168, 1, 20)));
    let six = Ipv6Addr::new(0xfe80, 0, 0, 0, 0, 0, 0, 0x99);
    record_frame(&mut hosts, &cfg, &echo_request_frame_bytes(mac1, six, 0, 7));
    assert_eq!(hosts.len(), 2);
    assert_eq!(hosts[0].mac, mac1);
    assert_eq!(hosts[0].ips, vec![a, IpAddr::V6(six)]);
    assert_eq!(hosts[1].mac, mac2);
    assert_eq!(hosts[1].ips, vec![b]);
}

#[test]
fn record_frame_ignores_other_senders_and_bad_frames() {
    let mut cfg = SenderConfig::from_interface(&lan_iface());
    cfg.add_target(IpAddr::V4(Ipv4Addr::new(192, 168, 1, 20)));
    let mut hosts: Vec<EngineHost> = Vec::new();
    record_frame(&mut hosts, &cfg, &arp_from(MacAddr::new(0xaa, 0, 0, 0, 0, 3), Ipv4Addr::new(192, 168, 1, 99)));
    record_frame(&mut hosts, &cfg, &[0u8; 10]);
    assert!(hosts.is_empty());
}

#[test]
fn lan_context_sweeps_from_least_to_greatest_target() {
    let mut cfg = SenderConfig::from_interface(&lan_iface());
    cfg.add_target(IpAddr::V4(Ipv4Addr::new(192, 168, 1, 40)));
    cfg.add_target(IpAddr::V4(Ipv4Addr::new(192, 168, 1, 5)));
    cfg.add_target(IpAddr::V4(Ipv4Addr::new(192, 168, 1, 17)));
    let ctx = lan_context(&cfg).unwrap();
    assert_eq!(ctx.src_mac, MacAddr::new(2, 0, 0, 0, 0, 1));
    assert_eq!(ctx.ipv4_net, Some(Ipv4Net::new(Ipv4Addr::new(192, 168, 1, 10), 24).unwrap()));
    let range = ctx.ipv4_range.unwrap();
    assert_eq!(range.start_addr, Ipv4Addr::new(192, 168, 1, 5));
    assert_eq!(range.end_addr, Ipv4Addr::new(192, 168, 1, 40));
    assert_eq!(ctx.link_local, Some(Ipv6Addr::new(0xfe80, 0, 0, 0, 0, 0, 0, 1)));
    assert_eq!(ctx.dst_addr_v4, None);
}

#[test]
fn lan_context_needs_a_hardware_address() {
    let mut intf = lan_iface();
    intf.mac = None;
    let cfg = SenderConfig::from_interface(&intf);
    assert_eq!(lan_context(&cfg).unwrap_err(), "local MAC not set");
}

#[test]
fn primary_ip_is_the_least_address_whatever_the_list_order() {
    let mut h = InternalHost::from_mac(MacAddr::zero());
    let six = IpAddr::V6(Ipv6Addr::new(0x2001, 0xdb8, 0, 0, 0, 0, 0, 1));
    h.ips = vec![six, IpAddr::V4(Ipv4Addr::new(10, 0, 0, 9)), IpAddr::V4(Ipv4Addr::new(10, 0, 0, 1))];
    assert_eq!(h.get_primary_ip(), Some(IpAddr::V4(Ipv4Addr::new(10, 0, 0, 1))));
    let mut e = ExternalHost::from_ip(six);
    e.ips.push(IpAddr::V6(Ipv6Addr::new(0x2001, 0xdb8, 0, 0, 0, 0, 0, 0)));
    assert_eq!(e.get_primary_ip(), Some(IpAddr::V6(Ipv6Addr::new(0x2001, 0xdb8, 0, 0, 0, 0, 0, 0))));
}
