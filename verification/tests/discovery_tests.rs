use mappr::adapters::MacOuiRepo;
use mappr::addr::{IpAddr, Ipv4Addr, Ipv6Addr, MacAddr};
use mappr::application::{
    discovery_mode, enrich_vendors, get_targets_and_lan_intf, internal_from_engine, order_by_primary_ip,
    DiscoveryMode, HandshakeSweep,
};
use mappr::domain::host::{ExternalHost, Host, InternalHost};
use mappr::domain::range::Ipv4Range;
use mappr::domain::target::Target;
use mappr::engine::EngineHost;
use mappr::iface::{Interface, IFF_BROADCAST, IFF_LOOPBACK, IFF_UP};
use mappr::net::interface::{get_lan, get_prioritized_interfaces, select_lan};
use mappr::net::ip::{get_ipv6_type, ip_label, is_global_unicast, is_private, Ipv6AddressType};
use mappr::net::sender::SenderConfig;
use mappr::network::{IpNetwork, Ipv4Net, Ipv6Net};

fn v4(a: u8, b: u8, c: u8, d: u8) -> IpAddr {
    IpAddr::V4(Ipv4Addr::new(a, b, c, d))
}

fn iface(name: &str, ips: Vec<IpNetwork>, flags: u32) -> Interface {
    Interface {
        name: name.to_string(),
        description: String::new(),
        index: 0,
        mac: Some(MacAddr::new(2, 0, 0, 0, 0, 1)),
        ips,
        flags,
    }
}

fn lan_net() -> IpNetwork {
    IpNetwork::V4(Ipv4Net::new(Ipv4Addr::new(192, 168, 1, 20), 30).unwrap())
}

/// Drives a sweep with a stand-in prober, as the discovery loop does with
/// the network; returns the sweep's result and the addresses probed.
fn run_sweep(
    range: Ipv4Range,
    prober: &dyn Fn(IpAddr) -> Result<Option<ExternalHost>, String>,
) -> (Result<Vec<ExternalHost>, String>, Vec<IpAddr>) {
    let mut sweep = HandshakeSweep::new(&range);
    let mut probed = Vec::new();
    while let Some(ip) = sweep.next_target() {
        probed.push(ip);
        sweep.record(prober(ip));
    }
    (sweep.finish(), probed)
}

#[test]
fn handshake_range_discovery_should_collect_found_hosts() {
    let range = Ipv4Range::new(Ipv4Addr::new(10, 0, 0, 1), Ipv4Addr::new(10, 0, 0, 2));
    let mock_prober = |ip: IpAddr| {
        if ip == v4(10, 0, 0, 1) { Ok(Some(ExternalHost::from_ip(ip))) } else { Ok(None) }
    };
    let results = run_sweep(range, &mock_prober).0.unwrap();
    assert_eq!(results.len(), 1);
    assert!(results[0].ips.contains(&v4(10, 0, 0, 1)));
}

#[test]
fn handshake_range_discovery_returns_empty_vec_when_none_found() {
    let range = Ipv4Range::new(Ipv4Addr::new(10, 0, 0, 1), Ipv4Addr::new(10, 0, 0, 2));
    let results = run_sweep(range, &|_| Ok(None)).0.unwrap();
    assert!(results.is_empty());
}

#[test]
fn handshake_range_discovery_handles_empty_range() {
    let range = Ipv4Range::new(Ipv4Addr::new(10, 0, 0, 5), Ipv4Addr::new(10, 0, 0, 4));
    let (results, probed) = run_sweep(range, &|ip| panic!("Prober should not be called for an empty range, but was called for {:?}", ip));
    assert!(probed.is_empty());
    assert!(results.unwrap().is_empty());
}

#[test]
fn handshake_range_discovery_propagates_prober_error() {
    let range = Ipv4Range::new(Ipv4Addr::new(10, 0, 0, 1), Ipv4Addr::new(10, 0, 0, 2));
    let (result, probed) = run_sweep(range, &|_| Err("Network subsystem failure!".to_string()));
    assert!(result.is_err());
    assert_eq!(result.unwrap_err(), "Network subsystem failure!");
    assert_eq!(probed, vec![v4(10, 0, 0, 1)]);
}

#[test]
fn sweep_keeps_whole_hosts_and_ignores_outcomes_after_a_failure() {
    let range = Ipv4Range::new(Ipv4Addr::new(10, 0, 0, 1), Ipv4Addr::new(10, 0, 0, 3));
    let mut sweep = HandshakeSweep::new(&range);
    let first = sweep.next_target().unwrap();
    let mut host = ExternalHost::from_ip(first);
    host.set_hostname("printer".to_string());
    sweep.record(Ok(Some(host)));
    let second = sweep.next_target().unwrap();
    sweep.record(Err(format!("probe of {:?} failed", second)));
    assert_eq!(sweep.next_target(), None);
    sweep.record(Ok(Some(ExternalHost::from_ip(v4(10, 0, 0, 3)))));
    assert_eq!(sweep.finish().unwrap_err(), format!("probe of {:?} failed", v4(10, 0, 0, 2)));
}

#[test]
fn sweep_returns_hosts_with_their_names() {
    let range = Ipv4Range::new(Ipv4Addr::new(10, 0, 0, 1), Ipv4Addr::new(10, 0, 0, 1));
    let mut sweep = HandshakeSweep::new(&range);
    let ip = sweep.next_target().unwrap();
    let mut host = ExternalHost::from_ip(ip);
    host.set_hostname("printer".to_string());
    sweep.record(Ok(Some(host)));
    let hosts = sweep.finish().unwrap();
    assert_eq!(hosts.len(), 1);
    assert_eq!(hosts[0].hostname(), "printer");
}

#[test]
fn sweep_reaches_the_top_of_the_address_space_once() {
    let top = Ipv4Addr::new(255, 255, 255, 255);
    let range = Ipv4Range::new(Ipv4Addr::new(255, 255, 255, 254), top);
    let mut sweep = HandshakeSweep::new(&range);
    assert_eq!(sweep.next_target(), Some(v4(255, 255, 255, 254)));
    assert_eq!(sweep.next_target(), Some(IpAddr::V4(top)));
    assert_eq!(sweep.next_target(), None);
}

#[test]
fn lan_target_probes_the_block_of_the_lan_interface() {
    let ifs = vec![iface("eth0", vec![lan_net()], IFF_UP | IFF_BROADCAST)];
    let (targets, intf) = get_targets_and_lan_intf(&Target::LAN, &ifs, &vec![true], &vec![false]).unwrap();
    assert_eq!(targets, vec![v4(192, 168, 1, 20), v4(192, 168, 1, 21), v4(192, 168, 1, 22), v4(192, 168, 1, 23)]);
    assert_eq!(intf.unwrap().name, "eth0");
}

#[test]
fn lan_target_without_interface_is_refused() {
    let ifs = vec![iface("lo", vec![lan_net()], IFF_UP | IFF_LOOPBACK)];
    let err = get_targets_and_lan_intf(&Target::LAN, &ifs, &vec![false], &vec![false]).unwrap_err();
    assert_eq!(err, "Failed to detect LAN interface for discovery");
}

#[test]
fn public_host_goes_without_interface() {
    let ifs = vec![iface("eth0", vec![lan_net()], IFF_UP | IFF_BROADCAST)];
    let t = Target::Host { target_addr: v4(8, 8, 8, 8) };
    let (targets, intf) = get_targets_and_lan_intf(&t, &ifs, &vec![true], &vec![false]).unwrap();
    assert_eq!(targets, vec![v4(8, 8, 8, 8)]);
    assert!(intf.is_none());
    let t = Target::Host { target_addr: v4(192, 168, 1, 1) };
    let (_, intf) = get_targets_and_lan_intf(&t, &ifs, &vec![true], &vec![false]).unwrap();
    assert!(intf.is_some());
}

#[test]
fn vpn_target_is_refused() {
    let err = get_targets_and_lan_intf(&Target::VPN, &vec![], &vec![], &vec![]).unwrap_err();
    assert_eq!(err, "Target::VPN is currently unimplemented!");
}

#[test]
fn range_target_lists_its_addresses() {
    let t = Target::Range { ipv4_range: Ipv4Range::new(Ipv4Addr::new(10, 0, 0, 1), Ipv4Addr::new(10, 0, 0, 3)) };
    let (targets, intf) = get_targets_and_lan_intf(&t, &vec![], &vec![], &vec![]).unwrap();
    assert_eq!(targets, vec![v4(10, 0, 0, 1), v4(10, 0, 0, 2), v4(10, 0, 0, 3)]);
    assert!(intf.is_none());
}

#[test]
fn discovery_needs_root_and_lan() {
    assert_eq!(discovery_mode(false, true), DiscoveryMode::Handshake);
    assert_eq!(discovery_mode(true, false), DiscoveryMode::Handshake);
    assert_eq!(discovery_mode(true, true), DiscoveryMode::Lan);
}

#[test]
fn hosts_are_ordered_by_primary_address_stably() {
    let keys = vec![Some(v4(10, 0, 0, 9)), None, Some(v4(10, 0, 0, 1)), Some(v4(10, 0, 0, 9)), None];
    assert_eq!(order_by_primary_ip(&keys), vec![1, 4, 2, 0, 3]);
}

#[test]
fn primary_ip_prefers_ipv4() {
    let six = IpAddr::V6(Ipv6Addr::new(0xfe80, 0, 0, 0, 0, 0, 0, 1));
    let mut h = InternalHost::from_mac(MacAddr::zero());
    assert_eq!(h.get_primary_ip(), None);
    h.add_ip(six);
    assert_eq!(h.get_primary_ip(), Some(six));
    h.add_ip(v4(10, 0, 0, 3));
    h.add_ip(v4(10, 0, 0, 2));
    h.add_ip(v4(10, 0, 0, 2));
    assert_eq!(h.ips, vec![v4(10, 0, 0, 2), v4(10, 0, 0, 3), six]);
    assert_eq!(h.get_primary_ip(), Some(v4(10, 0, 0, 2)));
    assert_eq!(h.hostname(), "No hostname");
}

#[test]
fn engine_host_keeps_each_address_once() {
    let mut eh = EngineHost::new(MacAddr::new(1, 2, 3, 4, 5, 6), v4(10, 0, 0, 7));
    eh.add_ip(v4(10, 0, 0, 7));
    eh.add_ip(v4(10, 0, 0, 1));
    assert_eq!(eh.ips, vec![v4(10, 0, 0, 7), v4(10, 0, 0, 1)]);
    eh.set_hostname("printer".to_string());
    let host = internal_from_engine(eh);
    assert_eq!(host.ips, vec![v4(10, 0, 0, 1), v4(10, 0, 0, 7)]);
    assert_eq!(host.hostname, "printer");
    assert!(host.vendor.is_none());
}

#[test]
fn vendor_lookup_fills_known_vendors() {
    let repo = MacOuiRepo::new().unwrap();
    let mut hosts = vec![InternalHost::from_mac(MacAddr::new(0x70, 0xb3, 0xd5, 0xe7, 0x4f, 0x81))];
    let direct = repo.get_vendor(hosts[0].mac_addr);
    enrich_vendors(&repo, &mut hosts);
    assert_eq!(hosts[0].vendor, direct);
    assert!(direct.is_some());
}

#[test]
fn sender_config_takes_the_interface_networks() {
    let ll = Ipv6Addr::new(0xfe80, 0, 0, 0, 0, 0, 0, 9);
    let ifc = iface("eth0", vec![IpNetwork::V6(Ipv6Net::new(ll, 64).unwrap()), lan_net()], IFF_UP);
    let mut cfg = SenderConfig::from_interface(&ifc);
    assert_eq!(cfg.get_local_mac(), Ok(MacAddr::new(2, 0, 0, 0, 0, 1)));
    assert_eq!(cfg.get_ipv4_net().unwrap().ip(), Ipv4Addr::new(192, 168, 1, 20));
    let range = cfg.get_ipv4_range().unwrap();
    assert_eq!(range.start_addr, Ipv4Addr::new(192, 168, 1, 20));
    assert_eq!(range.end_addr, Ipv4Addr::new(192, 168, 1, 23));
    assert_eq!(cfg.get_link_local(), Ok(ll));
    cfg.add_targets(vec![v4(10, 0, 0, 1), v4(10, 0, 0, 1), IpAddr::V6(ll)]);
    assert!(cfg.has_addr(&v4(10, 0, 0, 1)));
    assert!(cfg.has_addr(&IpAddr::V6(ll)));
    assert!(!cfg.has_addr(&v4(10, 0, 0, 2)));
    assert_eq!(cfg.get_targets_v4(), vec![Ipv4Addr::new(10, 0, 0, 1)]);
}

#[test]
fn empty_sender_config_reports_what_is_missing() {
    let cfg = SenderConfig::default();
    assert_eq!(cfg.get_local_mac(), Err("local MAC not set".to_string()));
    assert_eq!(cfg.get_ipv4_net().unwrap_err(), "No IPv4 networks available in configuration");
    assert_eq!(cfg.get_link_local(), Err("Failed to find a link local address".to_string()));
}

#[test]
fn interfaces_are_listed_by_kind() {
    let ifs = vec![
        iface("wlan0", vec![lan_net()], IFF_UP),
        iface("tun0", vec![lan_net()], IFF_UP),
        iface("lo", vec![lan_net()], IFF_UP | IFF_LOOPBACK),
        iface("eth0", vec![lan_net()], IFF_UP),
        iface("br0", vec![lan_net()], IFF_UP),
    ];
    let physical = vec![true, false, false, true, false];
    let wireless = vec![true, false, false, false, false];
    let listed = get_prioritized_interfaces(&ifs, &physical, &wireless, 10);
    let names: Vec<&str> = listed.iter().map(|i| i.name.as_str()).collect();
    assert_eq!(names, vec!["lo", "eth0", "wlan0", "tun0", "br0"]);
    let listed = get_prioritized_interfaces(&ifs, &physical, &wireless, 2);
    assert_eq!(listed.len(), 2);
}

#[test]
fn lan_pick_prefers_wired() {
    let ifs = vec![
        iface("wlan0", vec![lan_net()], IFF_UP | IFF_BROADCAST),
        iface("eth0", vec![lan_net()], IFF_UP | IFF_BROADCAST),
    ];
    assert_eq!(get_lan(&ifs, &vec![true, true], &vec![true, false]).name, "eth0");
    assert_eq!(get_lan(&ifs, &vec![true, true], &vec![true, true]).name, "wlan0");
    assert_eq!(select_lan(&ifs, &vec![true, true], &vec![true, false]).name, "eth0");
}

#[test]
fn ipv6_classes_and_labels() {
    let gua = Ipv6Addr::new(0x2001, 0xdb8, 0, 0, 0, 0, 0, 1);
    let ula = Ipv6Addr::new(0xfd00, 0, 0, 0, 0, 0, 0, 1);
    let lla = Ipv6Addr::new(0xfe80, 0, 0, 0, 0, 0, 0, 1);
    let lo = Ipv6Addr::new(0, 0, 0, 0, 0, 0, 0, 1);
    assert!(is_global_unicast(&gua));
    assert_eq!(get_ipv6_type(&gua), Ipv6AddressType::GlobalUnicast);
    assert_eq!(get_ipv6_type(&ula), Ipv6AddressType::UniqueLocal);
    assert_eq!(get_ipv6_type(&lla), Ipv6AddressType::LinkLocal);
    assert_eq!(get_ipv6_type(&lo), Ipv6AddressType::Loopback);
    assert_eq!(ip_label(&IpAddr::V6(ula)), "ULA");
    assert_eq!(ip_label(&IpAddr::V6(lo)), "IPv6");
    assert_eq!(ip_label(&v4(1, 1, 1, 1)), "IPv4");
    assert!(is_private(IpAddr::V6(lla)));
    assert!(is_private(v4(172, 16, 0, 1)));
    assert!(!is_private(v4(172, 32, 0, 1)));
}
