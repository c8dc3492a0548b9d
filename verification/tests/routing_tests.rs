use mappr::addr::{IpAddr, Ipv4Addr, MacAddr};
use mappr::common::interface::{
    assign_ranges, find_local_index, get_lan_network, interfaces_with_targets, map_ips_to_interfaces,
    prioritize_interfaces, range_owner, routable_interfaces, route_singles, routing_queries, source_index,
};
use mappr::common::range::{IpCollection, Ipv4Range};
use mappr::iface::{Interface, IFF_BROADCAST, IFF_LOOPBACK, IFF_UP};
use mappr::network::{IpNetwork, Ipv4Net};

fn iface(name: &str, ips: Vec<IpNetwork>, flags: u32) -> Interface {
    Interface {
        name: name.to_string(),
        description: String::new(),
        index: 0,
        mac: Some(MacAddr(0x02, 0, 0, 0, 0, 0x01)),
        ips,
        flags,
    }
}

fn v4(a: u8, b: u8, c: u8, d: u8) -> Ipv4Addr {
    Ipv4Addr::new(a, b, c, d)
}

fn net(a: u8, b: u8, c: u8, d: u8, prefix: u8) -> IpNetwork {
    IpNetwork::V4(Ipv4Net::new(v4(a, b, c, d), prefix).unwrap())
}

fn up() -> u32 {
    IFF_UP | IFF_BROADCAST
}

fn routed(interfaces: &Vec<Interface>, collection: IpCollection, sources: &dyn Fn(IpAddr) -> Option<IpAddr>) -> Vec<(Interface, IpCollection)> {
    let lookup: Vec<(IpAddr, IpAddr)> = routing_queries(interfaces, &collection)
        .into_iter()
        .filter_map(|ip| sources(ip).map(|s| (ip, s)))
        .collect();
    map_ips_to_interfaces(interfaces.clone(), collection, &lookup)
}

#[test]
fn test_map_ips_smoke_test() {
    let ips = vec![IpAddr::V4(v4(127, 0, 0, 1)), IpAddr::V4(v4(8, 8, 8, 8))];
    let mut collection = IpCollection::new();
    for ip in ips {
        collection.add_single(ip);
    }
    let all = vec![
        iface("lo", vec![net(127, 0, 0, 1, 8)], IFF_UP | IFF_LOOPBACK),
        iface("eth0", vec![net(192, 168, 1, 100, 24)], up()),
    ];
    let interfaces = routable_interfaces(all);
    let gateway_side = IpAddr::V4(v4(192, 168, 1, 100));
    let result = routed(&interfaces, collection, &|ip| {
        if ip == IpAddr::V4(v4(8, 8, 8, 8)) { Some(gateway_side) } else { None }
    });
    for (iface, routed_ips) in &result {
        assert!(!iface.ips.is_empty());
        assert!(iface.is_up() && !iface.is_loopback());
        assert!(!routed_ips.is_empty());
    }
}

#[test]
fn routable_interfaces_drops_down_loopback_and_empty() {
    let all = vec![
        iface("lo", vec![net(127, 0, 0, 1, 8)], IFF_UP | IFF_LOOPBACK),
        iface("eth0", vec![net(192, 168, 1, 100, 24)], up()),
        iface("eth1", vec![net(10, 0, 0, 2, 8)], IFF_BROADCAST),
        iface("eth2", vec![], up()),
    ];
    let kept = routable_interfaces(all);
    assert_eq!(kept.len(), 1);
    assert_eq!(kept[0].name, "eth0");
}

#[test]
fn prioritize_interfaces_puts_wired_first_and_limits() {
    let all = vec![
        iface("wlan0", vec![net(10, 0, 0, 2, 8)], up()),
        iface("eth0", vec![net(192, 168, 1, 100, 24)], up()),
        iface("lo", vec![net(127, 0, 0, 1, 8)], IFF_UP | IFF_LOOPBACK),
        iface("usb0", vec![net(172, 16, 0, 1, 16)], up()),
        iface("docker0", vec![net(172, 17, 0, 1, 16)], up()),
    ];
    let wired = vec![false, true, false, true, false];
    let names: Vec<String> = prioritize_interfaces(all, &wired, 3).into_iter().map(|i| i.name).collect();
    assert_eq!(names, vec!["eth0".to_string(), "usb0".to_string(), "wlan0".to_string()]);
}

#[test]
fn range_owner_finds_first_fitting_interface() {
    let interfaces = vec![
        iface("eth0", vec![net(192, 168, 1, 100, 24)], up()),
        iface("eth1", vec![net(192, 168, 0, 1, 16)], up()),
    ];
    let inside = Ipv4Range::new(v4(192, 168, 1, 10), v4(192, 168, 1, 20));
    let across = Ipv4Range::new(v4(192, 168, 1, 250), v4(192, 168, 2, 5));
    let outside = Ipv4Range::new(v4(10, 0, 0, 1), v4(10, 0, 0, 3));
    assert_eq!(range_owner(&interfaces, &inside), Some(0));
    assert_eq!(range_owner(&interfaces, &across), Some(1));
    assert_eq!(range_owner(&interfaces, &outside), None);
}

#[test]
fn assign_ranges_keeps_owned_ranges_and_expands_the_rest() {
    let interfaces = vec![iface("eth0", vec![net(192, 168, 1, 100, 24)], up())];
    let mut collection = IpCollection::new();
    collection.add_range(Ipv4Range::new(v4(192, 168, 1, 10), v4(192, 168, 1, 20)));
    collection.add_range(Ipv4Range::new(v4(10, 0, 0, 1), v4(10, 0, 0, 3)));
    collection.add_single(IpAddr::V4(v4(8, 8, 8, 8)));
    let (assigned, rest) = assign_ranges(&interfaces, collection);
    assert_eq!(assigned.len(), 1);
    assert_eq!(assigned[0].ranges().len(), 1);
    assert_eq!(assigned[0].ranges()[0], Ipv4Range::new(v4(192, 168, 1, 10), v4(192, 168, 1, 20)));
    assert!(assigned[0].singles().is_empty());
    assert!(rest.ranges().is_empty());
    assert_eq!(rest.singles().len(), 4);
    for d in 1..=3u8 {
        assert!(rest.contains(&IpAddr::V4(v4(10, 0, 0, d))));
    }
    assert!(rest.contains(&IpAddr::V4(v4(8, 8, 8, 8))));
}

#[test]
fn route_singles_prefers_local_networks_then_the_route_source() {
    let interfaces = vec![
        iface("eth0", vec![net(192, 168, 1, 100, 24)], up()),
        iface("wlan0", vec![net(10, 0, 0, 2, 8)], up()),
    ];
    let assigned = vec![IpCollection::new(), IpCollection::new()];
    let singles = vec![
        IpAddr::V4(v4(10, 1, 2, 3)),
        IpAddr::V4(v4(8, 8, 8, 8)),
        IpAddr::V4(v4(1, 1, 1, 1)),
        IpAddr::V4(v4(9, 9, 9, 9)),
    ];
    let sources = vec![
        Some(IpAddr::V4(v4(192, 168, 1, 100))),
        Some(IpAddr::V4(v4(192, 168, 1, 100))),
        None,
        Some(IpAddr::V4(v4(172, 16, 0, 1))),
    ];
    let per = route_singles(&interfaces, assigned, &singles, &sources);
    assert_eq!(per.len(), 2);
    assert!(per[1].contains(&IpAddr::V4(v4(10, 1, 2, 3))));
    assert!(!per[0].contains(&IpAddr::V4(v4(10, 1, 2, 3))));
    assert!(per[0].contains(&IpAddr::V4(v4(8, 8, 8, 8))));
    assert!(!per[0].contains(&IpAddr::V4(v4(1, 1, 1, 1))));
    assert!(!per[1].contains(&IpAddr::V4(v4(1, 1, 1, 1))));
    assert!(!per[0].contains(&IpAddr::V4(v4(9, 9, 9, 9))));
    assert!(!per[1].contains(&IpAddr::V4(v4(9, 9, 9, 9))));
}

#[test]
fn source_index_takes_the_last_owner() {
    let interfaces = vec![
        iface("eth0", vec![net(192, 168, 1, 100, 24)], up()),
        iface("br0", vec![net(192, 168, 1, 100, 24)], up()),
    ];
    assert_eq!(source_index(&interfaces, IpAddr::V4(v4(192, 168, 1, 100))), Some(1));
    assert_eq!(source_index(&interfaces, IpAddr::V4(v4(192, 168, 1, 101))), None);
    assert_eq!(find_local_index(&interfaces, IpAddr::V4(v4(192, 168, 1, 101))), Some(0));
}

#[test]
fn interfaces_with_targets_leaves_out_empty_collections() {
    let interfaces = vec![
        iface("eth0", vec![net(192, 168, 1, 100, 24)], up()),
        iface("wlan0", vec![net(10, 0, 0, 2, 8)], up()),
    ];
    let mut second = IpCollection::new();
    second.add_single(IpAddr::V4(v4(10, 0, 0, 9)));
    let pairs = interfaces_with_targets(&interfaces, vec![IpCollection::new(), second]);
    assert_eq!(pairs.len(), 1);
    assert_eq!(pairs[0].0.name, "wlan0");
    assert!(pairs[0].1.contains(&IpAddr::V4(v4(10, 0, 0, 9))));
}

#[test]
fn get_lan_network_picks_the_private_network_of_the_best_interface() {
    let interfaces = vec![
        iface("wlan0", vec![net(10, 0, 0, 2, 8)], up()),
        iface("eth0", vec![net(8, 8, 4, 4, 24), net(192, 168, 1, 100, 24)], up()),
    ];
    let lan = get_lan_network(interfaces, vec![true, true], vec![false, true]);
    assert_eq!(lan, Ok(Some(Ipv4Net::new(v4(192, 168, 1, 100), 24).unwrap())));
}

#[test]
fn get_lan_network_fails_without_a_viable_interface() {
    let interfaces = vec![iface("eth0", vec![net(192, 168, 1, 100, 24)], up())];
    let lan = get_lan_network(interfaces, vec![false], vec![true]);
    assert_eq!(lan, Err("No interfaces available for LAN discovery".to_string()));
}

#[test]
fn routing_queries_list_only_what_no_network_holds() {
    let interfaces = vec![iface("eth0", vec![net(192, 168, 1, 100, 24)], up())];
    let mut collection = IpCollection::new();
    collection.add_range(Ipv4Range::new(v4(192, 168, 1, 10), v4(192, 168, 1, 20)));
    collection.add_range(Ipv4Range::new(v4(192, 168, 1, 254), v4(192, 168, 2, 1)));
    collection.add_single(IpAddr::V4(v4(192, 168, 1, 7)));
    collection.add_single(IpAddr::V4(v4(8, 8, 8, 8)));
    let queries = routing_queries(&interfaces, &collection);
    let mut sorted = queries.clone();
    sorted.sort();
    assert_eq!(sorted, vec![IpAddr::V4(v4(8, 8, 8, 8)), IpAddr::V4(v4(192, 168, 2, 0)), IpAddr::V4(v4(192, 168, 2, 1))]);
}

#[test]
fn map_ips_to_interfaces_routes_end_to_end() {
    let interfaces = vec![
        iface("eth0", vec![net(192, 168, 1, 100, 24)], up()),
        iface("wlan0", vec![net(10, 0, 0, 2, 8)], up()),
        iface("tun0", vec![net(172, 16, 0, 5, 16)], up()),
    ];
    let mut collection = IpCollection::new();
    collection.add_range(Ipv4Range::new(v4(192, 168, 1, 10), v4(192, 168, 1, 12)));
    collection.add_range(Ipv4Range::new(v4(192, 168, 1, 255), v4(192, 168, 2, 0)));
    collection.add_single(IpAddr::V4(v4(10, 9, 9, 9)));
    collection.add_single(IpAddr::V4(v4(8, 8, 8, 8)));
    collection.add_single(IpAddr::V4(v4(1, 1, 1, 1)));
    let result = routed(&interfaces, collection, &|ip| {
        if ip == IpAddr::V4(v4(8, 8, 8, 8)) || ip == IpAddr::V4(v4(192, 168, 2, 0)) {
            Some(IpAddr::V4(v4(10, 0, 0, 2)))
        } else {
            None
        }
    });
    let names: Vec<&str> = result.iter().map(|(i, _)| i.name.as_str()).collect();
    assert_eq!(names, vec!["eth0", "wlan0"]);
    let eth = &result[0].1;
    assert_eq!(eth.ranges().len(), 1);
    assert!(eth.contains(&IpAddr::V4(v4(192, 168, 1, 11))));
    assert!(eth.contains(&IpAddr::V4(v4(192, 168, 1, 255))));
    assert!(!eth.contains(&IpAddr::V4(v4(192, 168, 2, 0))));
    let wlan = &result[1].1;
    assert!(wlan.contains(&IpAddr::V4(v4(10, 9, 9, 9))));
    assert!(wlan.contains(&IpAddr::V4(v4(8, 8, 8, 8))));
    assert!(wlan.contains(&IpAddr::V4(v4(192, 168, 2, 0))));
    assert!(!wlan.contains(&IpAddr::V4(v4(1, 1, 1, 1))));
}

#[test]
fn map_ips_to_interfaces_leaves_out_interfaces_not_worth_routing() {
    let interfaces = vec![
        iface("lo", vec![net(127, 0, 0, 1, 8)], IFF_UP | IFF_LOOPBACK),
        iface("eth1", vec![net(192, 168, 1, 5, 24)], IFF_BROADCAST),
        iface("eth0", vec![net(192, 168, 1, 100, 24)], up()),
    ];
    let mut collection = IpCollection::new();
    collection.add_single(IpAddr::V4(v4(127, 0, 0, 1)));
    collection.add_single(IpAddr::V4(v4(192, 168, 1, 9)));
    let result = map_ips_to_interfaces(interfaces, collection, &vec![]);
    assert_eq!(result.len(), 1);
    assert_eq!(result[0].0.name, "eth0");
    assert!(result[0].1.contains(&IpAddr::V4(v4(192, 168, 1, 9))));
    assert!(!result[0].1.contains(&IpAddr::V4(v4(127, 0, 0, 1))));
}
