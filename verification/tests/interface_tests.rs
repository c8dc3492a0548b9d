use mappr::addr::{IpAddr, Ipv4Addr, Ipv6Addr, MacAddr};
use mappr::common::interface::{
    find_local_index, is_viable_lan_interface, select_best_lan_interface, ViabilityError,
};
use mappr::iface::{Interface, IFF_BROADCAST, IFF_LOOPBACK, IFF_POINTTOPOINT, IFF_UP};
use mappr::network::{IpNetwork, Ipv4Net, Ipv6Net};

fn create_mock_interface(name: &str, mac: Option<MacAddr>, ips: Vec<IpNetwork>, flags: u32) -> Interface {
    Interface {
        name: name.to_string(),
        description: "An interface".to_string(),
        index: 0,
        mac,
        ips,
        flags,
    }
}

fn default_mac() -> Option<MacAddr> {
    Some(MacAddr(0x1, 0x2, 0x3, 0x4, 0x5, 0x6))
}

fn v4_host(a: u8, b: u8, c: u8, d: u8) -> IpNetwork {
    IpNetwork::V4(Ipv4Net::new(Ipv4Addr::new(a, b, c, d), 32).unwrap())
}

fn default_ips() -> Vec<IpNetwork> {
    vec![v4_host(192, 168, 1, 100)]
}

#[test]
fn is_viable_lan_interface_should_succeed() {
    let interface = create_mock_interface("eth0", default_mac(), default_ips(), IFF_UP | IFF_BROADCAST);
    let result: Result<(), ViabilityError> = is_viable_lan_interface(&interface, true);
    assert_eq!(result, Ok(()))
}

#[test]
fn is_viable_lan_interface_should_succeed_with_ipv6_link_local() {
    let ll = Ipv6Addr::new(0xfe80, 0, 0, 0, 0x1234, 0x5678, 0xabcd, 0xef01);
    let ipv6_ips = vec![IpNetwork::V6(Ipv6Net::new(ll, 128).unwrap())];
    let interface = create_mock_interface("eth0", default_mac(), ipv6_ips, IFF_UP | IFF_BROADCAST);
    let result: Result<(), ViabilityError> = is_viable_lan_interface(&interface, true);
    assert_eq!(result, Ok(()));
}

#[test]
fn is_viable_lan_interface_should_fail_with_invalid_ipv6() {
    let doc = Ipv6Addr::new(0x2001, 0xdb8, 0, 0, 0, 0, 0, 1);
    let invalid_ipv6_ips = vec![IpNetwork::V6(Ipv6Net::new(doc, 128).unwrap())];
    let interface = create_mock_interface("eth0", default_mac(), invalid_ipv6_ips, IFF_UP | IFF_BROADCAST);
    let result: Result<(), ViabilityError> = is_viable_lan_interface(&interface, true);
    assert_eq!(result, Err(ViabilityError::NoValidLanIp));
}

#[test]
fn is_viable_lan_interface_should_fail_non_physical() {
    let interface = create_mock_interface("eth1", default_mac(), default_ips(), IFF_UP | IFF_BROADCAST);
    let result: Result<(), ViabilityError> = is_viable_lan_interface(&interface, false);
    assert_eq!(result, Err(ViabilityError::NotPhysical))
}

#[test]
fn is_viable_lan_interface_should_fail_no_mac_addr() {
    let interface = create_mock_interface("eth0", None, default_ips(), IFF_UP | IFF_BROADCAST);
    let result: Result<(), ViabilityError> = is_viable_lan_interface(&interface, true);
    assert_eq!(result, Err(ViabilityError::NoMacAddress))
}

#[test]
fn is_viable_lan_interface_should_fail_no_ips() {
    let interface = create_mock_interface("eth8", default_mac(), vec![], IFF_UP | IFF_BROADCAST);
    let result: Result<(), ViabilityError> = is_viable_lan_interface(&interface, true);
    assert_eq!(result, Err(ViabilityError::NoValidLanIp))
}

#[test]
fn is_viable_lan_interface_should_fail_when_down() {
    let interface = create_mock_interface("wlan0", default_mac(), default_ips(), IFF_BROADCAST);
    let result: Result<(), ViabilityError> = is_viable_lan_interface(&interface, true);
    assert_eq!(result, Err(ViabilityError::IsDown))
}

#[test]
fn is_viable_lan_interface_should_fail_loop_back() {
    let interface = create_mock_interface("lo", default_mac(), default_ips(), IFF_LOOPBACK | IFF_UP | IFF_BROADCAST);
    let result: Result<(), ViabilityError> = is_viable_lan_interface(&interface, true);
    assert_eq!(result, Err(ViabilityError::NotPhysical))
}

#[test]
fn is_viable_lan_interface_should_fail_not_broadcast() {
    let interface = create_mock_interface("eth0", default_mac(), default_ips(), IFF_UP);
    let result: Result<(), ViabilityError> = is_viable_lan_interface(&interface, true);
    assert_eq!(result, Err(ViabilityError::NotBroadcast));
}

#[test]
fn is_viable_lan_interface_should_fail_point_to_point() {
    let interface = create_mock_interface("tun0", default_mac(), default_ips(), IFF_BROADCAST | IFF_POINTTOPOINT | IFF_UP);
    let result: Result<(), ViabilityError> = is_viable_lan_interface(&interface, true);
    assert_eq!(result, Err(ViabilityError::IsPointToPoint))
}

#[test]
fn select_best_lan_interface_selects_first_interface() {
    let interface = create_mock_interface("wlan0", default_mac(), default_ips(), IFF_UP | IFF_BROADCAST);
    let is_wired = vec![interface.name == "eth0"];
    let result = select_best_lan_interface(vec![interface], is_wired);
    assert!(result.is_some(), "Should have selected an interface");
    assert_eq!(result.unwrap().name, "wlan0");
}

#[test]
fn select_best_lan_interface_selects_wired_over_wireless() {
    let wired_interface = create_mock_interface("eth0", default_mac(), default_ips(), IFF_UP | IFF_BROADCAST);
    let wireless_interface = create_mock_interface("wlan0", default_mac(), default_ips(), IFF_UP | IFF_BROADCAST);
    let interfaces: Vec<Interface> = vec![wireless_interface, wired_interface];
    let is_wired: Vec<bool> = interfaces.iter().map(|i| i.name == "eth0").collect();
    let result = select_best_lan_interface(interfaces, is_wired);
    assert!(result.is_some(), "Should have selected an interface");
    assert_eq!(result.unwrap().name, "eth0");
}

#[test]
fn select_best_lan_interface_returns_none() {
    let interfaces: Vec<Interface> = vec![];
    let result = select_best_lan_interface(interfaces, vec![]);
    assert!(result.is_none());
}

#[test]
fn test_find_local_index_ipv4() {
    let iface = Interface {
        name: "eth0".to_string(),
        description: "".to_string(),
        index: 1,
        mac: None,
        ips: vec![IpNetwork::V4(Ipv4Net::new(Ipv4Addr::new(192, 168, 1, 5), 24).unwrap())],
        flags: 0,
    };
    let interfaces = vec![iface];

    let target_inside = IpAddr::V4(Ipv4Addr::new(192, 168, 1, 20));
    assert_eq!(find_local_index(&interfaces, target_inside), Some(0));

    let target_outside = IpAddr::V4(Ipv4Addr::new(192, 168, 2, 20));
    assert_eq!(find_local_index(&interfaces, target_outside), None);
}

#[test]
fn test_find_local_index_ipv6() {
    let ipv6_addr = Ipv6Addr::new(0x2001, 0xdb8, 0, 0, 0, 0, 0, 1);
    let iface = Interface {
        name: "eth0".to_string(),
        description: "".to_string(),
        index: 1,
        mac: None,
        ips: vec![IpNetwork::V6(Ipv6Net::new(ipv6_addr, 64).unwrap())],
        flags: 0,
    };
    let interfaces = vec![iface];

    let target_inside = IpAddr::V6(Ipv6Addr::new(0x2001, 0xdb8, 0, 0, 0, 0, 0, 5));
    assert_eq!(find_local_index(&interfaces, target_inside), Some(0));

    let target_v4 = IpAddr::V4(Ipv4Addr::new(192, 168, 1, 1));
    assert_eq!(find_local_index(&interfaces, target_v4), None);
}
