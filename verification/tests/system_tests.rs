use mappr::adapters::{format_mac, SystemRepo};
use mappr::addr::{IpAddr, Ipv4Addr, Ipv6Addr, MacAddr};
use mappr::config::Config;
use mappr::domain::system::{firewall_status, group_services, FirewallStatus, SocketRecord};
use mappr::info::{build_socket_maps, dash_count, firewall_report, format_ports, print_firewall_status, separator_widths};

fn sock(name: &str, addr: IpAddr, port: u16, tcp: bool) -> SocketRecord {
    SocketRecord { name: name.to_string(), local_addr: addr, local_port: port, is_tcp: tcp }
}

fn v4(a: u8, b: u8, c: u8, d: u8) -> IpAddr {
    IpAddr::V4(Ipv4Addr::new(a, b, c, d))
}

#[test]
fn services_are_grouped_by_address_in_order() {
    let lo6 = IpAddr::V6(Ipv6Addr::new(0, 0, 0, 0, 0, 0, 0, 1));
    let records = vec![
        sock("sshd", v4(0, 0, 0, 0), 22, true),
        sock("cupsd", v4(127, 0, 0, 1), 631, true),
        sock("sshd", lo6, 22, true),
        sock("avahi-daemon", v4(0, 0, 0, 0), 5353, false),
        sock("cupsd", v4(127, 0, 0, 1), 632, true),
        sock("chronyd", v4(127, 0, 0, 1), 323, false),
    ];
    let (groups, longest) = group_services(&records);
    assert_eq!(longest, "avahi-daemon".len());
    let addrs: Vec<IpAddr> = groups.iter().map(|g| g.ip_addr).collect();
    assert_eq!(addrs, vec![v4(0, 0, 0, 0), v4(127, 0, 0, 1), lo6]);

    let any = &groups[0];
    assert_eq!(any.tcp_services.len(), 1);
    assert_eq!(any.tcp_services[0].name, "sshd");
    assert_eq!(any.udp_services.len(), 1);
    assert_eq!(any.udp_services[0].name, "avahi-daemon");

    let local = &groups[1];
    assert_eq!(local.tcp_services.len(), 1);
    let cups = &local.tcp_services[0];
    assert_eq!(cups.name, "cupsd");
    let mut ports: Vec<u16> = cups.local_ports.iter().copied().collect();
    ports.sort();
    assert_eq!(ports, vec![631, 632]);
    assert_eq!(local.udp_services[0].name, "chronyd");

    assert_eq!(groups[2].tcp_services.len(), 1);
    assert!(groups[2].udp_services.is_empty());
}

#[test]
fn no_sockets_no_groups() {
    let (groups, longest) = group_services(&vec![]);
    assert!(groups.is_empty());
    assert_eq!(longest, 0);
}

#[test]
fn longest_name_counts_bytes() {
    let records = vec![sock("näme", v4(10, 0, 0, 1), 80, true)];
    let (_, longest) = build_socket_maps(&records).unwrap();
    assert_eq!(longest, 5);
}

#[test]
fn same_process_on_two_protocols_gives_two_services() {
    let records = vec![sock("dnsmasq", v4(10, 0, 0, 1), 53, true), sock("dnsmasq", v4(10, 0, 0, 1), 53, false)];
    let groups = SystemRepo.get_local_services(&records).unwrap();
    assert_eq!(groups.len(), 1);
    assert_eq!(groups[0].tcp_services.len(), 1);
    assert_eq!(groups[0].udp_services.len(), 1);
}

#[test]
fn firewall_found_when_either_front_end_answers() {
    assert_eq!(firewall_status(true, false), FirewallStatus::Active);
    assert_eq!(firewall_status(false, true), FirewallStatus::Active);
    assert_eq!(firewall_status(false, false), FirewallStatus::NotDetected);
    assert_eq!(SystemRepo.get_firewall_status(true, true), Ok(FirewallStatus::Active));
}

#[test]
fn firewall_report_warns_without_front_end() {
    let (lines, warning) = firewall_report(false, false);
    assert_eq!(lines.len(), 2);
    assert_eq!(lines[0].name, "ufw");
    assert!(!lines[0].active);
    assert_eq!(lines[1].name, "firewalld");
    assert_eq!(warning.as_deref(), Some("No active firewall detected. Services may be exposed to public."));
    let (lines, warning) = firewall_report(true, false);
    assert!(lines[0].active);
    assert!(warning.is_none());
    assert_eq!(print_firewall_status(), Ok(()));
}

#[test]
fn ports_are_listed_up_to_five() {
    assert_eq!(format_ports(&vec![]), "");
    assert_eq!(format_ports(&vec![22]), "22");
    assert_eq!(format_ports(&vec![22, 80, 443]), "22, 80, 443");
    assert_eq!(format_ports(&vec![1, 2, 3, 4, 5, 6, 7]), "1, 2, 3, 4, 5, ...");
    assert_eq!(dash_count(16, 4), 7);
}

#[test]
fn section_rules_centre_the_title() {
    assert_eq!(separator_widths("local system"), (22, 22));
    assert_eq!(separator_widths("abc"), (26, 27));
    let long = "x".repeat(70);
    assert_eq!(separator_widths(&long), (0, 0));
}

#[test]
fn mac_is_written_in_lower_case_hex() {
    assert_eq!(format_mac(MacAddr::new(0x00, 0x1A, 0x2b, 0xff, 0x0c, 0x9)), "00:1a:2b:ff:0c:09");
}

#[test]
fn default_config_is_all_off() {
    let c = Config::default();
    assert!(!c.no_banner && !c.no_dns && !c.redact && !c.disable_input);
    assert_eq!(c.quiet, 0);
}
