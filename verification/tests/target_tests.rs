use std::str::FromStr;

use mappr::addr::Ipv4Addr;
use mappr::common::target::{parse_range_end_addr, Target};

fn check_parse_range_end_addr() {
    let start = Ipv4Addr::new(192, 168, 1, 10);
    let s = "192.168.1.10-255";

    // Test full IP end
    assert_eq!(parse_range_end_addr("192.168.1.50", &start, s), Ok(Ipv4Addr::new(192, 168, 1, 50)));

    // Test partial 1-octet end
    assert_eq!(parse_range_end_addr("50", &start, s), Ok(Ipv4Addr::new(192, 168, 1, 50)));

    // Test partial 2-octet end
    assert_eq!(parse_range_end_addr("2.66", &start, s), Ok(Ipv4Addr::new(192, 168, 2, 66)));

    // Test partial 3-octet end
    assert_eq!(parse_range_end_addr("10.2.1", &start, s), Ok(Ipv4Addr::new(192, 10, 2, 1)));

    // Test partial 4-octet end (same as full)
    assert_eq!(parse_range_end_addr("10.20.30.40", &start, s), Ok(Ipv4Addr::new(10, 20, 30, 40)));

    // Invalid octet
    let err_s = "192.168.1.10-2.256";
    assert!(parse_range_end_addr("2.256", &start, err_s).is_err());

    // Too many octets
    let err_s = "192.168.1.10-1.2.3.4.5";
    assert!(parse_range_end_addr("1.2.3.4.5", &start, err_s).is_err());

    // Empty octets
    let err_s = "192.168.1.10-";
    assert!(parse_range_end_addr("", &start, err_s).is_err());
}

fn check_from_str_full_parsing() {
    // Test keywords (case-insensitive)
    assert!(matches!(Target::from_str("lan"), Ok(Target::LAN)));
    assert!(matches!(Target::from_str("VPN"), Ok(Target::VPN)));

    // Test host
    assert!(matches!(Target::from_str("1.1.1.1"), Ok(Target::Host { .. })));
    assert!(matches!(Target::from_str("::1"), Ok(Target::Host { .. })));

    // Test full range
    assert!(matches!(Target::from_str("10.0.0.1-10.0.0.255"), Ok(Target::Range { .. })));

    // Test partial range
    assert!(matches!(Target::from_str("192.168.1.1-255"), Ok(Target::Range { .. })));
    assert!(matches!(Target::from_str("192.168.1.1-2.255"), Ok(Target::Range { .. })));

    // Test CIDR
    assert!(matches!(Target::from_str("10.0.0.0/24"), Ok(Target::Range { .. })));

    // Test invalid
    assert!(Target::from_str("not-an-ip").is_err());
    assert!(Target::from_str("10.0.0.1/33").is_err());
    assert!(Target::from_str("10.0.0.256-1.1.1.1").is_err());
}

#[test]
fn target_test_parse_range_end_addr_helper() {
    check_parse_range_end_addr();
}

#[test]
fn cmd_test_parse_range_end_addr_helper() {
    check_parse_range_end_addr();
}

#[test]
fn target_test_from_str_full_parsing() {
    check_from_str_full_parsing();
}

#[test]
fn cmd_test_from_str_full_parsing() {
    check_from_str_full_parsing();
}

#[test]
fn range_bounds_given_backwards_are_put_in_order() {
    match Target::from_str("10.0.0.20-10.0.0.5") {
        Ok(Target::Range { ipv4_range }) => {
            assert_eq!(ipv4_range.start_addr, Ipv4Addr::new(10, 0, 0, 5));
            assert_eq!(ipv4_range.end_addr, Ipv4Addr::new(10, 0, 0, 20));
        }
        other => panic!("unexpected parse: {:?}", other),
    }
}

#[test]
fn cidr_target_covers_its_block() {
    match Target::from_str("192.168.7.77/24") {
        Ok(Target::Range { ipv4_range }) => {
            assert_eq!(ipv4_range.start_addr, Ipv4Addr::new(192, 168, 7, 0));
            assert_eq!(ipv4_range.end_addr, Ipv4Addr::new(192, 168, 7, 255));
        }
        other => panic!("unexpected parse: {:?}", other),
    }
}

#[test]
fn invalid_target_message_names_the_text() {
    let err = Target::from_str("garbage").unwrap_err();
    assert_eq!(err, "invalid target: garbage");
    let err = Target::from_str("not-an-ip").unwrap_err();
    assert_eq!(err, "Invalid start IP in range 'not': invalid IPv4 address syntax");
}
