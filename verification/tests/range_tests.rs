use mappr::addr::{IpAddr, Ipv4Addr};
use mappr::domain::range::{cidr_range, Ipv4Range};
use mappr::net::range::IpRange;

#[test]
fn test_ipv4range_new() {
    let start = Ipv4Addr::new(192, 168, 0, 1);
    let end = Ipv4Addr::new(192, 168, 0, 255);
    let range = Ipv4Range::new(start, end);
    assert_eq!(range.start_addr, start);
    assert_eq!(range.end_addr, end);
}

#[test]
fn test_ipv4range_iter() {
    let start = Ipv4Addr::new(10, 0, 0, 1);
    let end = Ipv4Addr::new(10, 0, 0, 3);
    let range = Ipv4Range::new(start, end);

    let mut iter = range.iter();
    assert_eq!(iter.next(), Some(Ipv4Addr::new(10, 0, 0, 1)));
    assert_eq!(iter.next(), Some(Ipv4Addr::new(10, 0, 0, 2)));
    assert_eq!(iter.next(), Some(Ipv4Addr::new(10, 0, 0, 3)));
    assert_eq!(iter.next(), None);
}

#[test]
fn test_ipv4range_iter_count() {
    let start = Ipv4Addr::new(10, 0, 0, 1);
    let end = Ipv4Addr::new(10, 0, 0, 255);
    let range = Ipv4Range::new(start, end);
    assert_eq!(range.iter().count(), 255);
}

#[test]
fn test_ipv4range_iter_empty() {
    let start = Ipv4Addr::new(10, 0, 0, 5);
    let end = Ipv4Addr::new(10, 0, 0, 1);
    let range = Ipv4Range::new(start, end);
    assert_eq!(range.iter().count(), 0);
    assert_eq!(range.iter().next(), None);
}

#[test]
fn test_ipv4range_iter_single() {
    let start = Ipv4Addr::new(10, 0, 0, 1);
    let end = Ipv4Addr::new(10, 0, 0, 1);
    let range = Ipv4Range::new(start, end);
    assert_eq!(range.iter().count(), 1);
    assert_eq!(range.iter().next(), Some(start));
}

#[test]
fn test_ipv4range_iter_double_ended() {
    let start = Ipv4Addr::new(10, 0, 0, 1);
    let end = Ipv4Addr::new(10, 0, 0, 3);
    let range = Ipv4Range::new(start, end);

    let mut iter = range.iter();
    assert_eq!(iter.next_back(), Some(Ipv4Addr::new(10, 0, 0, 3)));
    assert_eq!(iter.next(), Some(Ipv4Addr::new(10, 0, 0, 1)));
    assert_eq!(iter.next_back(), Some(Ipv4Addr::new(10, 0, 0, 2)));
    assert_eq!(iter.next(), None);
    assert_eq!(iter.next_back(), None);
}

#[test]
fn test_cidr_range() {
    let ip = Ipv4Addr::new(192, 168, 1, 100);
    let prefix = 24;
    let range = cidr_range(ip, prefix).unwrap();

    let expected_start = Ipv4Addr::new(192, 168, 1, 0);
    let expected_end = Ipv4Addr::new(192, 168, 1, 255);

    assert_eq!(range.start_addr, expected_start);
    assert_eq!(range.end_addr, expected_end);
    assert_eq!(range, Ipv4Range::new(expected_start, expected_end));
}

#[test]
fn test_cidr_range_zero_prefix() {
    let ip = Ipv4Addr::new(10, 20, 30, 40);
    let prefix = 0;
    let range = cidr_range(ip, prefix).unwrap();

    let expected_start = Ipv4Addr::new(0, 0, 0, 0);
    let expected_end = Ipv4Addr::new(255, 255, 255, 255);

    assert_eq!(range.start_addr, expected_start);
    assert_eq!(range.end_addr, expected_end);
}

#[test]
fn test_cidr_range_32_prefix() {
    let ip = Ipv4Addr::new(172, 16, 0, 1);
    let prefix = 32;
    let range = cidr_range(ip, prefix).unwrap();

    assert_eq!(range.start_addr, ip);
    assert_eq!(range.end_addr, ip);
}

#[test]
fn test_cidr_range_invalid_prefix() {
    let ip = Ipv4Addr::new(192, 168, 1, 1);
    let prefix = 33;
    let result = cidr_range(ip, prefix);

    assert!(result.is_err());
    assert_eq!(result.unwrap_err().message(), "Invalid prefix: 33 > 32");
}

#[test]
fn range_to_iter_lists_every_address() {
    let range = Ipv4Range::new(Ipv4Addr::new(10, 0, 0, 254), Ipv4Addr::new(10, 0, 1, 1));
    let v = range.to_iter();
    assert_eq!(
        v,
        vec![
            IpAddr::V4(Ipv4Addr::new(10, 0, 0, 254)),
            IpAddr::V4(Ipv4Addr::new(10, 0, 0, 255)),
            IpAddr::V4(Ipv4Addr::new(10, 0, 1, 0)),
            IpAddr::V4(Ipv4Addr::new(10, 0, 1, 1)),
        ]
    );
}

#[test]
fn iter_forward_and_back() {
    let a = Ipv4Addr::new(192, 168, 1, 1);
    let b = Ipv4Addr::new(192, 168, 1, 3);
    let v: Vec<Ipv4Addr> = IpRange::new(a, b).collect();
    assert_eq!(
        v,
        vec![Ipv4Addr::new(192, 168, 1, 1), Ipv4Addr::new(192, 168, 1, 2), Ipv4Addr::new(192, 168, 1, 3),]
    );

    let v2: Vec<Ipv4Addr> = IpRange::new(a, b).collect_rev();
    assert_eq!(
        v2,
        vec![Ipv4Addr::new(192, 168, 1, 3), Ipv4Addr::new(192, 168, 1, 2), Ipv4Addr::new(192, 168, 1, 1),]
    );
}

#[test]
fn empty_when_start_gt_end() {
    let a = Ipv4Addr::new(10, 0, 0, 2);
    let b = Ipv4Addr::new(10, 0, 0, 1);
    assert_eq!(IpRange::new(a, b).count(), 0);
}

#[test]
fn walk_ends_at_top_of_address_space() {
    let below = Ipv4Addr::new(255, 255, 255, 254);
    let top = Ipv4Addr::new(255, 255, 255, 255);
    let mut walk = IpRange::new(below, top);
    assert_eq!(walk.size_hint(), (2, Some(2)));
    assert_eq!(walk.next(), Some(below));
    assert_eq!(walk.next(), Some(top));
    assert_eq!(walk.next(), None);
    assert_eq!(walk.next(), None);
    assert_eq!(walk.size_hint(), (0, Some(0)));
}

#[test]
fn walk_back_ends_at_bottom_of_address_space() {
    let zero = Ipv4Addr::new(0, 0, 0, 0);
    let one = Ipv4Addr::new(0, 0, 0, 1);
    let mut walk = IpRange::new(zero, one);
    assert_eq!(walk.next_back(), Some(one));
    assert_eq!(walk.next_back(), Some(zero));
    assert_eq!(walk.next_back(), None);
    assert_eq!(walk.next(), None);
}

#[test]
fn walk_meets_in_the_middle() {
    let mut walk = IpRange::new(Ipv4Addr::new(10, 0, 0, 1), Ipv4Addr::new(10, 0, 0, 3));
    assert_eq!(walk.next(), Some(Ipv4Addr::new(10, 0, 0, 1)));
    assert_eq!(walk.next_back(), Some(Ipv4Addr::new(10, 0, 0, 3)));
    assert_eq!(walk.next(), Some(Ipv4Addr::new(10, 0, 0, 2)));
    assert_eq!(walk.next_back(), None);
    assert_eq!(walk.next(), None);
}

#[test]
fn size_hint_of_whole_address_space() {
    let walk = IpRange::new(Ipv4Addr::new(0, 0, 0, 0), Ipv4Addr::new(255, 255, 255, 255));
    assert_eq!(walk.size_hint(), (4294967296, Some(4294967296)));
    assert_eq!(walk.count(), 4294967296);
}
