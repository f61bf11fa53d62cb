use homelab_utils::discovery::{default_hosts, subnet_of};
use homelab_utils::model::IpAddress;
use homelab_utils::net::{hosts_in_24, ip_not_after, parse_ip, parse_ipv4, Ipv4Address};

#[test]
fn hosts_in_24_spans_full_range() {
    let hosts = hosts_in_24(Ipv4Address { a: 192, b: 168, c: 1, d: 10 });
    assert_eq!(hosts.len(), 254);
    assert_eq!(hosts[0], Ipv4Address { a: 192, b: 168, c: 1, d: 1 });
    assert_eq!(hosts[253], Ipv4Address { a: 192, b: 168, c: 1, d: 254 });
}

#[test]
fn ipv4_text_as_std_reads_it() {
    assert_eq!(parse_ipv4("192.168.1.1"), Some(Ipv4Address { a: 192, b: 168, c: 1, d: 1 }));
    assert_eq!(parse_ipv4("0.0.0.0"), Some(Ipv4Address { a: 0, b: 0, c: 0, d: 0 }));
    assert_eq!(parse_ipv4("255.255.255.255"), Some(Ipv4Address { a: 255, b: 255, c: 255, d: 255 }));
    assert_eq!(parse_ipv4("256.1.1.1"), None);
    assert_eq!(parse_ipv4("01.1.1.1"), None);
    assert_eq!(parse_ipv4("1.1.1"), None);
    assert_eq!(parse_ipv4("1.1.1.1.1"), None);
    assert_eq!(parse_ipv4("1..1.1"), None);
    assert_eq!(parse_ipv4(" 1.1.1.1"), None);
}

fn v6(g: [u16; 8]) -> Option<IpAddress> {
    Some(IpAddress::V6(g[0], g[1], g[2], g[3], g[4], g[5], g[6], g[7]))
}

#[test]
fn ip_text_as_std_reads_it() {
    let cases: Vec<(&str, Option<IpAddress>)> = vec![
        ("10.0.0.1", Some(IpAddress::V4(10, 0, 0, 1))),
        ("::", v6([0, 0, 0, 0, 0, 0, 0, 0])),
        ("::1", v6([0, 0, 0, 0, 0, 0, 0, 1])),
        ("1::", v6([1, 0, 0, 0, 0, 0, 0, 0])),
        ("fe80::1", v6([0xfe80, 0, 0, 0, 0, 0, 0, 1])),
        ("2001:db8::8a2e:370:7334", v6([0x2001, 0xdb8, 0, 0, 0, 0x8a2e, 0x370, 0x7334])),
        ("1:2:3:4:5:6:7:8", v6([1, 2, 3, 4, 5, 6, 7, 8])),
        ("1:2:3:4:5:6:7:8:9", None),
        ("1:2:3:4:5:6::7", v6([1, 2, 3, 4, 5, 6, 0, 7])),
        ("::ffff:192.168.1.1", v6([0, 0, 0, 0, 0, 0xffff, 0xc0a8, 0x0101])),
        ("1:2:3:4:5:6:1.2.3.4", v6([1, 2, 3, 4, 5, 6, 0x0102, 0x0304])),
        ("1:2:3:4:5:6:7:1.2.3.4", None),
        ("::1.2.3.4", v6([0, 0, 0, 0, 0, 0, 0x0102, 0x0304])),
        ("1:2:3:4:5::1.2.3.4", v6([1, 2, 3, 4, 5, 0, 0x0102, 0x0304])),
        ("1::2::3", None),
        (":::", None),
        ("12345::", None),
        ("aa:bb:cc:dd:ee:ff", None),
        ("aa:bb:cc:dd:ee:ff:00:11", v6([0xaa, 0xbb, 0xcc, 0xdd, 0xee, 0xff, 0, 0x11])),
        ("1.2.3.4::", None),
        ("fe80::1%en0", None),
        ("ABCD::EF", v6([0xabcd, 0, 0, 0, 0, 0, 0, 0xef])),
        ("1:2:3:4:5:6:7::", v6([1, 2, 3, 4, 5, 6, 7, 0])),
        ("::2:3:4:5:6:7:8", v6([0, 2, 3, 4, 5, 6, 7, 8])),
        ("", None),
        ("1", None),
        (":", None),
        ("1.2.3.4:5", None),
        ("::1.2.3", None),
        ("::01.2.3.4", None),
    ];
    for (s, expected) in cases {
        assert_eq!(parse_ip(s), expected, "for {s:?}");
    }
}

#[test]
fn address_order_puts_v4_first_then_numeric() {
    let a = IpAddress::V4(10, 0, 0, 2);
    let b = IpAddress::V4(10, 0, 0, 10);
    let c = IpAddress::V6(0, 0, 0, 0, 0, 0, 0, 1);
    assert!(ip_not_after(&a, &b));
    assert!(!ip_not_after(&b, &a));
    assert!(ip_not_after(&b, &c));
    assert!(!ip_not_after(&c, &a));
    assert!(ip_not_after(&a, &a));
}

#[test]
fn subnet_from_local_address_text() {
    let (ip, hosts) = subnet_of(Some("10.1.2.3")).unwrap();
    assert_eq!(ip, Ipv4Address { a: 10, b: 1, c: 2, d: 3 });
    assert_eq!(hosts.len(), 254);
    assert_eq!(hosts[41], Ipv4Address { a: 10, b: 1, c: 2, d: 42 });
    assert!(subnet_of(Some("fe80::1")).is_none());
    assert!(subnet_of(None).is_none());
    // Whatever the machine's interfaces are, a found subnet is a /24 around the address.
    if let Some((ip, hosts)) = default_hosts() {
        assert_eq!(hosts.len(), 254);
        assert!(hosts.iter().all(|h| h.a == ip.a && h.b == ip.b && h.c == ip.c));
    }
}
