use homelab_utils::arp::{normalize_mac, parse_lines};
use homelab_utils::model::IpAddress;

fn mac_of(map: &[(IpAddress, String)], ip: IpAddress) -> Option<&str> {
    map.iter().find(|(a, _)| *a == ip).map(|(_, m)| m.as_str())
}

#[test]
fn parses_linux_proc_net_arp() {
    let text = "IP address       HW type     Flags       HW address            Mask     Device\n\
                192.168.1.1      0x1         0x2         a4:2b:b0:11:22:33     *        eth0\n\
                192.168.1.55     0x1         0x2         00:00:00:00:00:00     *        eth0\n";
    let map = parse_lines(text);
    assert_eq!(mac_of(&map, IpAddress::V4(192, 168, 1, 1)), Some("a4:2b:b0:11:22:33"));
    assert!(mac_of(&map, IpAddress::V4(192, 168, 1, 55)).is_none());
}

#[test]
fn parses_windows_arp_dashes() {
    let text = "Interface: 192.168.1.10 --- 0x5\n  \
                Internet Address      Physical Address      Type\n  \
                192.168.1.1           a4-2b-b0-aa-bb-cc     dynamic\n";
    let map = parse_lines(text);
    assert_eq!(mac_of(&map, IpAddress::V4(192, 168, 1, 1)), Some("a4:2b:b0:aa:bb:cc"));
}

#[test]
fn parses_macos_arp() {
    let text = "router (192.168.1.1) at a4:2b:b0:de:ad:be on en0 ifscope [ethernet]\n";
    let map = parse_lines(text);
    assert_eq!(mac_of(&map, IpAddress::V4(192, 168, 1, 1)), Some("a4:2b:b0:de:ad:be"));
}

#[test]
fn later_line_replaces_earlier_for_same_ip() {
    let text = "10.0.0.2 aa:aa:aa:aa:aa:aa\n10.0.0.3 bb:bb:bb:bb:bb:bb\n10.0.0.2 CC-CC-CC-CC-CC-CC\n";
    let map = parse_lines(text);
    assert_eq!(map.len(), 2);
    assert_eq!(mac_of(&map, IpAddress::V4(10, 0, 0, 2)), Some("cc:cc:cc:cc:cc:cc"));
    assert_eq!(mac_of(&map, IpAddress::V4(10, 0, 0, 3)), Some("bb:bb:bb:bb:bb:bb"));
}

#[test]
fn lines_without_both_parts_are_skipped() {
    let text = "10.0.0.2 incomplete\nno address aa:bb:cc:dd:ee:ff\n\n";
    assert!(parse_lines(text).is_empty());
}

#[test]
fn ipv6_neighbour_lines_are_read() {
    let text = "fe80::1 dev eth0 lladdr 11:22:33:44:55:66 REACHABLE\n";
    let map = parse_lines(text);
    assert_eq!(
        mac_of(&map, IpAddress::V6(0xfe80, 0, 0, 0, 0, 0, 0, 1)),
        Some("11:22:33:44:55:66")
    );
}

#[test]
fn normalize_mac_cases() {
    assert_eq!(normalize_mac("A4-2B-B0-AA-BB-CC").as_deref(), Some("a4:2b:b0:aa:bb:cc"));
    assert_eq!(normalize_mac("a4:2b:b0:aa:bb:cc").as_deref(), Some("a4:2b:b0:aa:bb:cc"));
    assert_eq!(normalize_mac("a4:2b:b0:aa:bb"), None);
    assert_eq!(normalize_mac("a4:2b:b0:aa:bb:c"), None);
    assert_eq!(normalize_mac("a4:2b:b0:aa:bb:cg"), None);
    assert_eq!(normalize_mac("0x1"), None);
}
