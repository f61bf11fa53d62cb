use homelab_utils::discovery::{
    accept_ptr_name, base_devices, enrich_ssh, group_open_ports, scan_candidates, sort_by_ip,
    ssh_probe_wanted, ScanConfig,
};
use homelab_utils::error::DiscoveryError;
use homelab_utils::mdns::MdnsRecord;
use homelab_utils::model::{Device, DeviceStatus, IpAddress, SshStatus};
use homelab_utils::net::Ipv4Address;
use homelab_utils::ssh::parse_banner;

fn v4(d: u8) -> IpAddress {
    IpAddress::V4(192, 168, 1, d)
}

#[test]
fn default_scan_config() {
    let c = ScanConfig::default();
    assert!(c.hosts.is_none());
    assert_eq!(c.ports, vec![22, 80, 443, 445, 8006, 32400, 3389, 5900]);
    assert_eq!(c.concurrency, 256);
    assert_eq!(c.connect_timeout_ms, 700);
    assert_eq!(c.mdns_duration_ms, 2000);
    assert!(c.enable_mdns && c.enable_ssh_probe);
    assert_eq!(c.enrich_concurrency, 64);
}

#[test]
fn explicit_hosts_win_and_missing_subnet_is_an_error() {
    let mut c = ScanConfig::default();
    c.hosts = Some(vec![Ipv4Address { a: 10, b: 0, c: 0, d: 7 }]);
    assert_eq!(c.hosts_from(None).unwrap(), vec![Ipv4Address { a: 10, b: 0, c: 0, d: 7 }]);
    assert_eq!(c.resolve_hosts().unwrap().len(), 1);
    let c = ScanConfig::default();
    assert_eq!(c.hosts_from(None).unwrap_err(), DiscoveryError::NoSubnet);
    assert_eq!(
        DiscoveryError::NoSubnet.message(),
        "could not determine the local subnet to scan"
    );
    let hosts = c.hosts_from(Some(Ipv4Address { a: 10, b: 0, c: 0, d: 7 })).unwrap();
    assert_eq!(hosts.len(), 254);
    assert_eq!(hosts[0], Ipv4Address { a: 10, b: 0, c: 0, d: 1 });
}

#[test]
fn candidates_are_open_hosts_plus_scanned_mdns_and_arp_sightings() {
    let hosts = vec![
        Ipv4Address { a: 192, b: 168, c: 1, d: 1 },
        Ipv4Address { a: 192, b: 168, c: 1, d: 2 },
        Ipv4Address { a: 192, b: 168, c: 1, d: 3 },
    ];
    let open = vec![(v4(1), vec![22u16]), (IpAddress::V4(10, 9, 9, 9), vec![80u16])];
    let mdns = vec![(v4(2), MdnsRecord::default()), (IpAddress::V4(172, 16, 0, 1), MdnsRecord::default())];
    let arp = vec![(v4(1), "aa:bb:cc:dd:ee:ff".to_string()), (v4(3), "11:22:33:44:55:66".to_string())];
    let c = scan_candidates(&hosts, &open, &mdns, &arp);
    assert_eq!(c, vec![v4(1), IpAddress::V4(10, 9, 9, 9), v4(2), v4(3)]);
}

#[test]
fn base_records_combine_sources() {
    let open = vec![(v4(1), vec![22u16, 80])];
    let arp = vec![(v4(1), "aa:bb:cc:dd:ee:ff".to_string())];
    let mut rec = MdnsRecord::default();
    rec.hostname = Some("pi.local".to_string());
    rec.services = vec!["_ssh._tcp".to_string()];
    let mdns = vec![(v4(2), rec)];
    let devices = base_devices(&vec![v4(1), v4(2)], &open, &arp, &mdns, &None);
    assert_eq!(devices.len(), 2);
    assert_eq!(devices[0].id, "aa:bb:cc:dd:ee:ff");
    assert_eq!(devices[0].open_ports, vec![22, 80]);
    assert_eq!(devices[0].status, DeviceStatus::Online);
    assert!(devices[0].vendor.is_none());
    assert_eq!(devices[1].id, "192.168.1.2");
    assert!(devices[1].open_ports.is_empty());
    assert_eq!(devices[1].names.mdns_hostname.as_deref(), Some("pi.local"));
    assert_eq!(devices[1].names.mdns_services, vec!["_ssh._tcp"]);
    assert_eq!(devices[1].display_name(), "pi");
}

#[test]
fn ssh_enrichment_with_and_without_probe() {
    let mut config = ScanConfig::default();
    config.current_user = Some("alice".to_string());
    let mut d = Device::seen_at(v4(5), 1);
    d.open_ports = vec![22];
    assert!(ssh_probe_wanted(&d, &config));
    let probe = parse_banner(b"SSH-2.0-OpenSSH_9.2p1 Raspbian-2\r\n");
    enrich_ssh(&mut d, &config, Some(probe));
    assert_eq!(d.ssh.status, SshStatus::ConfirmedSsh);
    assert_eq!(d.ssh.port, Some(22));
    assert_eq!(d.ssh.os_hint.as_deref(), Some("Raspbian-2"));
    assert_eq!(d.ssh.suggested_users[0], "alice");
    assert!(d.ssh.suggested_users.contains(&"pi".to_string()));

    let mut e = Device::seen_at(v4(6), 1);
    e.open_ports = vec![80];
    assert!(!ssh_probe_wanted(&e, &config));
    enrich_ssh(&mut e, &config, None);
    assert_eq!(e.ssh.status, SshStatus::Unknown);
    assert!(e.ssh.port.is_none());
    assert_eq!(e.ssh.suggested_users[0], "alice");
    assert!(e.ssh.suggested_users.contains(&"root".to_string()));
}

#[test]
fn ptr_names_that_echo_the_address_are_dropped() {
    assert_eq!(accept_ptr_name(&v4(1), Some("192.168.1.1".to_string())), None);
    assert_eq!(
        accept_ptr_name(&v4(1), Some("router.lan".to_string())).as_deref(),
        Some("router.lan")
    );
    assert_eq!(accept_ptr_name(&v4(1), None), None);
}

#[test]
fn devices_sorted_by_address() {
    let ds = vec![
        Device::seen_at(IpAddress::V6(0, 0, 0, 0, 0, 0, 0, 1), 1),
        Device::seen_at(v4(20), 1),
        Device::seen_at(v4(3), 1),
        Device::seen_at(IpAddress::V4(10, 0, 0, 1), 1),
    ];
    let sorted = sort_by_ip(ds);
    let ips: Vec<IpAddress> = sorted.iter().map(|d| d.ip).collect();
    assert_eq!(
        ips,
        vec![
            IpAddress::V4(10, 0, 0, 1),
            v4(3),
            v4(20),
            IpAddress::V6(0, 0, 0, 0, 0, 0, 0, 1)
        ]
    );
}

#[test]
fn sweep_hits_grouped_sorted_and_deduplicated() {
    let hits = vec![(v4(2), 443u16), (v4(1), 22), (v4(2), 22), (v4(2), 443), (v4(1), 80)];
    let g = group_open_ports(&hits);
    assert_eq!(g, vec![(v4(2), vec![22, 443]), (v4(1), vec![22, 80])]);
    assert!(group_open_ports(&Vec::new()).is_empty());
}

#[test]
fn vendor_db_from_a_parsed_registry() {
    assert!(homelab_utils::oui::VendorDb::from_loaded(None).is_none());
    if let Ok(db) = mac_oui::Oui::default() {
        let v = homelab_utils::oui::VendorDb::from_loaded(Some(db)).unwrap();
        assert!(v.lookup("zz").is_none());
    }
}

#[test]
fn distinct_addresses_sort_strictly_upward() {
    let ips = [
        IpAddress::V4(10, 0, 1, 0),
        IpAddress::V6(0, 0, 0, 0, 0, 0, 0, 2),
        IpAddress::V4(10, 0, 0, 255),
        IpAddress::V4(9, 255, 255, 255),
        IpAddress::V6(0, 0, 0, 0, 0, 0, 1, 0),
    ];
    let sorted = sort_by_ip(ips.iter().map(|ip| Device::seen_at(*ip, 1)).collect());
    let got: Vec<IpAddress> = sorted.iter().map(|d| d.ip).collect();
    assert_eq!(
        got,
        vec![
            IpAddress::V4(9, 255, 255, 255),
            IpAddress::V4(10, 0, 0, 255),
            IpAddress::V4(10, 0, 1, 0),
            IpAddress::V6(0, 0, 0, 0, 0, 0, 0, 2),
            IpAddress::V6(0, 0, 0, 0, 0, 0, 1, 0),
        ]
    );
}
