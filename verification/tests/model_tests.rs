use homelab_utils::model::{
    build_ssh_command, clean_hostname, suggest_usernames, unix_now, unix_seconds, Device,
    IpAddress, SshStatus,
};

#[test]
fn ssh_command_omits_default_port() {
    assert_eq!(build_ssh_command("10.0.0.5", "pi", 22), "ssh pi@10.0.0.5");
    assert_eq!(
        build_ssh_command("10.0.0.5", "pi", 2222),
        "ssh -p 2222 pi@10.0.0.5"
    );
}

#[test]
fn suggestions_prefer_current_user_and_dedup() {
    let s = suggest_usernames(Some("SSH-2.0-OpenSSH_9.6 Ubuntu"), Some("shivam"));
    assert_eq!(s.first().unwrap(), "shivam");
    assert!(s.contains(&"ubuntu".to_string()));
    // no duplicates
    let mut sorted = s.clone();
    sorted.sort();
    sorted.dedup();
    assert_eq!(sorted.len(), s.len());
}

#[test]
fn clean_hostname_strips_local_suffix() {
    assert_eq!(clean_hostname("rpi.local."), "rpi");
    assert_eq!(clean_hostname("host."), "host");
}

#[test]
fn display_name_prefers_custom_then_mdns() {
    let mut d = Device::seen(IpAddress::V4(192, 168, 1, 10));
    d.names.mdns_hostname = Some("nas.local.".into());
    assert_eq!(d.display_name(), "nas");
    d.custom_name = Some("Big NAS".into());
    assert_eq!(d.display_name(), "Big NAS");
}

#[test]
fn suggestions_for_raspberry_and_defaults() {
    let s = suggest_usernames(Some("Raspbian-10"), None);
    assert_eq!(
        s,
        vec!["pi", "root", "admin", "ubuntu", "debian", "core", "ec2-user"]
    );
    let s = suggest_usernames(None, Some("  root "));
    assert_eq!(s, vec!["root", "admin", "pi", "ubuntu", "debian", "core", "ec2-user"]);
    let s = suggest_usernames(None, Some("   "));
    assert_eq!(s[0], "root");
}

#[test]
fn clean_hostname_keeps_other_names() {
    assert_eq!(clean_hostname("nas.lan"), "nas.lan");
    assert_eq!(clean_hostname("box.local..."), "box");
    assert_eq!(clean_hostname("..."), "");
}

#[test]
fn ip_text_matches_std_display() {
    assert_eq!(IpAddress::V4(10, 0, 0, 255).to_text(), "10.0.0.255");
    assert_eq!(IpAddress::V6(0, 0, 0, 0, 0, 0, 0, 0).to_text(), "::");
    assert_eq!(IpAddress::V6(0, 0, 0, 0, 0, 0, 0, 1).to_text(), "::1");
    assert_eq!(
        IpAddress::V6(0xfe80, 0, 0, 0, 0x1, 0x2, 0x3, 0x4).to_text(),
        "fe80::1:2:3:4"
    );
    assert_eq!(
        IpAddress::V6(0x2001, 0xdb8, 0, 0, 1, 0, 0, 1).to_text(),
        "2001:db8::1:0:0:1"
    );
    assert_eq!(
        IpAddress::V6(0, 0, 0, 0, 0, 0xffff, 0xc0a8, 0x0101).to_text(),
        "::ffff:192.168.1.1"
    );
    assert_eq!(
        IpAddress::V6(1, 0, 1, 1, 1, 1, 1, 1).to_text(),
        "1:0:1:1:1:1:1:1"
    );
}

#[test]
fn derived_name_falls_back_to_vendor_then_ip() {
    let mut d = Device::seen(IpAddress::V4(192, 168, 1, 7));
    assert_eq!(d.display_name(), "192.168.1.7");
    d.vendor = Some("Ubiquiti".into());
    assert_eq!(d.display_name(), "Ubiquiti @ 192.168.1.7");
    d.names.netbios = Some("NAS01".into());
    assert_eq!(d.display_name(), "NAS01");
    d.names.reverse_dns = Some("nas.home.".into());
    assert_eq!(d.display_name(), "nas.home");
    d.custom_name = Some("   ".into());
    assert_eq!(d.display_name(), "nas.home");
}

#[test]
fn set_mac_adopts_identity_and_chosen_user() {
    let mut d = Device::seen(IpAddress::V4(10, 0, 0, 2));
    assert_eq!(d.id, "10.0.0.2");
    assert_eq!(d.first_seen, d.last_seen);
    d.set_mac("aa:bb:cc:dd:ee:ff".to_string());
    assert_eq!(d.id, "aa:bb:cc:dd:ee:ff");
    assert_eq!(d.chosen_user(), "root");
    d.ssh.suggested_users = vec!["pi".to_string()];
    assert_eq!(d.chosen_user(), "pi");
    d.ssh_user = Some(" ".into());
    assert_eq!(d.chosen_user(), "pi");
    d.ssh_user = Some("admin".into());
    assert_eq!(d.chosen_user(), "admin");
    d.ssh.port = Some(2200);
    assert_eq!(d.ssh_command("admin"), "ssh -p 2200 admin@10.0.0.2");
    assert_eq!(d.ssh.status, SshStatus::Unknown);
}

#[test]
fn unix_time_conversions() {
    assert_eq!(unix_seconds(None), 0);
    assert_eq!(unix_seconds(Some(1_700_000_000)), 1_700_000_000);
    assert!(unix_now() > 1_600_000_000);
}

#[test]
fn suggestions_are_trimmed_distinct_and_cover_the_defaults() {
    let s = suggest_usernames(Some("RASPBERRY Pi OS"), Some("  bob\t"));
    assert_eq!(s, vec!["bob", "pi", "root", "admin", "ubuntu", "debian", "core", "ec2-user"]);
    for (i, a) in s.iter().enumerate() {
        assert!(!a.is_empty());
        assert_eq!(a.trim(), a);
        for b in &s[i + 1..] {
            assert_ne!(a, b);
        }
    }
    let s = suggest_usernames(None, None);
    assert_eq!(s, vec!["root", "admin", "pi", "ubuntu", "debian", "core", "ec2-user"]);
}
