use homelab_utils::cli::{cli_login, cli_scan_config, ssh_label, truncate};
use homelab_utils::model::{Device, IpAddress, SshStatus};

#[test]
fn table_cells() {
    assert_eq!(ssh_label(SshStatus::ConfirmedSsh), "yes");
    assert_eq!(ssh_label(SshStatus::PortReachable), "open");
    assert_eq!(ssh_label(SshStatus::Unreachable), "no");
    assert_eq!(ssh_label(SshStatus::Unknown), "?");
    assert_eq!(truncate("short", 24), "short");
    assert_eq!(truncate("abcdef", 4), "abc…");
    assert_eq!(truncate("ääää", 4), "ääää");
    assert_eq!(truncate("abc", 0), "…");
}

#[test]
fn cli_settings_and_login() {
    let c = cli_scan_config(true, false, 300, 32, Some("me".into()));
    assert!(!c.enable_mdns && c.enable_ssh_probe);
    assert_eq!((c.connect_timeout_ms, c.concurrency), (300, 32));
    let mut d = Device::seen_at(IpAddress::V4(10, 0, 0, 1), 1);
    assert_eq!(cli_login(None, &d), "root");
    d.ssh.suggested_users = vec!["pi".into(), "root".into()];
    assert_eq!(cli_login(None, &d), "pi");
    assert_eq!(cli_login(Some("me"), &d), "me");
}
