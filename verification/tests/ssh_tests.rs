use homelab_utils::model::SshStatus;
use homelab_utils::ssh::parse_banner;

#[test]
fn confirms_ssh_and_extracts_os_hint() {
    let r = parse_banner(b"SSH-2.0-OpenSSH_9.6p1 Ubuntu-3ubuntu0.1\r\n");
    assert_eq!(r.status, SshStatus::ConfirmedSsh);
    assert_eq!(
        r.banner.as_deref(),
        Some("SSH-2.0-OpenSSH_9.6p1 Ubuntu-3ubuntu0.1")
    );
    assert_eq!(r.os_hint.as_deref(), Some("Ubuntu-3ubuntu0.1"));
}

#[test]
fn non_ssh_banner_is_only_port_reachable() {
    let r = parse_banner(b"220 smtp.example.com ESMTP\r\n");
    assert_eq!(r.status, SshStatus::PortReachable);
    assert!(r.banner.is_none());
}

#[test]
fn ssh_without_comment_has_no_os_hint() {
    let r = parse_banner(b"SSH-2.0-OpenSSH_9.6p1\r\n");
    assert_eq!(r.status, SshStatus::ConfirmedSsh);
    assert!(r.os_hint.is_none());
}

#[test]
fn empty_and_invalid_utf8_banners() {
    let r = parse_banner(b"");
    assert_eq!(r.status, SshStatus::PortReachable);
    let r = parse_banner(b"SSH-2.0-X \xff\xfe\r\n");
    assert_eq!(r.status, SshStatus::ConfirmedSsh);
    assert_eq!(r.os_hint.as_deref(), Some("\u{fffd}\u{fffd}"));
}
