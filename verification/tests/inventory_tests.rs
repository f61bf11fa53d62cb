use homelab_utils::inventory::{
    build_ssh_argv, check_key_path, check_password, copy_login, current_user, desktop_scan_config,
    find_by_ip, key_credential, launch_plan, load_mac_device, lock_err, merge_inventory,
    password_credential, pick_terminal, record_port_scan, require_device, request_is_blank, resolve_terminal,
    saved_password, device_ssh_argv, ssh_terminal_command,
    LaunchPlan,
};
use homelab_utils::model::{Device, DeviceStatus, IpAddress, ServicePort};
use homelab_utils::terminals::{Platform, TerminalInfo};

fn dev(d: u8, now: i64) -> Device {
    Device::seen_at(IpAddress::V4(10, 0, 0, d), now)
}

#[test]
fn merge_keeps_user_fields_and_marks_unseen_offline() {
    let mut saved_a = dev(1, 100);
    saved_a.custom_name = Some("Router".to_string());
    saved_a.ssh_user = Some("admin".to_string());
    saved_a.services = vec![ServicePort { port: 80, ..ServicePort::default() }];
    saved_a.ports_scanned_at = Some(150);
    let saved_b = dev(2, 100);
    let scanned_a = dev(1, 500);
    let scanned_c = dev(3, 500);
    let merged = merge_inventory(vec![scanned_a, scanned_c], vec![saved_a, saved_b]);
    assert_eq!(merged.len(), 3);
    assert_eq!(merged[0].id, "10.0.0.1");
    assert_eq!(merged[0].custom_name.as_deref(), Some("Router"));
    assert_eq!(merged[0].ssh_user.as_deref(), Some("admin"));
    assert_eq!(merged[0].first_seen, 100);
    assert_eq!(merged[0].last_seen, 500);
    assert_eq!(merged[0].services.len(), 1);
    assert_eq!(merged[0].ports_scanned_at, Some(150));
    assert_eq!(merged[0].status, DeviceStatus::Online);
    assert_eq!(merged[1].id, "10.0.0.3");
    assert_eq!(merged[1].first_seen, 500);
    assert_eq!(merged[2].id, "10.0.0.2");
    assert_eq!(merged[2].status, DeviceStatus::Offline);
}

#[test]
fn fresh_services_win_over_saved_ones() {
    let mut saved = dev(1, 100);
    saved.services = vec![ServicePort { port: 80, ..ServicePort::default() }];
    let mut scanned = dev(1, 50);
    scanned.services = vec![ServicePort { port: 22, ..ServicePort::default() }];
    let merged = merge_inventory(vec![scanned], vec![saved]);
    assert_eq!(merged.len(), 1);
    assert_eq!(merged[0].services[0].port, 22);
    assert_eq!(merged[0].first_seen, 50);
}

#[test]
fn ssh_argv_shapes() {
    assert_eq!(build_ssh_argv("10.0.0.1", "pi", 22, None), vec!["ssh", "pi@10.0.0.1"]);
    assert_eq!(
        build_ssh_argv("h", "u", 2222, Some("/k/id")),
        vec!["ssh", "-i", "/k/id", "-p", "2222", "u@h"]
    );
}

#[test]
fn terminal_choice_order() {
    let detected = vec![TerminalInfo { id: "kitty".to_string(), display: "kitty".to_string() }];
    assert_eq!(pick_terminal(Some("wt".into()), Some("xterm".into()), &detected).unwrap(), "wt");
    assert_eq!(pick_terminal(Some("  ".into()), Some("xterm".into()), &detected).unwrap(), "xterm");
    assert_eq!(pick_terminal(None, Some("".into()), &detected).unwrap(), "kitty");
    assert_eq!(
        pick_terminal(None, None, &Vec::new()).unwrap_err(),
        "no terminal emulator found on this system"
    );
}

#[test]
fn credential_preconditions() {
    let d = dev(1, 1);
    assert_eq!(
        load_mac_device(Some(d), "10.0.0.1").err().unwrap(),
        "this device has no MAC address; credentials are unavailable"
    );
    assert_eq!(load_mac_device(None, "aa").err().unwrap(), "device aa not found");
    let mut m = dev(1, 1);
    m.set_mac("aa:bb:cc:dd:ee:ff".to_string());
    assert!(load_mac_device(Some(m), "aa:bb:cc:dd:ee:ff").is_ok());
    assert_eq!(require_device(None, "x").err().unwrap(), "device x not found");
    assert_eq!(check_password("").unwrap_err(), "password must not be empty");
    assert!(check_password("x").is_ok());
    assert_eq!(check_key_path("  ").unwrap_err(), "key path must not be empty");
    assert_eq!(check_key_path("  /k/id \n").unwrap(), "/k/id");
}

#[test]
fn reading_back_saved_credentials() {
    let pw = password_credential("m".into(), vec![1, 2], vec![3; 24], 7);
    assert_eq!(saved_password(Some(pw.clone())).unwrap(), (vec![1, 2], vec![3; 24]));
    match launch_plan(Some(pw)).unwrap() {
        LaunchPlan::Password(c, n) => assert_eq!((c, n), (vec![1, 2], vec![3; 24])),
        _ => panic!("password auth copies the password first"),
    }
    let key = key_credential("m".into(), "/k/id".into(), 7);
    assert_eq!(saved_password(Some(key.clone())).unwrap_err(), "this device has no saved password");
    match launch_plan(Some(key)).unwrap() {
        LaunchPlan::KeyFile(p) => assert_eq!(p, "/k/id"),
        _ => panic!("key auth launches with the key"),
    }
    assert_eq!(saved_password(None).unwrap_err(), "no saved password for this device");
    assert!(matches!(launch_plan(None).unwrap(), LaunchPlan::Plain));
    let mut broken = password_credential("m".into(), vec![1], vec![2], 7);
    broken.pw_nonce = None;
    assert_eq!(saved_password(Some(broken.clone())).unwrap_err(), "saved password is incomplete");
    assert_eq!(launch_plan(Some(broken)).err().unwrap(), "saved password is incomplete");
    let mut keyless = key_credential("m".into(), "/k".into(), 7);
    keyless.key_path = None;
    assert_eq!(launch_plan(Some(keyless)).err().unwrap(), "saved key has no path");
}

#[test]
fn command_helpers() {
    assert_eq!(lock_err(()), "internal error: inventory lock poisoned");
    assert_eq!(current_user(Some("bob".into()), Some("alice".into())).as_deref(), Some("bob"));
    assert_eq!(current_user(None, Some("alice".into())).as_deref(), Some("alice"));
    assert_eq!(current_user(Some("".into()), Some("alice".into())), None);
    let mut d = dev(4, 1);
    d.ssh.suggested_users = vec!["pi".to_string()];
    assert_eq!(copy_login(Some(" ".into()), &d), "pi");
    assert_eq!(copy_login(Some("me".into()), &d), "me");
    let c = desktop_scan_config(Some(false), None, Some("me".into()));
    assert!(!c.enable_mdns && c.enable_ssh_probe);
    assert_eq!(c.current_user.as_deref(), Some("me"));
    let ds = vec![dev(1, 1), dev(2, 1)];
    assert_eq!(find_by_ip(&ds, "10.0.0.2"), Some(1));
    assert_eq!(find_by_ip(&ds, "10.0.0.9"), None);
    let mut d = dev(5, 1);
    record_port_scan(&mut d, vec![ServicePort { port: 22, ..ServicePort::default() }], 99);
    assert_eq!(d.ports_scanned_at, Some(99));
    assert_eq!(d.services[0].port, 22);
}

#[test]
fn resolve_terminal_on_macos_falls_back_to_terminal() {
    assert_eq!(resolve_terminal(None, None, Platform::MacOs, &Vec::new()).unwrap(), "macos-terminal");
    assert_eq!(
        resolve_terminal(Some("  ".to_string()), Some("".to_string()), Platform::MacOs, &Vec::new())
            .unwrap(),
        "macos-terminal"
    );
    assert_eq!(
        resolve_terminal(Some("kitty".to_string()), None, Platform::MacOs, &Vec::new()).unwrap(),
        "kitty"
    );
    assert_eq!(
        resolve_terminal(None, Some("wt".to_string()), Platform::Linux, &Vec::new()).unwrap(),
        "wt"
    );
}

#[test]
fn ssh_argv_and_command_for_a_device() {
    let mut d = dev(7, 1);
    d.ssh_user = Some("pi".to_string());
    assert_eq!(device_ssh_argv(&d, None), build_ssh_argv("10.0.0.7", "pi", 22, None));
    d.ssh.port = Some(2222);
    assert_eq!(
        device_ssh_argv(&d, Some("/k/id")),
        build_ssh_argv("10.0.0.7", "pi", 2222, Some("/k/id"))
    );
    let cmd = ssh_terminal_command(Platform::MacOs, "macos-terminal", &d, None, &Vec::new()).unwrap();
    assert_eq!(cmd.program, "osascript");
    assert!(cmd.args[1].contains("pi@10.0.0.7"));
    assert_eq!(
        ssh_terminal_command(Platform::Linux, "nope", &d, None, &Vec::new()).unwrap_err(),
        "unknown terminal 'nope'"
    );
}

#[test]
fn blank_requests_leave_the_choice_open() {
    assert!(request_is_blank(&None));
    assert!(request_is_blank(&Some(" \t".to_string())));
    assert!(!request_is_blank(&Some("kitty".to_string())));
}

#[test]
fn merge_keeps_every_identity_and_marks_unseen_offline() {
    let mut saved_a = dev(1, 100);
    saved_a.custom_name = Some("NAS".to_string());
    let saved_b = dev(2, 100);
    let scanned_a = dev(1, 50);
    let scanned_c = dev(3, 500);
    let merged = merge_inventory(vec![scanned_a, scanned_c], vec![saved_a, saved_b]);
    let mut ids: Vec<&str> = merged.iter().map(|d| d.id.as_str()).collect();
    ids.sort();
    assert_eq!(ids, vec!["10.0.0.1", "10.0.0.2", "10.0.0.3"]);
    let b = merged.iter().find(|d| d.id == "10.0.0.2").unwrap();
    assert_eq!(b.status, DeviceStatus::Offline);
    let a = merged.iter().find(|d| d.id == "10.0.0.1").unwrap();
    assert_eq!(a.custom_name.as_deref(), Some("NAS"));
    assert_eq!(a.first_seen, 50);
}
