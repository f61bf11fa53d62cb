//! The rules behind the desktop app's commands: merging a scan into the saved inventory,
//! choosing a login and a terminal, validating and reading back credentials, and building the
//! `ssh` argv. Locks, the store, the keychain, the clipboard and process launching belong to
//! the caller.
use vstd::prelude::*;
use crate::discovery::ScanConfig;
use crate::model::{chosen_login, opt_view, views_s, Device, DeviceStatus, ServicePort};
use crate::store::{AuthMethod, StoredCredential};
use crate::terminals::{
    agrees_with_bundles, available, bundle_decides, command_for, command_view, find_in, info_views, launch,
    lemma_selected_in_registry, registry, selected, unavailable_terminal_msg, unknown_terminal_msg, Build,
    CommandSpec, Platform, TerminalInfo,
};
use crate::text::{append, decimal, decimal_v, from_chars, lit, to_chars, trim, trim_v};

verus! {

broadcast use vstd::seq_lib::group_to_multiset_ensures;

/// The message for a poisoned inventory lock.
pub open spec fn lock_poisoned_msg() -> Seq<char> {
    "internal error: inventory lock poisoned"@
}

/// The command error for a poisoned inventory lock, whatever the lock reported.
pub fn lock_err<E>(_e: E) -> (r: String)
    ensures
        r@ == lock_poisoned_msg(),
{
    "internal error: inventory lock poisoned".to_owned()
}

/// The current OS user from the `USERNAME` and `USER` environment variables: `USERNAME` when
/// set, else `USER`; none when the value picked is empty.
pub fn current_user(username: Option<String>, user: Option<String>) -> (r: Option<String>)
    ensures
        opt_view(r) == match (if username is Some {
            opt_view(username)
        } else {
            opt_view(user)
        }) {
            Some(u) => if u.len() == 0 {
                None
            } else {
                Some(u)
            },
            None => None,
        },
{
    let picked = match username {
        Some(u) => Some(u),
        None => user,
    };
    match picked {
        Some(u) => if u.as_str().is_empty() {
            None
        } else {
            Some(u)
        },
        None => None,
    }
}

// ---- the ssh argv ---------------------------------------------------------------------------

/// `ssh [-i key] [-p port] user@host`.
pub open spec fn ssh_argv_spec(host: Seq<char>, user: Seq<char>, port: u16, key: Option<Seq<char>>) -> Seq<Seq<char>> {
    let with_key = match key {
        Some(k) => seq!["ssh"@, "-i"@, k],
        None => seq!["ssh"@],
    };
    let with_port = if port != 22 {
        with_key + seq!["-p"@, decimal(port as nat)]
    } else {
        with_key
    };
    with_port.push(user + "@"@ + host)
}

/// The shape of the `ssh` argv: `ssh`, then `-i <key>` when a key is used, then `-p <port>`
/// whenever the port is not 22 (key or no key), and last `user@host`; nothing else.
pub proof fn lemma_ssh_argv_shape(host: Seq<char>, user: Seq<char>, port: u16, key: Option<Seq<char>>)
    ensures
        ({
            let a = ssh_argv_spec(host, user, port, key);
            let nk: int = if key is Some { 2 } else { 0 };
            let np: int = if port != 22 { 2 } else { 0 };
            &&& a.len() == 2 + nk + np
            &&& a[0] == "ssh"@
            &&& a[a.len() - 1] == user + "@"@ + host
            &&& key matches Some(k) ==> (a[1] == "-i"@ && a[2] == k)
            &&& port != 22 ==> (a[1 + nk] == "-p"@ && a[2 + nk] == decimal(port as nat))
        }),
{
    let a = ssh_argv_spec(host, user, port, key);
    let nk: int = if key is Some { 2 } else { 0 };
    if port != 22 {
        assert(a[1 + nk] == "-p"@);
        assert(a[2 + nk] == decimal(port as nat));
    }
}

/// Build the `ssh` argv: `ssh [-i key] [-p port] user@host`, the port only when it is not 22.
pub fn build_ssh_argv(host: &str, user: &str, port: u16, key_path: Option<&str>) -> (r: Vec<String>)
    ensures
        views_s(r@) == ssh_argv_spec(host@, user@, port, match key_path {
            Some(k) => Some(k@),
            None => None,
        }),
{
    let mut argv: Vec<String> = Vec::new();
    argv.push("ssh".to_owned());
    match key_path {
        Some(k) => {
            argv.push("-i".to_owned());
            argv.push(k.to_owned());
        },
        None => {},
    }
    if port != 22 {
        argv.push("-p".to_owned());
        argv.push(from_chars(&decimal_v(port as u64)));
    }
    let mut target = to_chars(user);
    append(&mut target, &lit("@"));
    append(&mut target, &to_chars(host));
    argv.push(from_chars(&target));
    proof {
        let key = match key_path {
            Some(k) => Some(k@),
            None => None,
        };
        let expected = ssh_argv_spec(host@, user@, port, key);
        assert(views_s(argv@) =~= expected);
    }
    argv
}

// ---- choosing ---------------------------------------------------------------------------------

/// Whether a text is blank (empty or only whitespace).
pub open spec fn blank(s: Seq<char>) -> bool {
    trim(s).len() == 0
}

fn is_blank(s: &str) -> (r: bool)
    ensures
        r == blank(s@),
{
    trim_v(&to_chars(s)).len() == 0
}

/// The login to copy a command for: the requested one unless blank, else the device's chosen
/// login.
pub fn copy_login(requested: Option<String>, device: &Device) -> (r: String)
    ensures
        r@ == match requested {
            Some(u) => if blank(u@) {
                chosen_login(*device)
            } else {
                u@
            },
            None => chosen_login(*device),
        },
{
    match requested {
        Some(u) => if is_blank(u.as_str()) {
            device.chosen_user()
        } else {
            u
        },
        None => device.chosen_user(),
    }
}

/// The message when no terminal can be offered.
pub open spec fn no_terminal_msg() -> Seq<char> {
    "no terminal emulator found on this system"@
}

/// Whether a terminal request leaves the choice open (absent or blank), so that the saved
/// default is consulted.
pub fn request_is_blank(requested: &Option<String>) -> (r: bool)
    ensures
        r == match requested {
            Some(t) => blank(t@),
            None => true,
        },
{
    match requested {
        Some(t) => is_blank(t.as_str()),
        None => true,
    }
}

/// Which terminal to launch: the explicit request unless blank, else the saved default unless
/// blank, else the first detected emulator.
pub fn pick_terminal(requested: Option<String>, saved: Option<String>, detected: &Vec<TerminalInfo>) -> (r: Result<String, String>)
    ensures
        match requested {
            Some(t) if !blank(t@) => r matches Ok(id) && id@ == t@,
            _ => match saved {
                Some(t) if !blank(t@) => r matches Ok(id) && id@ == t@,
                _ => if detected@.len() > 0 {
                    r matches Ok(id) && id@ == detected@[0].id@
                } else {
                    r matches Err(m) && m@ == no_terminal_msg()
                },
            },
        },
{
    match requested {
        Some(t) => if !is_blank(t.as_str()) {
            return Ok(t);
        },
        None => {},
    }
    match saved {
        Some(t) => if !is_blank(t.as_str()) {
            return Ok(t);
        },
        None => {},
    }
    if detected.len() > 0 {
        Ok(detected[0].id.clone())
    } else {
        Err("no terminal emulator found on this system".to_owned())
    }
}

/// Which terminal to launch, detecting the installed emulators only when neither a request nor a
/// saved default names one. `bundles` names the macOS `.app` bundles present. A detected
/// terminal is one of the platform's registry entries; on macOS, where Terminal is always present
/// and offered first, it is Terminal.
pub fn resolve_terminal(requested: Option<String>, saved: Option<String>, p: Platform, bundles: &Vec<String>) -> (r: Result<String, String>)
    ensures
        match requested {
            Some(t) if !blank(t@) => r matches Ok(id) && id@ == t@,
            _ => match saved {
                Some(t) if !blank(t@) => r matches Ok(id) && id@ == t@,
                _ => {
                    &&& match r {
                        Ok(id) => exists|k: int| 0 <= k < registry(p).len() && (#[trigger] registry(p)[k]).id == id@,
                        Err(m) => m@ == no_terminal_msg(),
                    }
                    &&& p == Platform::MacOs ==> (r matches Ok(id) && id@ == "macos-terminal"@)
                    &&& exists|found: Seq<bool>|
                        found.len() == registry(p).len() && #[trigger] agrees_with_bundles(
                            registry(p),
                            views_s(bundles@),
                            found,
                        ) && if selected(registry(p), found).len() > 0 {
                            r matches Ok(id) && id@ == selected(registry(p), found)[0].0
                        } else {
                            r matches Err(m) && m@ == no_terminal_msg()
                        }
                },
            },
        },
{
    let need_detection = match &requested {
        Some(t) => is_blank(t.as_str()),
        None => true,
    } && match &saved {
        Some(t) => is_blank(t.as_str()),
        None => true,
    };
    if need_detection {
        let found = available(p, bundles);
        let r = pick_terminal(requested, saved, &found);
        proof {
            let f = choose|f: Seq<bool>| f.len() == registry(p).len() && info_views(found@) == selected(registry(p), f)
                && #[trigger] agrees_with_bundles(registry(p), views_s(bundles@), f);
            if p == Platform::MacOs {
                assert(bundle_decides(registry(p)[0].detect, views_s(bundles@)) == Some(true));
                assert(f[0]);
                assert(selected(registry(p), f)[0] == (registry(p)[0].id, registry(p)[0].display));
                assert(info_views(found@).len() > 0);
            }
            assert(info_views(found@).len() == found@.len());
            if found@.len() > 0 {
                assert(info_views(found@)[0] == (found@[0].id@, found@[0].display@));
                lemma_selected_in_registry(registry(p), f, 0);
            }
            assert(if selected(registry(p), f).len() > 0 {
                r matches Ok(id) && id@ == selected(registry(p), f)[0].0
            } else {
                r matches Err(m) && m@ == no_terminal_msg()
            });
        }
        r
    } else {
        pick_terminal(requested, saved, &Vec::new())
    }
}

// ---- credentials ------------------------------------------------------------------------------

/// The `ssh` argv that opens a session to a device: its address, its chosen login, its SSH port
/// (22 when none was recorded), and the key file when one is used.
pub open spec fn device_argv(device: Device, key_path: Option<Seq<char>>) -> Seq<Seq<char>> {
    ssh_argv_spec(
        device.ip.text(),
        chosen_login(device),
        match device.ssh.port {
            Some(p) => p,
            None => 22u16,
        },
        key_path,
    )
}

/// The view of an optional text.
pub open spec fn str_view(o: Option<&str>) -> Option<Seq<char>> {
    match o {
        Some(t) => Some(t@),
        None => None,
    }
}

/// Build the `ssh` argv for a device (see [`device_argv`]).
pub fn device_ssh_argv(device: &Device, key_path: Option<&str>) -> (r: Vec<String>)
    ensures
        views_s(r@) == device_argv(*device, str_view(key_path)),
{
    let port = match device.ssh.port {
        Some(p) => p,
        None => 22,
    };
    build_ssh_argv(device.ip.to_text().as_str(), device.chosen_user().as_str(), port, key_path)
}

/// The command that opens `terminal` running `ssh` to a device, with the key file when one is
/// used: the launch of [`device_argv`], as [`launch`] plans it.
pub fn ssh_terminal_command(
    p: Platform,
    terminal: &str,
    device: &Device,
    key_path: Option<&str>,
    bundles: &Vec<String>,
) -> (r: Result<CommandSpec, String>)
    ensures
        match find_in(registry(p), terminal@) {
            None => r matches Err(e) && e@ == unknown_terminal_msg(terminal@),
            Some(k) => {
                &&& bundle_decides(registry(p)[k].detect, views_s(bundles@)) == Some(true) ==> r is Ok
                &&& bundle_decides(registry(p)[k].detect, views_s(bundles@)) == Some(false) ==> (r matches Err(
                    e,
                ) && e@ == unavailable_terminal_msg(terminal@))
                &&& match r {
                    Ok(c) => if registry(p)[k].build == Build::PowerShell {
                        exists|pwsh: bool|
                            command_view(c) == #[trigger] command_for(
                                Build::PowerShell,
                                device_argv(*device, str_view(key_path)),
                                pwsh,
                            )
                    } else {
                        command_view(c) == command_for(
                            registry(p)[k].build,
                            device_argv(*device, str_view(key_path)),
                            false,
                        )
                    },
                    Err(e) => e@ == unavailable_terminal_msg(terminal@),
                }
            },
        },
{
    let argv = device_ssh_argv(device, key_path);
    launch(p, terminal, &argv, bundles)
}

/// The message for a device that is not in the inventory.
pub open spec fn device_not_found_msg(id: Seq<char>) -> Seq<char> {
    "device "@ + id + " not found"@
}

/// The message for a device without a MAC.
pub open spec fn no_mac_msg() -> Seq<char> {
    "this device has no MAC address; credentials are unavailable"@
}

fn not_found(id: &str) -> (r: String)
    ensures
        r@ == device_not_found_msg(id@),
{
    let mut v = lit("device ");
    append(&mut v, &to_chars(id));
    append(&mut v, &lit(" not found"));
    from_chars(&v)
}

/// The device credentials are kept for: it must exist and have a MAC.
pub fn load_mac_device(found: Option<Device>, mac: &str) -> (r: Result<Device, String>)
    ensures
        match found {
            None => r matches Err(m) && m@ == device_not_found_msg(mac@),
            Some(d) => if d.mac is None {
                r matches Err(m) && m@ == no_mac_msg()
            } else {
                r == Ok::<Device, String>(d)
            },
        },
{
    match found {
        None => Err(not_found(mac)),
        Some(d) => if d.mac.is_none() {
            Err("this device has no MAC address; credentials are unavailable".to_owned())
        } else {
            Ok(d)
        },
    }
}

/// The device a command names, or the not-found message.
pub fn require_device(found: Option<Device>, id: &str) -> (r: Result<Device, String>)
    ensures
        match found {
            None => r matches Err(m) && m@ == device_not_found_msg(id@),
            Some(d) => r == Ok::<Device, String>(d),
        },
{
    match found {
        None => Err(not_found(id)),
        Some(d) => Ok(d),
    }
}

/// The message for an empty password.
pub open spec fn empty_password_msg() -> Seq<char> {
    "password must not be empty"@
}

/// A password can be saved unless it is empty.
pub fn check_password(password: &str) -> (r: Result<(), String>)
    ensures
        password@.len() == 0 ==> (r matches Err(m) && m@ == empty_password_msg()),
        password@.len() > 0 ==> r is Ok,
{
    if password.is_empty() {
        Err("password must not be empty".to_owned())
    } else {
        Ok(())
    }
}

/// The message for a blank key path.
pub open spec fn empty_key_path_msg() -> Seq<char> {
    "key path must not be empty"@
}

/// A key path as saved: trimmed, and not blank.
pub fn check_key_path(key_path: &str) -> (r: Result<String, String>)
    ensures
        blank(key_path@) ==> (r matches Err(m) && m@ == empty_key_path_msg()),
        !blank(key_path@) ==> (r matches Ok(p) && p@ == trim(key_path@)),
{
    let t = trim_v(&to_chars(key_path));
    if t.len() == 0 {
        Err("key path must not be empty".to_owned())
    } else {
        Ok(from_chars(&t))
    }
}

/// The credential saved for a new password: password auth with its ciphertext and nonce, no
/// key, created and updated now.
pub fn password_credential(mac: String, cipher: Vec<u8>, nonce: Vec<u8>, now: i64) -> (r: StoredCredential)
    ensures
        r.mac == mac,
        r.auth_method == AuthMethod::Password,
        r.pw_cipher == Some(cipher),
        r.pw_nonce == Some(nonce),
        r.key_path is None,
        r.created_at == now,
        r.updated_at == now,
{
    StoredCredential {
        mac,
        auth_method: AuthMethod::Password,
        pw_cipher: Some(cipher),
        pw_nonce: Some(nonce),
        key_path: None,
        created_at: now,
        updated_at: now,
    }
}

/// The credential saved for a key file: key auth with its path, no password material, created
/// and updated now.
pub fn key_credential(mac: String, key_path: String, now: i64) -> (r: StoredCredential)
    ensures
        r.mac == mac,
        r.auth_method == AuthMethod::Key,
        r.pw_cipher is None,
        r.pw_nonce is None,
        r.key_path == Some(key_path),
        r.created_at == now,
        r.updated_at == now,
{
    StoredCredential {
        mac,
        auth_method: AuthMethod::Key,
        pw_cipher: None,
        pw_nonce: None,
        key_path: Some(key_path),
        created_at: now,
        updated_at: now,
    }
}

/// The message when no password is saved.
pub open spec fn no_saved_password_msg() -> Seq<char> {
    "no saved password for this device"@
}

/// The message when the saved credential is not a password.
pub open spec fn not_password_msg() -> Seq<char> {
    "this device has no saved password"@
}

/// The message when the saved password lacks its ciphertext or nonce.
pub open spec fn incomplete_password_msg() -> Seq<char> {
    "saved password is incomplete"@
}

/// The ciphertext and nonce of a saved password, or why there is none to copy.
pub fn saved_password(cred: Option<StoredCredential>) -> (r: Result<(Vec<u8>, Vec<u8>), String>)
    ensures
        match cred {
            None => r matches Err(m) && m@ == no_saved_password_msg(),
            Some(c) => if c.auth_method != AuthMethod::Password {
                r matches Err(m) && m@ == not_password_msg()
            } else {
                match (c.pw_cipher, c.pw_nonce) {
                    (Some(ct), Some(n)) => r == Ok::<(Vec<u8>, Vec<u8>), String>((ct, n)),
                    _ => r matches Err(m) && m@ == incomplete_password_msg(),
                }
            },
        },
{
    match cred {
        None => Err("no saved password for this device".to_owned()),
        Some(c) => {
            if c.auth_method != AuthMethod::Password {
                return Err("this device has no saved password".to_owned());
            }
            match (c.pw_cipher, c.pw_nonce) {
                (Some(ct), Some(n)) => Ok((ct, n)),
                _ => Err("saved password is incomplete".to_owned()),
            }
        },
    }
}

/// How a terminal session is opened for a device.
pub enum LaunchPlan {
    /// Key auth: `ssh -i <key> …` (the key file must exist).
    KeyFile(String),
    /// Password auth: decrypt and copy the password first, then plain `ssh`.
    Password(Vec<u8>, Vec<u8>),
    /// No stored credential: plain `ssh user@host`.
    Plain,
}

/// The message for a saved key credential without a path.
pub open spec fn key_without_path_msg() -> Seq<char> {
    "saved key has no path"@
}

/// How to open a terminal given the device's stored credential.
pub fn launch_plan(cred: Option<StoredCredential>) -> (r: Result<LaunchPlan, String>)
    ensures
        match cred {
            None => r matches Ok(LaunchPlan::Plain),
            Some(c) => match c.auth_method {
                AuthMethod::Key => match c.key_path {
                    Some(k) => r matches Ok(LaunchPlan::KeyFile(p)) && p == k,
                    None => r matches Err(m) && m@ == key_without_path_msg(),
                },
                AuthMethod::Password => match (c.pw_cipher, c.pw_nonce) {
                    (Some(ct), Some(n)) => r matches Ok(LaunchPlan::Password(a, b)) && a == ct && b == n,
                    _ => r matches Err(m) && m@ == incomplete_password_msg(),
                },
            },
        },
{
    match cred {
        None => Ok(LaunchPlan::Plain),
        Some(c) => match c.auth_method {
            AuthMethod::Key => match c.key_path {
                Some(k) => Ok(LaunchPlan::KeyFile(k)),
                None => Err("saved key has no path".to_owned()),
            },
            AuthMethod::Password => match (c.pw_cipher, c.pw_nonce) {
                (Some(ct), Some(n)) => Ok(LaunchPlan::Password(ct, n)),
                _ => Err("saved password is incomplete".to_owned()),
            },
        },
    }
}

// ---- scans ------------------------------------------------------------------------------------

/// The discovery settings of the desktop scan: mDNS and the SSH probe on unless switched off,
/// logins seeded from the current user, the rest default.
pub fn desktop_scan_config(enable_mdns: Option<bool>, enable_ssh: Option<bool>, user: Option<String>) -> (r: ScanConfig)
    ensures
        r.enable_mdns == match enable_mdns {
            Some(b) => b,
            None => true,
        },
        r.enable_ssh_probe == match enable_ssh {
            Some(b) => b,
            None => true,
        },
        r.current_user == user,
        r.hosts is None,
        r.ports@ == crate::discovery::default_sweep_ports(),
        r.concurrency == 256,
        r.connect_timeout_ms == 700,
        r.mdns_duration_ms == 2000,
        r.enrich_concurrency == 64,
{
    let mut c = ScanConfig::default();
    c.enable_mdns = match enable_mdns {
        Some(b) => b,
        None => true,
    };
    c.enable_ssh_probe = match enable_ssh {
        Some(b) => b,
        None => true,
    };
    c.current_user = user;
    c
}

/// The position of the first device whose address reads as `ip`.
pub fn find_by_ip(devices: &Vec<Device>, ip: &str) -> (r: Option<usize>)
    ensures
        match r {
            Some(i) => i < devices@.len() && devices@[i as int].ip.text() == ip@ && forall|j: int|
                0 <= j < i ==> (#[trigger] devices@[j]).ip.text() != ip@,
            None => forall|j: int| 0 <= j < devices@.len() ==> (#[trigger] devices@[j]).ip.text() != ip@,
        },
{
    let target = to_chars(ip);
    let mut i: usize = 0;
    while i < devices.len()
        invariant
            i <= devices@.len(),
            target@ == ip@,
            forall|j: int| 0 <= j < i ==> (#[trigger] devices@[j]).ip.text() != ip@,
        decreases devices@.len() - i,
    {
        let text = devices[i].ip.to_text();
        if crate::text::eq_v(&to_chars(text.as_str()), &target) {
            return Some(i);
        }
        i += 1;
    }
    None
}

/// A device after a deep port scan: its services replaced by the scan's, stamped with the scan
/// time; nothing else changes.
pub fn record_port_scan(device: &mut Device, services: Vec<ServicePort>, now: i64)
    ensures
        final(device).services == services,
        final(device).ports_scanned_at == Some(now),
        final(device).id == old(device).id,
        final(device).ip == old(device).ip,
        final(device).mac == old(device).mac,
        final(device).vendor == old(device).vendor,
        final(device).custom_name == old(device).custom_name,
        final(device).ssh_user == old(device).ssh_user,
        final(device).names == old(device).names,
        final(device).status == old(device).status,
        final(device).ssh == old(device).ssh,
        final(device).open_ports == old(device).open_ports,
        final(device).first_seen == old(device).first_seen,
        final(device).last_seen == old(device).last_seen,
{
    device.services = services;
    device.ports_scanned_at = Some(now);
}

// ---- merging a scan into the inventory --------------------------------------------------------

/// A scanned device with what the inventory already knew of it carried over: the user's name
/// and login, the earlier first-seen time, and — when this scan found no services — the earlier
/// service results.
pub open spec fn carried(d: Device, e: Device) -> Device {
    Device {
        custom_name: e.custom_name,
        ssh_user: e.ssh_user,
        first_seen: if e.first_seen <= d.first_seen {
            e.first_seen
        } else {
            d.first_seen
        },
        services: if d.services@.len() == 0 {
            e.services
        } else {
            d.services
        },
        ports_scanned_at: if d.services@.len() == 0 {
            e.ports_scanned_at
        } else {
            d.ports_scanned_at
        },
        ..d
    }
}

/// A saved device that did not answer this round: kept, marked offline.
pub open spec fn gone_offline(d: Device) -> Device {
    Device { status: DeviceStatus::Offline, ..d }
}

/// The first position of a device with identity `id`.
pub open spec fn id_index(s: Seq<Device>, id: Seq<char>) -> Option<int>
    decreases s.len(),
{
    if s.len() == 0 {
        None
    } else {
        match id_index(s.drop_last(), id) {
            Some(i) => Some(i),
            None => if s.last().id@ == id {
                Some(s.len() - 1)
            } else {
                None
            },
        }
    }
}

/// The scanned devices with their saved counterparts folded in, and the saved devices no scanned
/// device claimed. Each scanned device claims the first unclaimed saved device with its id.
pub open spec fn merge_scan(scanned: Seq<Device>, saved: Seq<Device>) -> (Seq<Device>, Seq<Device>)
    decreases scanned.len(),
{
    if scanned.len() == 0 {
        (Seq::empty(), saved)
    } else {
        let (front, rest) = merge_scan(scanned.drop_last(), saved);
        let d = scanned.last();
        match id_index(rest, d.id@) {
            Some(i) => (front.push(carried(d, rest[i])), rest.remove(i)),
            None => (front.push(d), rest),
        }
    }
}

/// The full inventory after a scan: the scanned devices (with what was known of them carried
/// over), then every saved device that was not seen, marked offline.
pub open spec fn merged_inventory(scanned: Seq<Device>, saved: Seq<Device>) -> Seq<Device> {
    merge_scan(scanned, saved).0 + merge_scan(scanned, saved).1.map_values(|d: Device| gone_offline(d))
}

proof fn lemma_id_index(s: Seq<Device>, id: Seq<char>)
    ensures
        match id_index(s, id) {
            Some(i) => 0 <= i < s.len() && s[i].id@ == id && forall|j: int|
                0 <= j < i ==> #[trigger] s[j].id@ != id,
            None => forall|j: int| 0 <= j < s.len() ==> #[trigger] s[j].id@ != id,
        },
    decreases s.len(),
{
    if s.len() > 0 {
        let d = s.drop_last();
        lemma_id_index(d, id);
        assert forall|j: int| 0 <= j < d.len() implies d[j] == s[j] by {}
        match id_index(d, id) {
            Some(i) => {
                assert(d[i] == s[i]);
            },
            None => {
                assert forall|j: int| 0 <= j < s.len() - 1 implies #[trigger] s[j].id@ != id by {
                    assert(d[j] == s[j]);
                }
            },
        }
    }
}

fn find_id(s: &Vec<Device>, id: &String) -> (r: Option<usize>)
    ensures
        match r {
            Some(i) => id_index(s@, id@) == Some(i as int),
            None => id_index(s@, id@) is None,
        },
{
    let mut i: usize = 0;
    while i < s.len()
        invariant
            i <= s.len(),
            forall|j: int| 0 <= j < i ==> #[trigger] s@[j].id@ != id@,
        decreases s.len() - i,
    {
        if s[i].id == *id {
            proof {
                lemma_id_index(s@, id@);
                match id_index(s@, id@) {
                    Some(k) => {
                        if k < i {
                            assert(s@[k].id@ != id@);
                        }
                        if k > i {
                            assert(s@[i as int].id@ == id@);
                        }
                    },
                    None => {
                        assert(s@[i as int].id@ == id@);
                    },
                }
            }
            return Some(i);
        }
        i += 1;
    }
    proof {
        lemma_id_index(s@, id@);
    }
    None
}

fn carry_over(d: Device, e: Device) -> (r: Device)
    ensures
        r == carried(d, e),
{
    let keep_services = d.services.len() == 0;
    let first_seen = if e.first_seen <= d.first_seen { e.first_seen } else { d.first_seen };
    let (services, ports_scanned_at) = if keep_services {
        (e.services, e.ports_scanned_at)
    } else {
        (d.services, d.ports_scanned_at)
    };
    Device {
        id: d.id,
        ip: d.ip,
        mac: d.mac,
        vendor: d.vendor,
        custom_name: e.custom_name,
        ssh_user: e.ssh_user,
        names: d.names,
        status: d.status,
        ssh: d.ssh,
        open_ports: d.open_ports,
        services,
        ports_scanned_at,
        first_seen,
        last_seen: d.last_seen,
    }
}

/// Merge a scan into the saved inventory: each scanned device keeps the user's name and login
/// and the earliest first-seen time of its saved counterpart (and the saved service results when
/// this scan found none), and every saved device not seen this round is kept, marked offline —
/// so a saved-but-unreachable device never vanishes.
pub fn merge_inventory(scanned: Vec<Device>, saved: Vec<Device>) -> (r: Vec<Device>)
    ensures
        r@ == merged_inventory(scanned@, saved@),
{
    let mut rest = saved;
    let mut front: Vec<Device> = Vec::new();
    let mut input = scanned;
    let mut taken: Vec<Device> = Vec::new();
    // Reverse the scanned devices so they can be taken from the back in scan order.
    while input.len() > 0
        invariant
            taken@ + input@.reverse() == scanned@.reverse(),
        decreases input.len(),
    {
        let ghost before = input@;
        let d = input.pop().unwrap();
        proof {
            assert(before =~= input@.push(d));
            assert(before.reverse() =~= seq![d] + input@.reverse());
            assert(taken@.push(d) + input@.reverse() =~= taken@ + before.reverse());
        }
        taken.push(d);
    }
    assert(taken@ =~= scanned@.reverse());
    let ghost n: int = scanned@.len() as int;
    while taken.len() > 0
        invariant
            taken@.len() <= n,
            n == scanned@.len(),
            forall|i: int| 0 <= i < taken@.len() ==> #[trigger] taken@[i] == scanned@[n - 1 - i],
            (front@, rest@) == merge_scan(scanned@.take(n - taken@.len()), saved@),
        decreases taken.len(),
    {
        let ghost k: int = n - taken@.len();
        let d = taken.pop().unwrap();
        proof {
            assert(d == scanned@[k]);
            assert(scanned@.take(k + 1).drop_last() =~= scanned@.take(k));
            assert(scanned@.take(k + 1).last() == d);
            lemma_id_index(rest@, d.id@);
        }
        match find_id(&rest, &d.id) {
            Some(i) => {
                let e = rest.remove(i);
                front.push(carry_over(d, e));
            },
            None => {
                front.push(d);
            },
        }
    }
    assert(scanned@.take(n as int) =~= scanned@);
    let ghost left = rest@;
    let mut out = front;
    let ghost base = out@;
    let ghost mut j: int = 0;
    assert(left.skip(0) =~= left);
    while rest.len() > 0
        invariant
            0 <= j <= left.len(),
            rest@ == left.skip(j),
            out@ =~= base + left.take(j).map_values(|d: Device| gone_offline(d)),
        decreases rest@.len(),
    {
        let ghost before = rest@;
        let d = rest.remove(0);
        proof {
            assert(d == left[j]);
            assert(rest@ =~= left.skip(j + 1));
        }
        out.push(Device { status: DeviceStatus::Offline, ..d });
        proof {
            assert(left.take(j + 1) =~= left.take(j).push(left[j]));
            assert(left.take(j + 1).map_values(|d: Device| gone_offline(d)) =~= left.take(j).map_values(
                |d: Device| gone_offline(d),
            ).push(gone_offline(left[j])));
            j = j + 1;
        }
    }
    proof {
        assert(j == left.len());
        assert(left.take(j) =~= left);
    }
    out
}

// ---- laws of the merge ----------------------------------------------------------------------

/// No two devices share an identity.
pub open spec fn ids_unique(s: Seq<Device>) -> bool {
    forall|i: int, j: int| 0 <= i < j < s.len() ==> (#[trigger] s[i]).id@ != (#[trigger] s[j]).id@
}

/// Some device among the first `n` scanned has identity `id`.
pub open spec fn claimed(scanned: Seq<Device>, n: int, id: Seq<char>) -> bool {
    exists|i: int| 0 <= i < n && (#[trigger] scanned[i]).id@ == id
}

proof fn lemma_merge_scan(scanned: Seq<Device>, saved: Seq<Device>, n: int)
    requires
        0 <= n <= scanned.len(),
    ensures
        ({
            let (front, rest) = merge_scan(scanned.take(n), saved);
            &&& front.len() == n
            &&& forall|i: int|
                0 <= i < n ==> (#[trigger] front[i]).id == scanned[i].id && front[i].ip == scanned[i].ip
                    && front[i].status == scanned[i].status
            &&& forall|x: Device| rest.contains(x) ==> saved.contains(x)
            &&& forall|k: int| 0 <= k < saved.len() ==> rest.contains(#[trigger] saved[k]) || claimed(scanned, n, saved[k].id@)
            &&& forall|x: Device| saved.contains(x) && !claimed(scanned, n, x.id@) ==> rest.contains(x)
        }),
    decreases n,
{
    if n == 0 {
        assert(scanned.take(0) =~= Seq::<Device>::empty());
    } else {
        lemma_merge_scan(scanned, saved, n - 1);
        let t = scanned.take(n);
        assert(t.drop_last() =~= scanned.take(n - 1));
        let (front0, rest0) = merge_scan(scanned.take(n - 1), saved);
        let d = scanned[n - 1];
        assert(t.last() == d);
        lemma_id_index(rest0, d.id@);
        let (front, rest) = merge_scan(t, saved);
        assert forall|i: int| 0 <= i < n - 1 implies #[trigger] front[i] == front0[i] by {}
        assert forall|j: int| 0 <= j < n - 1 implies claimed(scanned, n, #[trigger] scanned[j].id@) by {
            assert(scanned[j].id@ == scanned[j].id@);
        }
        assert forall|id: Seq<char>| claimed(scanned, n - 1, id) implies claimed(scanned, n, id) by {
            let i = choose|i: int| 0 <= i < n - 1 && (#[trigger] scanned[i]).id@ == id;
            assert(0 <= i < n && scanned[i].id@ == id);
        }
        assert(claimed(scanned, n, d.id@)) by {
            assert(0 <= n - 1 < n && scanned[n - 1].id@ == d.id@);
        }
        match id_index(rest0, d.id@) {
            Some(p) => {
                assert forall|x: Device| rest.contains(x) implies saved.contains(x) by {
                    let q = choose|q: int| 0 <= q < rest.len() && rest[q] == x;
                    if q < p {
                        assert(rest0[q] == x);
                    } else {
                        assert(rest0[q + 1] == x);
                    }
                }
                assert forall|x: Device| rest0.contains(x) && x.id@ != d.id@ implies rest.contains(x) by {
                    let q = choose|q: int| 0 <= q < rest0.len() && rest0[q] == x;
                    if q < p {
                        assert(rest[q] == x);
                    } else {
                        assert(q != p);
                        assert(rest[q - 1] == x);
                    }
                }
                assert forall|k: int| 0 <= k < saved.len() implies rest.contains(#[trigger] saved[k]) || claimed(scanned, n, saved[k].id@) by {
                    if saved[k].id@ != d.id@ && rest0.contains(saved[k]) {
                        assert(rest.contains(saved[k]));
                    }
                }
                assert forall|x: Device| saved.contains(x) && !claimed(scanned, n, x.id@) implies rest.contains(x) by {
                    if !claimed(scanned, n - 1, x.id@) {
                        assert(rest0.contains(x));
                    }
                }
            },
            None => {
                assert forall|k: int| 0 <= k < saved.len() implies rest.contains(#[trigger] saved[k]) || claimed(scanned, n, saved[k].id@) by {}
                assert forall|x: Device| saved.contains(x) && !claimed(scanned, n, x.id@) implies rest.contains(x) by {
                    if !claimed(scanned, n - 1, x.id@) {
                        assert(rest0.contains(x));
                    }
                }
            },
        }
    }
}

/// Merging never loses a device: every saved device's identity is still in the inventory after
/// a scan, and so is every scanned device's (each scanned device first, in scan order, with its
/// own address and status).
pub proof fn lemma_no_device_vanishes(scanned: Seq<Device>, saved: Seq<Device>)
    ensures
        ({
            let m = merged_inventory(scanned, saved);
            &&& m.len() >= scanned.len()
            &&& forall|i: int|
                0 <= i < scanned.len() ==> (#[trigger] m[i]).id == scanned[i].id && m[i].ip == scanned[i].ip
                    && m[i].status == scanned[i].status
            &&& forall|k: int|
                0 <= k < saved.len() ==> exists|j: int| 0 <= j < m.len() && (#[trigger] m[j]).id@ == (#[trigger] saved[k]).id@
        }),
{
    let n = scanned.len() as int;
    lemma_merge_scan(scanned, saved, n);
    assert(scanned.take(n) =~= scanned);
    let (front, rest) = merge_scan(scanned, saved);
    let m = merged_inventory(scanned, saved);
    assert forall|i: int| 0 <= i < n implies (#[trigger] m[i]).id == scanned[i].id && m[i].ip == scanned[i].ip
        && m[i].status == scanned[i].status by {
        assert(m[i] == front[i]);
    }
    assert forall|k: int| 0 <= k < saved.len() implies exists|j: int| 0 <= j < m.len() && (#[trigger] m[j]).id@ == (#[trigger] saved[k]).id@ by {
        if rest.contains(saved[k]) {
            let q = choose|q: int| 0 <= q < rest.len() && rest[q] == saved[k];
            assert(m[n + q] == gone_offline(rest[q]));
            assert(m[n + q].id@ == saved[k].id@);
        } else {
            let i = choose|i: int| 0 <= i < n && (#[trigger] scanned[i]).id@ == saved[k].id@;
            assert(m[i] == front[i]);
            assert(m[i].id@ == saved[k].id@);
        }
    }
}

/// Every device that was not seen this round is in the inventory marked offline, and is a saved
/// device otherwise unchanged.
pub proof fn lemma_unseen_marked_offline(scanned: Seq<Device>, saved: Seq<Device>)
    ensures
        forall|j: int|
            scanned.len() <= j < merged_inventory(scanned, saved).len() ==> (#[trigger] merged_inventory(scanned, saved)[j]).status
                == DeviceStatus::Offline && exists|k: int|
                0 <= k < saved.len() && merged_inventory(scanned, saved)[j] == gone_offline(saved[k]),
{
    let n = scanned.len() as int;
    lemma_merge_scan(scanned, saved, n);
    assert(scanned.take(n) =~= scanned);
    let (front, rest) = merge_scan(scanned, saved);
    let m = merged_inventory(scanned, saved);
    assert forall|j: int| n <= j < m.len() implies (#[trigger] m[j]).status == DeviceStatus::Offline && exists|k: int|
        0 <= k < saved.len() && m[j] == gone_offline(saved[k]) by {
        let x = rest[j - n];
        assert(m[j] == gone_offline(x));
        assert(rest.contains(x));
        let k = choose|k: int| 0 <= k < saved.len() && saved[k] == x;
        assert(m[j] == gone_offline(saved[k]));
    }
}

/// A scanned device keeps what the user set on its saved counterpart: its custom name and login,
/// the earlier first-seen time, and the saved service results when the scan found none (when no
/// two scanned and no two saved devices share an identity).
pub proof fn lemma_user_fields_kept(scanned: Seq<Device>, saved: Seq<Device>, i: int, k: int)
    requires
        ids_unique(scanned),
        ids_unique(saved),
        0 <= i < scanned.len(),
        0 <= k < saved.len(),
        scanned[i].id@ == saved[k].id@,
    ensures
        merged_inventory(scanned, saved)[i] == carried(scanned[i], saved[k]),
    decreases scanned.len(),
{
    lemma_merge_scan(scanned, saved, i);
    let (front0, rest0) = merge_scan(scanned.take(i), saved);
    assert(!claimed(scanned, i, saved[k].id@)) by {
        if claimed(scanned, i, saved[k].id@) {
            let j = choose|j: int| 0 <= j < i && (#[trigger] scanned[j]).id@ == saved[k].id@;
            assert(scanned[j].id@ == scanned[i].id@);
        }
    }
    assert(saved.contains(saved[k]));
    assert(rest0.contains(saved[k]));
    let d = scanned[i];
    lemma_id_index(rest0, d.id@);
    let p = id_index(rest0, d.id@)->0;
    assert(rest0[p] == saved[k]) by {
        assert(rest0.contains(rest0[p]));
        assert(saved.contains(rest0[p]));
        let q = choose|q: int| 0 <= q < saved.len() && saved[q] == rest0[p];
        if q != k {
            if q < k {
                assert(saved[q].id@ != saved[k].id@);
            } else {
                assert(saved[k].id@ != saved[q].id@);
            }
        }
    }
    let t = scanned.take(i + 1);
    assert(t.drop_last() =~= scanned.take(i));
    assert(t.last() == d);
    let front1 = merge_scan(t, saved).0;
    assert(front1[i] == carried(d, saved[k]));
    lemma_front_stable(scanned, saved, i + 1, scanned.len() as int, i);
    assert(scanned.take(scanned.len() as int) =~= scanned);
}

/// Some device of `s` has identity `id`.
pub open spec fn has_id(s: Seq<Device>, id: Seq<char>) -> bool {
    exists|i: int| 0 <= i < s.len() && (#[trigger] s[i]).id@ == id
}

proof fn lemma_merge_ids(scanned: Seq<Device>, saved: Seq<Device>)
    ensures
        forall|id: Seq<char>|
            #[trigger] has_id(merged_inventory(scanned, saved), id) <==> (has_id(scanned, id) || has_id(saved, id)),
{
    let m = merged_inventory(scanned, saved);
    let n = scanned.len() as int;
    lemma_no_device_vanishes(scanned, saved);
    lemma_unseen_marked_offline(scanned, saved);
    assert forall|id: Seq<char>| #[trigger] has_id(m, id) <==> (has_id(scanned, id) || has_id(saved, id)) by {
        if has_id(m, id) {
            let j = choose|j: int| 0 <= j < m.len() && (#[trigger] m[j]).id@ == id;
            if j < n {
                assert(m[j].id == scanned[j].id);
                assert(scanned[j].id@ == id);
            } else {
                let k = choose|k: int| 0 <= k < saved.len() && m[j] == gone_offline(saved[k]);
                assert(saved[k].id@ == id);
            }
        }
        if has_id(scanned, id) {
            let i = choose|i: int| 0 <= i < scanned.len() && (#[trigger] scanned[i]).id@ == id;
            assert(m[i].id == scanned[i].id);
        }
        if has_id(saved, id) {
            let k = choose|k: int| 0 <= k < saved.len() && (#[trigger] saved[k]).id@ == id;
            let j = choose|j: int| 0 <= j < m.len() && (#[trigger] m[j]).id@ == (#[trigger] saved[k]).id@;
            assert(m[j].id@ == id);
        }
    }
}

proof fn lemma_merge_offline(scanned: Seq<Device>, saved: Seq<Device>)
    ensures
        forall|j: int|
            0 <= j < merged_inventory(scanned, saved).len() && !has_id(
                scanned,
                (#[trigger] merged_inventory(scanned, saved)[j]).id@,
            ) ==> merged_inventory(scanned, saved)[j].status == DeviceStatus::Offline,
{
    let m = merged_inventory(scanned, saved);
    let n = scanned.len() as int;
    lemma_no_device_vanishes(scanned, saved);
    lemma_unseen_marked_offline(scanned, saved);
    assert forall|j: int| 0 <= j < m.len() && !has_id(scanned, (#[trigger] m[j]).id@) implies m[j].status
        == DeviceStatus::Offline by {
        if j < n {
            assert(m[j].id == scanned[j].id);
            assert(scanned[j].id@ == m[j].id@);
        }
    }
}

/// What a scan does to the inventory: the identities after it are exactly those saved before
/// and those scanned; every device the scan did not see is marked offline; and (when no two
/// scanned and no two saved devices share an identity) a device both saved and scanned keeps
/// the user's name and login and the earlier first-seen time.
pub proof fn lemma_scan_merge_law(scanned: Seq<Device>, saved: Seq<Device>)
    ensures
        forall|id: Seq<char>|
            #[trigger] has_id(merged_inventory(scanned, saved), id) <==> (has_id(scanned, id) || has_id(saved, id)),
        forall|j: int|
            0 <= j < merged_inventory(scanned, saved).len() && !has_id(
                scanned,
                (#[trigger] merged_inventory(scanned, saved)[j]).id@,
            ) ==> merged_inventory(scanned, saved)[j].status == DeviceStatus::Offline,
        ids_unique(scanned) && ids_unique(saved) ==> forall|i: int, k: int|
            0 <= i < scanned.len() && 0 <= k < saved.len() && (#[trigger] scanned[i]).id@ == (#[trigger] saved[k]).id@
                ==> merged_inventory(scanned, saved)[i].custom_name == saved[k].custom_name
                && merged_inventory(scanned, saved)[i].ssh_user == saved[k].ssh_user
                && merged_inventory(scanned, saved)[i].first_seen == if saved[k].first_seen <= scanned[i].first_seen {
                saved[k].first_seen
            } else {
                scanned[i].first_seen
            },
{
    lemma_merge_ids(scanned, saved);
    lemma_merge_offline(scanned, saved);
    if ids_unique(scanned) && ids_unique(saved) {
        assert forall|i: int, k: int|
            0 <= i < scanned.len() && 0 <= k < saved.len() && (#[trigger] scanned[i]).id@ == (#[trigger] saved[k]).id@
            implies merged_inventory(scanned, saved)[i].custom_name == saved[k].custom_name
            && merged_inventory(scanned, saved)[i].ssh_user == saved[k].ssh_user
            && merged_inventory(scanned, saved)[i].first_seen == if saved[k].first_seen <= scanned[i].first_seen {
            saved[k].first_seen
        } else {
            scanned[i].first_seen
        } by {
            lemma_user_fields_kept(scanned, saved, i, k);
        }
    }
}

/// Every scanned device enters the inventory with what this scan found about it: its identity,
/// address, MAC, vendor, names, status, SSH probe result, open ports and last-seen time are the
/// scan's, and so are its services when the scan found any. Only the user's name and login, the
/// first-seen time, and (when the scan found no services) the service results come from the
/// saved device.
pub proof fn lemma_scan_results_win(scanned: Seq<Device>, saved: Seq<Device>, i: int)
    requires
        0 <= i < scanned.len(),
    ensures
        ({
            let m = merged_inventory(scanned, saved)[i];
            let d = scanned[i];
            &&& m.id == d.id
            &&& m.ip == d.ip
            &&& m.mac == d.mac
            &&& m.vendor == d.vendor
            &&& m.names == d.names
            &&& m.status == d.status
            &&& m.ssh == d.ssh
            &&& m.open_ports == d.open_ports
            &&& m.last_seen == d.last_seen
            &&& m.first_seen <= d.first_seen
            &&& d.services@.len() > 0 ==> m.services == d.services && m.ports_scanned_at == d.ports_scanned_at
        }),
{
    let n = scanned.len() as int;
    lemma_front_stable(scanned, saved, i + 1, n, i);
    assert(scanned.take(n) =~= scanned);
    lemma_merge_scan(scanned, saved, i);
    let t = scanned.take(i + 1);
    assert(t.drop_last() =~= scanned.take(i));
    assert(t.last() == scanned[i]);
    let (front0, rest0) = merge_scan(scanned.take(i), saved);
    assert(front0.len() == i);
    let front1 = merge_scan(t, saved).0;
    match id_index(rest0, scanned[i].id@) {
        Some(p) => {
            assert(front1[i] == carried(scanned[i], rest0[p]));
        },
        None => {
            assert(front1[i] == scanned[i]);
        },
    }
}

proof fn lemma_front_stable(scanned: Seq<Device>, saved: Seq<Device>, a: int, b: int, i: int)
    requires
        0 <= i < a <= b <= scanned.len(),
    ensures
        merge_scan(scanned.take(b), saved).0[i] == merge_scan(scanned.take(a), saved).0[i],
        merged_inventory(scanned.take(b), saved)[i] == merge_scan(scanned.take(b), saved).0[i],
    decreases b - a,
{
    lemma_merge_scan(scanned, saved, b);
    if a < b {
        lemma_front_stable(scanned, saved, a, b - 1, i);
        let t = scanned.take(b);
        assert(t.drop_last() =~= scanned.take(b - 1));
        lemma_merge_scan(scanned, saved, b - 1);
    }
}

} // verus!
