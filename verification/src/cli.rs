//! The rules of the `hlu-discover` command line: its scan settings, the login for a copied
//! command, and the table's cells.
use vstd::prelude::*;
use crate::discovery::{default_sweep_ports, ScanConfig};
use crate::model::{Device, SshStatus};
use crate::text::{from_chars, take_chars, take_chars_v, to_chars};

verus! {

/// The discovery settings of a command-line scan.
pub fn cli_scan_config(no_mdns: bool, no_ssh: bool, timeout_ms: u64, concurrency: usize, user: Option<String>) -> (r: ScanConfig)
    ensures
        r.enable_mdns == !no_mdns,
        r.enable_ssh_probe == !no_ssh,
        r.connect_timeout_ms == timeout_ms,
        r.concurrency == concurrency,
        r.current_user == user,
        r.hosts is None,
        r.ports@ == default_sweep_ports(),
        r.mdns_duration_ms == 2000,
        r.enrich_concurrency == 64,
{
    let mut c = ScanConfig::default();
    c.enable_mdns = !no_mdns;
    c.enable_ssh_probe = !no_ssh;
    c.connect_timeout_ms = timeout_ms;
    c.concurrency = concurrency;
    c.current_user = user;
    c
}

/// The login of a copied command: the given user, else the device's top suggestion, else `root`.
pub fn cli_login(user: Option<&str>, device: &Device) -> (r: String)
    ensures
        r@ == match user {
            Some(u) => u@,
            None => if device.ssh.suggested_users@.len() > 0 {
                device.ssh.suggested_users@[0]@
            } else {
                "root"@
            },
        },
{
    match user {
        Some(u) => u.to_owned(),
        None => if device.ssh.suggested_users.len() > 0 {
            device.ssh.suggested_users[0].clone()
        } else {
            "root".to_owned()
        },
    }
}

/// The SSH column of the table.
pub open spec fn ssh_label_text(status: SshStatus) -> Seq<char> {
    match status {
        SshStatus::ConfirmedSsh => "yes"@,
        SshStatus::PortReachable => "open"@,
        SshStatus::Unreachable => "no"@,
        SshStatus::Unknown => "?"@,
    }
}

/// The SSH column of the table: `yes`, `open`, `no` or `?`.
pub fn ssh_label(status: SshStatus) -> (r: &'static str)
    ensures
        r@ == ssh_label_text(status),
{
    match status {
        SshStatus::ConfirmedSsh => "yes",
        SshStatus::PortReachable => "open",
        SshStatus::Unreachable => "no",
        SshStatus::Unknown => "?",
    }
}

/// A cell of at most `max` characters: the text itself when it fits, else its first `max - 1`
/// characters (none when `max` is 0) and an ellipsis.
pub open spec fn truncated(s: Seq<char>, max: nat) -> Seq<char> {
    if s.len() <= max {
        s
    } else {
        take_chars(s, if max == 0 { 0 } else { (max - 1) as nat }).push('…')
    }
}

/// Fit a cell into `max` characters, marking a cut with `…`.
pub fn truncate(s: &str, max: usize) -> (r: String)
    ensures
        r@ == truncated(s@, max as nat),
        r@.len() <= if max == 0 { 1 } else { max as int },
        s@.len() <= max ==> r@ == s@,
{
    let chars = to_chars(s);
    if chars.len() <= max {
        return s.to_owned();
    }
    let keep = if max == 0 { 0 } else { max - 1 };
    let mut out = take_chars_v(&chars, keep);
    out.push('…');
    from_chars(&out)
}

} // verus!
