//! SSH detection from a raw, handshake-free banner read.
//!
//! Per RFC 4253 §4.2 an SSH server sends its `SSH-2.0-...` identification string immediately on
//! connect, before any key exchange. A bare TCP connect proves the port is *reachable*; only the
//! `SSH-` prefix proves the host actually speaks SSH. The caller connects and reads; this module
//! judges what was read.
use vstd::prelude::*;
use crate::model::{opt_view, SshStatus};
use crate::portscan::{decode_lossy, utf8_lossy};
use crate::text::{
    find_char_v, first_line_of, first_line_v, from_chars, lit, nonempty, nonempty_v,
    split_once_char, starts_with, starts_with_v, subrange, to_chars, trim, trim_v,
};

verus! {

/// Outcome of an SSH banner probe.
pub struct SshProbeResult {
    /// Distinct reachability/confirmation state.
    pub status: SshStatus,
    /// The identification banner, when one was read.
    pub banner: Option<String>,
    /// Best-effort OS hint: the banner's trailing comment (e.g. `Ubuntu-3ubuntu0.1`).
    pub os_hint: Option<String>,
}

/// The probe outcome for a port that could not be connected to.
pub fn unreachable() -> (r: SshProbeResult)
    ensures
        r.status == SshStatus::Unreachable,
        r.banner is None,
        r.os_hint is None,
{
    SshProbeResult { status: SshStatus::Unreachable, banner: None, os_hint: None }
}

/// The probe outcome for a port that connected but said nothing readable.
pub fn silent() -> (r: SshProbeResult)
    ensures
        r.status == SshStatus::PortReachable,
        r.banner is None,
        r.os_hint is None,
{
    SshProbeResult { status: SshStatus::PortReachable, banner: None, os_hint: None }
}

/// The trimmed first line of what the server sent.
pub open spec fn banner_line(text: Seq<char>) -> Seq<char> {
    trim(first_line_of(text))
}

/// The comment after the first space of an identification line's remainder, when non-blank.
pub open spec fn os_hint_of(rest: Seq<char>) -> Option<Seq<char>> {
    match split_once_char(rest, ' ') {
        Some((_, comment)) => nonempty(comment),
        None => None,
    }
}

/// What a banner proves: an `SSH-` first line confirms SSH (keeping the line and the OS hint),
/// anything else only shows the port is reachable.
pub open spec fn banner_judgement(text: Seq<char>) -> (SshStatus, Option<Seq<char>>, Option<
    Seq<char>,
>) {
    let line = banner_line(text);
    if starts_with(line, "SSH-"@) {
        (SshStatus::ConfirmedSsh, Some(line), os_hint_of(line.skip(4)))
    } else {
        (SshStatus::PortReachable, None, None)
    }
}

/// Judge decoded banner text.
pub fn parse_banner_text(text: &str) -> (r: SshProbeResult)
    ensures
        (r.status, opt_view(r.banner), opt_view(r.os_hint)) == banner_judgement(text@),
{
    let t = to_chars(text);
    let line = trim_v(&first_line_v(&t));
    let prefix = lit("SSH-");
    if starts_with_v(&line, &prefix) {
        proof {
            reveal_strlit("SSH-");
            assert(line@.skip(4) =~= line@.subrange(4, line@.len() as int));
        }
        let rest = subrange(&line, 4, line.len());
        let os_hint = match find_char_v(&rest, ' ') {
            Some(i) => {
                proof {
                    assert(rest@.skip(i + 1) =~= rest@.subrange(i + 1, rest@.len() as int));
                }
                let comment = subrange(&rest, i + 1, rest.len());
                match nonempty_v(&comment) {
                    Some(c) => Some(from_chars(&c)),
                    None => None,
                }
            },
            None => None,
        };
        SshProbeResult {
            status: SshStatus::ConfirmedSsh,
            banner: Some(from_chars(&line)),
            os_hint,
        }
    } else {
        SshProbeResult { status: SshStatus::PortReachable, banner: None, os_hint: None }
    }
}

/// Judge the bytes a server sent on connect (decoded leniently as UTF-8).
pub fn parse_banner(bytes: &[u8]) -> (r: SshProbeResult)
    ensures
        (r.status, opt_view(r.banner), opt_view(r.os_hint)) == banner_judgement(
            utf8_lossy(bytes@),
        ),
{
    let text = decode_lossy(bytes);
    parse_banner_text(text.as_str())
}

/// The probe's outcome from what the connection gave: no connection means unreachable, a
/// connection that sent nothing (or failed to read) means only reachable, and bytes are judged.
pub fn probe_result(connected: bool, read: Option<Vec<u8>>) -> (r: SshProbeResult)
    ensures
        !connected ==> r.status == SshStatus::Unreachable && r.banner is None && r.os_hint is None,
        connected ==> match read {
            Some(b) if b@.len() > 0 => (r.status, opt_view(r.banner), opt_view(r.os_hint))
                == banner_judgement(utf8_lossy(b@)),
            _ => r.status == SshStatus::PortReachable && r.banner is None && r.os_hint is None,
        },
{
    if !connected {
        return unreachable();
    }
    match read {
        Some(b) => if b.len() > 0 {
            parse_banner(b.as_slice())
        } else {
            silent()
        },
        None => silent(),
    }
}

} // verus!
