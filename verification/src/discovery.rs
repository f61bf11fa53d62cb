//! The decisions of a LAN discovery pass. A pass sweeps the hosts of the subnet for open TCP
//! ports, browses mDNS, reads the ARP cache, looks up MAC vendors, then enriches each device with
//! reverse DNS and an SSH probe. The network work is the caller's; this module decides which
//! hosts to scan, which addresses become devices, what each device record holds, and how the
//! results are grouped and ordered.
use vstd::prelude::*;
use vstd::multiset::Multiset;
use crate::error::DiscoveryError;
use crate::mdns::MdnsRecord;
use crate::model::{opt_view, Device, DeviceStatus, IpAddress, SshStatus, lowered_hint, suggest_usernames, suggestions, views_s};
use crate::net::{hosts_in_24, ip_not_after, ip_rank, ipv4_of, is_colon_mac, mac_number, parse_ipv4, Ipv4Address};
use crate::oui::VendorDb;
use crate::ssh::SshProbeResult;

verus! {

broadcast use vstd::seq_lib::group_to_multiset_ensures;

/// Tunable parameters for a discovery pass.
#[derive(Debug, Clone)]
pub struct ScanConfig {
    /// Explicit hosts to scan. When `None`, the `/24` around the primary IPv4 is used.
    pub hosts: Option<Vec<Ipv4Address>>,
    /// TCP ports probed during the sweep (liveness + role fingerprint).
    pub ports: Vec<u16>,
    /// Max concurrent connects during the sweep.
    pub concurrency: usize,
    /// Per-connect (and per banner-read) timeout, in milliseconds.
    pub connect_timeout_ms: u64,
    /// How long to browse mDNS, in milliseconds.
    pub mdns_duration_ms: u64,
    /// Whether to run the mDNS browse.
    pub enable_mdns: bool,
    /// Whether to run the SSH banner probe on hosts with port 22 open.
    pub enable_ssh_probe: bool,
    /// Max concurrent reverse-DNS/SSH enrichment tasks.
    pub enrich_concurrency: usize,
    /// Current OS username, used to seed SSH login suggestions.
    pub current_user: Option<String>,
}

/// The ports swept by default: SSH, web, SMB, Proxmox, Plex, RDP, VNC.
pub open spec fn default_sweep_ports() -> Seq<u16> {
    seq![22u16, 80, 443, 445, 8006, 32400, 3389, 5900]
}

impl Default for ScanConfig {
    fn default() -> (r: Self)
        ensures
            r.hosts is None,
            r.ports@ == default_sweep_ports(),
            r.concurrency == 256,
            r.connect_timeout_ms == 700,
            r.mdns_duration_ms == 2000,
            r.enable_mdns,
            r.enable_ssh_probe,
            r.enrich_concurrency == 64,
            r.current_user is None,
    {
        let ports = vec![22u16, 80, 443, 445, 8006, 32400, 3389, 5900];
        assert(ports@ =~= default_sweep_ports());
        ScanConfig {
            hosts: None,
            ports,
            concurrency: 256,
            connect_timeout_ms: 700,
            mdns_duration_ms: 2000,
            enable_mdns: true,
            enable_ssh_probe: true,
            enrich_concurrency: 64,
            current_user: None,
        }
    }
}

// ---- which hosts ----------------------------------------------------------------------------

/// The `/24` host range around an address: `.1` to `.254`.
pub open spec fn range_24(ip: Ipv4Address) -> Seq<Ipv4Address> {
    Seq::new(254, |i: int| Ipv4Address { a: ip.a, b: ip.b, c: ip.c, d: (i + 1) as u8 })
}

/// Text of the primary local IP address (`local_ip_address::local_ip`), or `None` when the
/// platform reports none. The interfaces are the machine's, so nothing is stated of the value.
#[verifier::external_body]
fn local_ip_text() -> Option<String> {
    match local_ip_address::local_ip() {
        Ok(ip) => Some(ip.to_string()),
        Err(_) => None,
    }
}

/// The local address and its `/24` host range, from the text of the primary local address:
/// `None` when there is none or it is not IPv4.
pub fn subnet_of(local: Option<&str>) -> (r: Option<(Ipv4Address, Vec<Ipv4Address>)>)
    ensures
        match local {
            Some(t) => match ipv4_of(t@) {
                Some(ip) => r matches Some((a, v)) && a == ip && v@ == range_24(ip),
                None => r is None,
            },
            None => r is None,
        },
{
    match local {
        Some(t) => match parse_ipv4(t) {
            Some(ip) => {
                let hosts = hosts_in_24(ip);
                assert(hosts@ =~= range_24(ip));
                Some((ip, hosts))
            },
            None => None,
        },
        None => None,
    }
}

/// `(self_ip, hosts)` for the `/24` containing the primary IPv4 address, or `None` if no IPv4
/// address could be determined (e.g. an IPv6-only host).
pub fn default_hosts() -> (r: Option<(Ipv4Address, Vec<Ipv4Address>)>)
    ensures
        r matches Some((a, v)) ==> v@ == range_24(a),
{
    match local_ip_text() {
        Some(t) => subnet_of(Some(t.as_str())),
        None => subnet_of(None),
    }
}

fn copy_hosts(v: &Vec<Ipv4Address>) -> (r: Vec<Ipv4Address>)
    ensures
        r@ == v@,
{
    let mut out: Vec<Ipv4Address> = Vec::new();
    let mut i: usize = 0;
    while i < v.len()
        invariant
            i <= v.len(),
            out@ =~= v@.take(i as int),
        decreases v.len() - i,
    {
        out.push(v[i]);
        i += 1;
    }
    assert(v@.take(v.len() as int) =~= v@);
    out
}

impl ScanConfig {
    /// The hosts to scan given the local address (if any): the explicit list when there is one,
    /// else the `/24` around the local address, else `NoSubnet`.
    pub fn hosts_from(&self, local: Option<Ipv4Address>) -> (r: Result<Vec<Ipv4Address>, DiscoveryError>)
        ensures
            match self.hosts {
                Some(h) => r is Ok && r->Ok_0@ == h@,
                None => match local {
                    Some(ip) => r is Ok && r->Ok_0@ == range_24(ip),
                    None => r == Err::<Vec<Ipv4Address>, DiscoveryError>(DiscoveryError::NoSubnet),
                },
            },
    {
        match &self.hosts {
            Some(h) => Ok(copy_hosts(h)),
            None => match local {
                Some(ip) => {
                    let hosts = hosts_in_24(ip);
                    assert(hosts@ =~= range_24(ip));
                    Ok(hosts)
                },
                None => Err(DiscoveryError::NoSubnet),
            },
        }
    }

    /// Resolve the concrete host list to scan: the explicit list, else the `/24` around the
    /// primary local IPv4 address, else `NoSubnet`.
    pub fn resolve_hosts(&self) -> (r: Result<Vec<Ipv4Address>, DiscoveryError>)
        ensures
            match self.hosts {
                Some(h) => r is Ok && r->Ok_0@ == h@,
                None => match r {
                    Ok(v) => exists|ip: Ipv4Address| v@ == range_24(ip),
                    Err(e) => e == DiscoveryError::NoSubnet,
                },
            },
    {
        match &self.hosts {
            Some(h) => Ok(copy_hosts(h)),
            None => match default_hosts() {
                Some((ip, hosts)) => {
                    assert(hosts@ == range_24(ip));
                    Ok(hosts)
                },
                None => Err(DiscoveryError::NoSubnet),
            },
        }
    }
}

// ---- tables keyed by address ----------------------------------------------------------------

/// The position of the first entry for `ip`.
pub open spec fn first_entry<V>(m: Seq<(IpAddress, V)>, ip: IpAddress) -> Option<int>
    decreases m.len(),
{
    if m.len() == 0 {
        None
    } else {
        match first_entry(m.drop_last(), ip) {
            Some(i) => Some(i),
            None => if m.last().0 == ip {
                Some(m.len() - 1)
            } else {
                None
            },
        }
    }
}

/// Whether the table has an entry for `ip`.
pub open spec fn has_entry<V>(m: Seq<(IpAddress, V)>, ip: IpAddress) -> bool {
    exists|i: int| 0 <= i < m.len() && #[trigger] m[i].0 == ip
}

pub proof fn lemma_first_entry<V>(m: Seq<(IpAddress, V)>, ip: IpAddress)
    ensures
        match first_entry(m, ip) {
            Some(i) => 0 <= i < m.len() && m[i].0 == ip && forall|j: int|
                0 <= j < i ==> #[trigger] m[j].0 != ip,
            None => forall|j: int| 0 <= j < m.len() ==> #[trigger] m[j].0 != ip,
        },
        has_entry(m, ip) == (first_entry(m, ip) is Some),
    decreases m.len(),
{
    if m.len() > 0 {
        let d = m.drop_last();
        lemma_first_entry(d, ip);
        assert forall|j: int| 0 <= j < d.len() implies d[j] == m[j] by {}
        match first_entry(d, ip) {
            Some(i) => {
                assert(d[i] == m[i]);
            },
            None => {
                assert forall|j: int| 0 <= j < m.len() - 1 implies #[trigger] m[j].0 != ip by {
                    assert(d[j] == m[j]);
                }
            },
        }
    }
}

/// The first entry for `ip`, as `HashMap::get` finds the entry of a key.
pub fn find_entry<V>(m: &Vec<(IpAddress, V)>, ip: &IpAddress) -> (r: Option<usize>)
    ensures
        match r {
            Some(i) => first_entry(m@, *ip) == Some(i as int),
            None => first_entry(m@, *ip) is None,
        },
{
    let mut i: usize = 0;
    while i < m.len()
        invariant
            i <= m.len(),
            forall|j: int| 0 <= j < i ==> #[trigger] m@[j].0 != *ip,
        decreases m.len() - i,
    {
        if m[i].0 == *ip {
            proof {
                lemma_first_entry(m@, *ip);
                match first_entry(m@, *ip) {
                    Some(k) => {
                        if k < i {
                            assert(m@[k].0 != *ip);
                        }
                        if k > i {
                            assert(m@[i as int].0 == *ip);
                        }
                    },
                    None => {
                        assert(m@[i as int].0 == *ip);
                    },
                }
            }
            return Some(i);
        }
        i += 1;
    }
    proof {
        lemma_first_entry(m@, *ip);
    }
    None
}

// ---- which addresses become devices ---------------------------------------------------------

/// Whether `ip` is one of the hosts scanned.
pub open spec fn scanned(hosts: Seq<Ipv4Address>, ip: IpAddress) -> bool {
    exists|i: int| 0 <= i < hosts.len() && #[trigger] hosts[i].ip() == ip
}

/// The addresses a pass has evidence for: every host with an open port, plus every scanned host
/// that advertised over mDNS or sits in the ARP cache. mDNS and ARP sightings outside the scanned
/// subnet are left out.
pub open spec fn is_candidate<A, B, C>(
    hosts: Seq<Ipv4Address>,
    open: Seq<(IpAddress, A)>,
    mdns: Seq<(IpAddress, B)>,
    arp: Seq<(IpAddress, C)>,
    ip: IpAddress,
) -> bool {
    has_entry(open, ip) || (scanned(hosts, ip) && (has_entry(mdns, ip) || has_entry(arp, ip)))
}

fn is_scanned(hosts: &Vec<Ipv4Address>, ip: &IpAddress) -> (r: bool)
    ensures
        r == scanned(hosts@, *ip),
{
    let mut i: usize = 0;
    while i < hosts.len()
        invariant
            i <= hosts.len(),
            forall|j: int| 0 <= j < i ==> #[trigger] hosts@[j].ip() != *ip,
        decreases hosts.len() - i,
    {
        if hosts[i].to_ip() == *ip {
            return true;
        }
        i += 1;
    }
    false
}

fn listed(v: &Vec<IpAddress>, ip: &IpAddress) -> (r: bool)
    ensures
        r == v@.contains(*ip),
{
    let mut i: usize = 0;
    while i < v.len()
        invariant
            i <= v.len(),
            forall|j: int| 0 <= j < i ==> v@[j] != *ip,
        decreases v.len() - i,
    {
        if v[i] == *ip {
            return true;
        }
        i += 1;
    }
    false
}

/// Some entry before position `n` has key `x`, and `x` passes the scanned-hosts filter when
/// it applies.
pub open spec fn kept_before<V>(m: Seq<(IpAddress, V)>, hosts: Seq<Ipv4Address>, only_scanned: bool, n: int, x: IpAddress) -> bool {
    exists|j: int| 0 <= j < n && #[trigger] m[j].0 == x && (!only_scanned || scanned(hosts, x))
}

proof fn lemma_kept_step<V>(m: Seq<(IpAddress, V)>, hosts: Seq<Ipv4Address>, only_scanned: bool, n: int, x: IpAddress)
    requires
        0 <= n < m.len(),
    ensures
        kept_before(m, hosts, only_scanned, n + 1, x) == (kept_before(m, hosts, only_scanned, n, x) || (
        m[n].0 == x && (!only_scanned || scanned(hosts, x)))),
{
    if kept_before(m, hosts, only_scanned, n + 1, x) {
        let j = choose|j: int| 0 <= j < n + 1 && #[trigger] m[j].0 == x && (!only_scanned || scanned(hosts, x));
        if j < n {
            assert(kept_before(m, hosts, only_scanned, n, x));
        }
    }
    if kept_before(m, hosts, only_scanned, n, x) {
        let j = choose|j: int| 0 <= j < n && #[trigger] m[j].0 == x && (!only_scanned || scanned(hosts, x));
        assert(0 <= j < n + 1 && m[j].0 == x);
    }
    if m[n].0 == x && (!only_scanned || scanned(hosts, x)) {
        assert(0 <= n < n + 1 && m[n].0 == x);
    }
}

/// Append the keys of `m` (only those of scanned hosts when `only_scanned`) not listed yet.
fn add_keys<V>(out: &mut Vec<IpAddress>, m: &Vec<(IpAddress, V)>, hosts: &Vec<Ipv4Address>, only_scanned: bool)
    requires
        old(out)@.no_duplicates(),
    ensures
        final(out)@.no_duplicates(),
        forall|ip: IpAddress|
            #[trigger] final(out)@.contains(ip) <==> (old(out)@.contains(ip) || (has_entry(m@, ip) && (
            !only_scanned || scanned(hosts@, ip)))),
{
    let mut i: usize = 0;
    while i < m.len()
        invariant
            i <= m.len(),
            out@.no_duplicates(),
            forall|x: IpAddress|
                out@.contains(x) <==> (old(out)@.contains(x) || kept_before(m@, hosts@, only_scanned, i as int, x)),
        decreases m.len() - i,
    {
        let ip = m[i].0;
        let keep = !only_scanned || is_scanned(hosts, &ip);
        let ghost prev = out@;
        if keep && !listed(out, &ip) {
            out.push(ip);
            proof {
                assert forall|x: IpAddress| out@.contains(x) <==> (prev.contains(x) || x == ip) by {
                    if x == ip {
                        assert(out@[prev.len() as int] == ip);
                    }
                    if out@.contains(x) {
                        let k = choose|k: int| 0 <= k < out@.len() && out@[k] == x;
                        if k < prev.len() {
                            assert(prev[k] == x);
                        }
                    }
                    if prev.contains(x) {
                        let k = choose|k: int| 0 <= k < prev.len() && prev[k] == x;
                        assert(out@[k] == x);
                    }
                }
            }
        }
        proof {
            assert forall|x: IpAddress| out@.contains(x) <==> (old(out)@.contains(x) || kept_before(m@, hosts@, only_scanned, i + 1, x)) by {
                lemma_kept_step(m@, hosts@, only_scanned, i as int, x);
            }
        }
        i += 1;
    }
    proof {
        assert forall|x: IpAddress| kept_before(m@, hosts@, only_scanned, m@.len() as int, x) == (has_entry(m@, x) && (
            !only_scanned || scanned(hosts@, x))) by {
            if has_entry(m@, x) && (!only_scanned || scanned(hosts@, x)) {
                let j = choose|j: int| 0 <= j < m@.len() && #[trigger] m@[j].0 == x;
                assert(m@[j].0 == x);
            }
        }
    }
}

/// The addresses a pass turns into devices, each listed once.
pub fn scan_candidates<A, B, C>(
    hosts: &Vec<Ipv4Address>,
    open: &Vec<(IpAddress, A)>,
    mdns: &Vec<(IpAddress, B)>,
    arp: &Vec<(IpAddress, C)>,
) -> (r: Vec<IpAddress>)
    ensures
        r@.no_duplicates(),
        forall|ip: IpAddress| r@.contains(ip) <==> is_candidate(hosts@, open@, mdns@, arp@, ip),
{
    let mut out: Vec<IpAddress> = Vec::new();
    let ghost s0 = out@;
    add_keys(&mut out, open, hosts, false);
    let ghost s1 = out@;
    add_keys(&mut out, mdns, hosts, true);
    let ghost s2 = out@;
    add_keys(&mut out, arp, hosts, true);
    assert forall|ip: IpAddress| out@.contains(ip) <==> is_candidate(hosts@, open@, mdns@, arp@, ip) by {
        assert(!s0.contains(ip));
        assert(s1.contains(ip) <==> has_entry(open@, ip));
        assert(s2.contains(ip) <==> (s1.contains(ip) || (has_entry(mdns@, ip) && scanned(hosts@, ip))));
    }
    out
}

// ---- the base record of each device ---------------------------------------------------------

/// The registry's vendor for a colon-separated MAC.
pub open spec fn vendor_for(vendors: Map<u64, Seq<char>>, mac: Seq<char>) -> Option<Seq<char>> {
    if vendors.dom().contains(mac_number(mac)) {
        Some(vendors[mac_number(mac)])
    } else {
        None
    }
}

fn copy_ports(v: &Vec<u16>) -> (r: Vec<u16>)
    ensures
        r@ == v@,
{
    let mut out: Vec<u16> = Vec::new();
    let mut i: usize = 0;
    while i < v.len()
        invariant
            i <= v.len(),
            out@ =~= v@.take(i as int),
        decreases v.len() - i,
    {
        out.push(v[i]);
        i += 1;
    }
    assert(v@.take(v.len() as int) =~= v@);
    out
}

/// The record a pass starts from for one address, before reverse DNS and the SSH probe: online,
/// with the ports the sweep found open, the MAC from the ARP cache (which then becomes its id)
/// with the vendor of that MAC, and the hostname and services advertised over mDNS.
pub open spec fn is_base_device(
    d: Device,
    ip: IpAddress,
    open: Seq<(IpAddress, Vec<u16>)>,
    arp: Seq<(IpAddress, String)>,
    mdns: Seq<(IpAddress, MdnsRecord)>,
    vendors: Option<Map<u64, Seq<char>>>,
) -> bool {
    &&& d.ip == ip
    &&& d.status == DeviceStatus::Online
    &&& d.open_ports@ == match first_entry(open, ip) {
        Some(i) => open[i].1@,
        None => Seq::empty(),
    }
    &&& match first_entry(arp, ip) {
        Some(i) => {
            &&& d.id@ == arp[i].1@
            &&& opt_view(d.mac) == Some(arp[i].1@)
            &&& match vendors {
                Some(v) => is_colon_mac(arp[i].1@) ==> opt_view(d.vendor) == vendor_for(v, arp[i].1@),
                None => d.vendor is None,
            }
        },
        None => d.id@ == ip.text() && d.mac is None && d.vendor is None,
    }
    &&& match first_entry(mdns, ip) {
        Some(i) => opt_view(d.names.mdns_hostname) == mdns[i].1@.hostname && views_s(
            d.names.mdns_services@,
        ) == mdns[i].1@.services,
        None => d.names.mdns_hostname is None && d.names.mdns_services@.len() == 0,
    }
    &&& d.custom_name is None
    &&& d.ssh_user is None
    &&& d.names.upnp_friendly_name is None
    &&& d.names.reverse_dns is None
    &&& d.names.netbios is None
    &&& d.ssh.status == SshStatus::Unknown
    &&& d.ssh.port is None
    &&& d.ssh.banner is None
    &&& d.ssh.os_hint is None
    &&& d.ssh.suggested_users@.len() == 0
    &&& d.services@.len() == 0
    &&& d.ports_scanned_at is None
    &&& d.first_seen == d.last_seen
}

/// The vendor registry's contents, when one is loaded.
pub open spec fn registry_of(vendors: Option<VendorDb>) -> Option<Map<u64, Seq<char>>> {
    match vendors {
        Some(db) => Some(db.vendors()),
        None => None,
    }
}

/// The record a pass starts from for one address (see [`is_base_device`]).
pub fn base_device(
    ip: IpAddress,
    open: &Vec<(IpAddress, Vec<u16>)>,
    arp: &Vec<(IpAddress, String)>,
    mdns: &Vec<(IpAddress, MdnsRecord)>,
    vendors: &Option<VendorDb>,
) -> (d: Device)
    ensures
        is_base_device(d, ip, open@, arp@, mdns@, registry_of(*vendors)),
{
    proof {
        lemma_first_entry(open@, ip);
        lemma_first_entry(arp@, ip);
        lemma_first_entry(mdns@, ip);
    }
    let mut device = Device::seen_at(ip, crate::model::unix_now());
    device.status = DeviceStatus::Online;
    match find_entry(open, &ip) {
        Some(k) => {
            device.open_ports = copy_ports(&open[k].1);
        },
        None => {
            assert(device.open_ports@ =~= Seq::<u16>::empty());
        },
    }
    match find_entry(arp, &ip) {
        Some(k) => {
            let mac = arp[k].1.clone();
            device.set_mac(mac);
            match vendors {
                Some(db) => {
                    device.vendor = db.lookup(arp[k].1.as_str());
                },
                None => {},
            }
        },
        None => {},
    }
    match find_entry(mdns, &ip) {
        Some(k) => {
            let record = mdns[k].1.clone();
            device.names.mdns_hostname = record.hostname;
            device.names.mdns_services = record.services;
        },
        None => {},
    }
    device
}

/// The base records of a pass, one per candidate address, in candidate order.
pub fn base_devices(
    candidates: &Vec<IpAddress>,
    open: &Vec<(IpAddress, Vec<u16>)>,
    arp: &Vec<(IpAddress, String)>,
    mdns: &Vec<(IpAddress, MdnsRecord)>,
    vendors: &Option<VendorDb>,
) -> (r: Vec<Device>)
    ensures
        r@.len() == candidates@.len(),
        forall|i: int|
            0 <= i < r@.len() ==> is_base_device(#[trigger] r@[i], candidates@[i], open@, arp@, mdns@, registry_of(*vendors)),
        candidates@.no_duplicates() ==> distinct_ips(r@),
{
    let mut out: Vec<Device> = Vec::new();
    let mut i: usize = 0;
    while i < candidates.len()
        invariant
            i <= candidates@.len(),
            out@.len() == i,
            forall|j: int|
                0 <= j < i ==> is_base_device(#[trigger] out@[j], candidates@[j], open@, arp@, mdns@, registry_of(*vendors)),
        decreases candidates@.len() - i,
    {
        let d = base_device(candidates[i], open, arp, mdns, vendors);
        out.push(d);
        i += 1;
    }
    assert(candidates@.no_duplicates() ==> distinct_ips(out@)) by {
        if candidates@.no_duplicates() {
            assert forall|i: int, j: int| 0 <= i < j < out@.len() implies (#[trigger] out@[i]).ip != (
            #[trigger] out@[j]).ip by {
                assert(candidates@[i] != candidates@[j]);
            }
        }
    }
    out
}

// ---- enrichment -----------------------------------------------------------------------------

/// Whether a device gets the SSH banner probe: probing is on and port 22 is open.
pub open spec fn wants_ssh_probe(enable: bool, ports: Seq<u16>) -> bool {
    enable && ports.contains(22u16)
}

fn has_port(ports: &Vec<u16>, p: u16) -> (r: bool)
    ensures
        r == ports@.contains(p),
{
    let mut i: usize = 0;
    while i < ports.len()
        invariant
            i <= ports.len(),
            forall|j: int| 0 <= j < i ==> ports@[j] != p,
        decreases ports.len() - i,
    {
        if ports[i] == p {
            return true;
        }
        i += 1;
    }
    false
}

/// Whether `device` gets the SSH banner probe under `config`.
pub fn ssh_probe_wanted(device: &Device, config: &ScanConfig) -> (r: bool)
    ensures
        r == wants_ssh_probe(config.enable_ssh_probe, device.open_ports@),
{
    config.enable_ssh_probe && has_port(&device.open_ports, 22)
}

/// Fold the SSH probe into the device. With a probe result (port 22 was probed) the device takes
/// its status, banner and OS hint, port 22, and login suggestions seeded from the hint; without
/// one its status is `Unknown` and its suggestions are the hint-free ones. Nothing else changes.
pub fn enrich_ssh(device: &mut Device, config: &ScanConfig, probe: Option<SshProbeResult>)
    requires
        (probe is Some) == wants_ssh_probe(config.enable_ssh_probe, old(device).open_ports@),
    ensures
        final(device).id == old(device).id,
        final(device).ip == old(device).ip,
        final(device).mac == old(device).mac,
        final(device).vendor == old(device).vendor,
        final(device).custom_name == old(device).custom_name,
        final(device).ssh_user == old(device).ssh_user,
        final(device).names == old(device).names,
        final(device).status == old(device).status,
        final(device).open_ports == old(device).open_ports,
        final(device).services == old(device).services,
        final(device).ports_scanned_at == old(device).ports_scanned_at,
        final(device).first_seen == old(device).first_seen,
        final(device).last_seen == old(device).last_seen,
        match probe {
            Some(p) => {
                &&& final(device).ssh.port == Some(22u16)
                &&& final(device).ssh.status == p.status
                &&& opt_view(final(device).ssh.banner) == opt_view(p.banner)
                &&& opt_view(final(device).ssh.os_hint) == opt_view(p.os_hint)
                &&& views_s(final(device).ssh.suggested_users@) == suggestions(
                    lowered_hint(opt_view(p.os_hint)),
                    opt_view(config.current_user),
                )
            },
            None => {
                &&& final(device).ssh.status == SshStatus::Unknown
                &&& final(device).ssh.port == old(device).ssh.port
                &&& final(device).ssh.banner == old(device).ssh.banner
                &&& final(device).ssh.os_hint == old(device).ssh.os_hint
                &&& views_s(final(device).ssh.suggested_users@) == suggestions(
                    Seq::empty(),
                    opt_view(config.current_user),
                )
            },
        },
{
    let user: Option<&str> = match &config.current_user {
        Some(u) => Some(u.as_str()),
        None => None,
    };
    match probe {
        Some(p) => {
            let hint: Option<&str> = match &p.os_hint {
                Some(h) => Some(h.as_str()),
                None => None,
            };
            let users = suggest_usernames(hint, user);
            device.ssh.port = Some(22);
            device.ssh.status = p.status;
            device.ssh.banner = p.banner;
            device.ssh.suggested_users = users;
            device.ssh.os_hint = p.os_hint;
        },
        None => {
            device.ssh.status = SshStatus::Unknown;
            device.ssh.suggested_users = suggest_usernames(None, user);
        },
    }
}

/// A reverse-DNS (PTR) answer as kept: dropped when it merely echoes the address, which some
/// resolvers do on failure.
pub open spec fn ptr_name_kept(ip: IpAddress, name: Option<Seq<char>>) -> Option<Seq<char>> {
    match name {
        Some(n) => if n == ip.text() {
            None
        } else {
            Some(n)
        },
        None => None,
    }
}

/// Keep a PTR name unless it is just the address's own text.
pub fn accept_ptr_name(ip: &IpAddress, name: Option<String>) -> (r: Option<String>)
    ensures
        opt_view(r) == ptr_name_kept(*ip, opt_view(name)),
{
    match name {
        Some(n) => {
            let own = ip.to_text();
            if n == own {
                None
            } else {
                Some(n)
            }
        },
        None => None,
    }
}

// ---- ordering the result --------------------------------------------------------------------

/// Devices listed in address order.
pub open spec fn sorted_by_ip(s: Seq<Device>) -> bool {
    forall|i: int, j: int| 0 <= i < j < s.len() ==> ip_rank(#[trigger] s[i].ip) <= ip_rank(#[trigger] s[j].ip)
}

/// No address occurs twice.
pub open spec fn distinct_ips(s: Seq<Device>) -> bool {
    forall|i: int, j: int| 0 <= i < j < s.len() ==> (#[trigger] s[i]).ip != (#[trigger] s[j]).ip
}

/// Devices listed in strictly increasing address order, so no address occurs twice.
pub open spec fn strictly_sorted_by_ip(s: Seq<Device>) -> bool {
    forall|i: int, j: int| 0 <= i < j < s.len() ==> ip_rank(#[trigger] s[i].ip) < ip_rank(#[trigger] s[j].ip)
}

/// Reordering devices keeps their addresses distinct: the same devices, each as often, in any
/// order.
pub proof fn lemma_distinct_ips_reordered(a: Seq<Device>, b: Seq<Device>)
    requires
        a.to_multiset() == b.to_multiset(),
        distinct_ips(a),
    ensures
        distinct_ips(b),
{
    broadcast use vstd::seq_lib::group_to_multiset_ensures;
    assert(a.no_duplicates()) by {
        assert forall|i: int, j: int| 0 <= i < a.len() && 0 <= j < a.len() && i != j implies a[i] != a[j] by {
            if i < j {
                assert(a[i].ip != a[j].ip);
            } else {
                assert(a[j].ip != a[i].ip);
            }
        }
    }
    a.lemma_multiset_has_no_duplicates();
    b.lemma_multiset_has_no_duplicates_conv();
    assert forall|i: int, j: int| 0 <= i < j < b.len() implies (#[trigger] b[i]).ip != (#[trigger] b[j]).ip by {
        assert(b.contains(b[i]));
        assert(b.contains(b[j]));
        vstd::seq_lib::to_multiset_contains(b, b[i]);
        vstd::seq_lib::to_multiset_contains(b, b[j]);
        vstd::seq_lib::to_multiset_contains(a, b[i]);
        vstd::seq_lib::to_multiset_contains(a, b[j]);
        assert(a.contains(b[i]));
        assert(a.contains(b[j]));
        let p = choose|p: int| 0 <= p < a.len() && a[p] == b[i];
        let q = choose|q: int| 0 <= q < a.len() && a[q] == b[j];
        assert(b[i] != b[j]);
        assert(p != q);
        if p < q {
            assert(a[p].ip != a[q].ip);
        } else {
            assert(a[q].ip != a[p].ip);
        }
    }
}

/// The addresses of a list of devices, in order.
pub open spec fn ips_of(s: Seq<Device>) -> Seq<IpAddress> {
    s.map_values(|d: Device| d.ip)
}

/// A discovery pass lists each address once, in increasing address order, each a candidate and
/// online: when the devices gathered from a pass carry each of the (distinct) candidate
/// addresses exactly once and are all online, as [`base_devices`] builds them and the
/// enrichment keeps them, their order by [`sort_by_ip`] is strictly increasing.
pub proof fn lemma_pass_ordered(candidates: Seq<IpAddress>, gathered: Seq<Device>, r: Seq<Device>)
    requires
        candidates.no_duplicates(),
        ips_of(gathered).to_multiset() == candidates.to_multiset(),
        forall|i: int| 0 <= i < gathered.len() ==> (#[trigger] gathered[i]).status == DeviceStatus::Online,
        r.to_multiset() == gathered.to_multiset(),
        sorted_by_ip(r),
    ensures
        strictly_sorted_by_ip(r),
        forall|i: int|
            0 <= i < r.len() ==> candidates.contains((#[trigger] r[i]).ip) && r[i].status == DeviceStatus::Online,
{
    broadcast use vstd::seq_lib::group_to_multiset_ensures;
    let g = ips_of(gathered);
    candidates.lemma_multiset_has_no_duplicates();
    g.lemma_multiset_has_no_duplicates_conv();
    assert(distinct_ips(gathered)) by {
        assert forall|i: int, j: int| 0 <= i < j < gathered.len() implies (#[trigger] gathered[i]).ip != (
        #[trigger] gathered[j]).ip by {
            assert(g[i] == gathered[i].ip && g[j] == gathered[j].ip);
        }
    }
    lemma_distinct_ips_reordered(gathered, r);
    assert forall|i: int, j: int| 0 <= i < j < r.len() implies ip_rank(#[trigger] r[i].ip) < ip_rank(
        #[trigger] r[j].ip,
    ) by {
        assert(r[i].ip != r[j].ip);
        if ip_rank(r[i].ip) == ip_rank(r[j].ip) {
            crate::net::lemma_ip_rank_injective(r[i].ip, r[j].ip);
        }
    }
    assert forall|i: int| 0 <= i < r.len() implies candidates.contains((#[trigger] r[i]).ip) && r[i].status
        == DeviceStatus::Online by {
        assert(r.contains(r[i]));
        vstd::seq_lib::to_multiset_contains(r, r[i]);
        vstd::seq_lib::to_multiset_contains(gathered, r[i]);
        let q = choose|q: int| 0 <= q < gathered.len() && gathered[q] == r[i];
        assert(g[q] == r[i].ip);
        assert(g.contains(r[i].ip));
        vstd::seq_lib::to_multiset_contains(g, r[i].ip);
        vstd::seq_lib::to_multiset_contains(candidates, r[i].ip);
    }
}

/// The devices in address order (IPv4 before IPv6, then numerically); the same devices, each as
/// often as before. Devices with distinct addresses come out in strictly increasing order.
pub fn sort_by_ip(devices: Vec<Device>) -> (r: Vec<Device>)
    ensures
        r@.to_multiset() == devices@.to_multiset(),
        sorted_by_ip(r@),
        distinct_ips(devices@) ==> strictly_sorted_by_ip(r@),
{
    broadcast use vstd::multiset::group_multiset_axioms;
    let ghost all = devices@;
    let mut rest = devices;
    let mut out: Vec<Device> = Vec::new();
    proof {
        assert(out@.to_multiset() =~= Multiset::empty());
        assert(rest@ =~= all.take(rest.len() as int));
    }
    while rest.len() > 0
        invariant
            out@.to_multiset().add(rest@.to_multiset()) == all.to_multiset(),
            sorted_by_ip(out@),
            rest@ == all.take(rest.len() as int),
            rest.len() <= all.len(),
            distinct_ips(all) ==> strictly_sorted_by_ip(out@),
            distinct_ips(all) ==> forall|j: int, m: int|
                0 <= j < out@.len() && 0 <= m < rest@.len() ==> (#[trigger] out@[j]).ip != (#[trigger] all[m]).ip,
        decreases rest.len(),
    {
        let ghost before_rest = rest@;
        let d = rest.pop().unwrap();
        proof {
            assert(before_rest =~= rest@.push(d));
            vstd::seq_lib::to_multiset_build(rest@, d);
            assert(rest@ =~= all.take(rest.len() as int));
            assert(d == all[rest.len() as int]);
        }
        let mut k: usize = 0;
        while k < out.len() && !ip_not_after(&d.ip, &out[k].ip)
            invariant
                k <= out.len(),
                forall|j: int| 0 <= j < k ==> ip_rank(#[trigger] out@[j].ip) < ip_rank(d.ip),
            decreases out.len() - k,
        {
            k += 1;
        }
        let ghost before_out = out@;
        out.insert(k, d);
        proof {
            vstd::seq_lib::to_multiset_insert(before_out, k as int, d);
            assert(out@.to_multiset().add(rest@.to_multiset()) =~= all.to_multiset());
            assert forall|i: int, j: int| 0 <= i < j < out@.len() implies ip_rank(#[trigger] out@[i].ip)
                <= ip_rank(#[trigger] out@[j].ip) by {
                if j < k {
                    assert(out@[i] == before_out[i] && out@[j] == before_out[j]);
                } else if j == k {
                    assert(out@[i] == before_out[i]);
                } else if i < k {
                    assert(out@[i] == before_out[i] && out@[j] == before_out[j - 1]);
                    if k < before_out.len() {
                        assert(ip_rank(before_out[k as int].ip) <= ip_rank(before_out[j - 1].ip));
                        assert(ip_rank(d.ip) <= ip_rank(before_out[k as int].ip));
                    }
                } else if i == k {
                    assert(out@[j] == before_out[j - 1]);
                    assert(ip_rank(d.ip) <= ip_rank(before_out[k as int].ip));
                    if k < j - 1 {
                        assert(ip_rank(before_out[k as int].ip) <= ip_rank(before_out[j - 1].ip));
                    }
                } else {
                    assert(out@[i] == before_out[i - 1] && out@[j] == before_out[j - 1]);
                }
            }
            if distinct_ips(all) {
                let n = rest.len() as int;
                if k < before_out.len() {
                    assert(before_out[k as int].ip != all[n].ip);
                    if ip_rank(d.ip) == ip_rank(before_out[k as int].ip) {
                        crate::net::lemma_ip_rank_injective(d.ip, before_out[k as int].ip);
                    }
                }
                assert forall|i: int, j: int| 0 <= i < j < out@.len() implies ip_rank(
                    #[trigger] out@[i].ip,
                ) < ip_rank(#[trigger] out@[j].ip) by {
                    if j < k {
                        assert(out@[i] == before_out[i] && out@[j] == before_out[j]);
                    } else if j == k {
                        assert(out@[i] == before_out[i]);
                    } else if i < k {
                        assert(out@[i] == before_out[i] && out@[j] == before_out[j - 1]);
                        if k < j - 1 {
                            assert(ip_rank(before_out[k as int].ip) < ip_rank(before_out[j - 1].ip));
                        }
                    } else if i == k {
                        assert(out@[j] == before_out[j - 1]);
                        if k < j - 1 {
                            assert(ip_rank(before_out[k as int].ip) < ip_rank(before_out[j - 1].ip));
                        }
                    } else {
                        assert(out@[i] == before_out[i - 1] && out@[j] == before_out[j - 1]);
                    }
                }
                assert forall|j: int, m: int| 0 <= j < out@.len() && 0 <= m < rest@.len() implies (
                #[trigger] out@[j]).ip != (#[trigger] all[m]).ip by {
                    if j < k {
                        assert(out@[j] == before_out[j]);
                    } else if j == k {
                        assert(all[m] == all[m]);
                        assert(m < n);
                    } else {
                        assert(out@[j] == before_out[j - 1]);
                    }
                }
            }
        }
    }
    proof {
        assert(rest@.to_multiset() =~= Multiset::empty());
        assert(out@.to_multiset() =~= all.to_multiset());
    }
    out
}

// ---- grouping sweep hits --------------------------------------------------------------------

/// Strictly increasing, so each port appears once.
pub open spec fn strictly_increasing(s: Seq<u16>) -> bool {
    forall|i: int, j: int| 0 <= i < j < s.len() ==> s[i] < s[j]
}

/// Each address appears in at most one entry.
pub open spec fn one_entry_each<V>(m: Seq<(IpAddress, V)>) -> bool {
    forall|i: int, j: int| 0 <= i < j < m.len() ==> m[i].0 != m[j].0
}

/// `p` is among the ports recorded for `ip`.
pub open spec fn grouped_has(m: Seq<(IpAddress, Vec<u16>)>, ip: IpAddress, p: u16) -> bool {
    exists|i: int| 0 <= i < m.len() && m[i].0 == ip && (#[trigger] m[i].1@).contains(p)
}

fn with_port(v: &Vec<u16>, p: u16) -> (r: Vec<u16>)
    requires
        strictly_increasing(v@),
    ensures
        strictly_increasing(r@),
        forall|q: u16| r@.contains(q) <==> (v@.contains(q) || q == p),
        r@.len() > 0,
{
    let mut out: Vec<u16> = Vec::new();
    let mut i: usize = 0;
    while i < v.len() && v[i] < p
        invariant
            i <= v.len(),
            out@ =~= v@.take(i as int),
            forall|j: int| 0 <= j < i ==> v@[j] < p,
            strictly_increasing(v@),
        decreases v.len() - i,
    {
        out.push(v[i]);
        i += 1;
    }
    let start = i;
    out.push(p);
    if i < v.len() && v[i] == p {
        i += 1;
    }
    let ghost mid = out@;
    while i < v.len()
        invariant
            start <= i <= v.len(),
            i == start || (i == start + 1 && v@[start as int] == p) || i > start,
            out@.len() == start + 1 + (i - start) - (if start < v.len() && v@[start as int] == p { 1int } else { 0int }),
            out@ =~= mid + v@.subrange(
                (if start < v.len() && v@[start as int] == p { start + 1 } else { start as int }) as int,
                i as int,
            ),
            mid == v@.take(start as int).push(p),
            forall|j: int| 0 <= j < start ==> v@[j] < p,
            start < v.len() ==> v@[start as int] >= p,
            i > start ==> (start < v.len()),
            (start < v.len() && v@[start as int] == p) ==> i >= start + 1,
            strictly_increasing(v@),
        decreases v.len() - i,
    {
        out.push(v[i]);
        i += 1;
    }
    proof {
        let skip = if start < v.len() && v@[start as int] == p { start + 1 } else { start as int };
        assert(out@ =~= v@.take(start as int).push(p) + v@.subrange(skip, v@.len() as int));
        assert forall|a: int, b: int| 0 <= a < b < out@.len() implies out@[a] < out@[b] by {
            if b < start {
            } else if b == start {
            } else if a < start {
                assert(out@[b] == v@[skip + b - start - 1]);
            } else if a == start {
                assert(out@[b] == v@[skip + b - start - 1]);
            } else {
                assert(out@[a] == v@[skip + a - start - 1]);
                assert(out@[b] == v@[skip + b - start - 1]);
            }
        }
        assert forall|q: u16| out@.contains(q) <==> (v@.contains(q) || q == p) by {
            if out@.contains(q) {
                let a = choose|a: int| 0 <= a < out@.len() && out@[a] == q;
                if a < start {
                    assert(v@[a] == q);
                } else if a > start {
                    assert(v@[skip + a - start - 1] == q);
                }
            }
            if v@.contains(q) {
                let a = choose|a: int| 0 <= a < v@.len() && v@[a] == q;
                if a < start {
                    assert(out@[a] == q);
                } else if a >= skip {
                    assert(out@[start + 1 + a - skip] == q);
                } else {
                    assert(q == p);
                }
            }
            if q == p {
                assert(out@[start as int] == p);
            }
        }
    }
    out
}

/// The open ports of each responsive host from the sweep's `(address, port)` hits: one entry
/// per address, in order of first hit, with its ports ascending and each listed once.
pub fn group_open_ports(hits: &Vec<(IpAddress, u16)>) -> (r: Vec<(IpAddress, Vec<u16>)>)
    ensures
        one_entry_each(r@),
        forall|i: int| 0 <= i < r@.len() ==> strictly_increasing(#[trigger] r@[i].1@) && r@[i].1@.len() > 0,
        forall|ip: IpAddress, p: u16| grouped_has(r@, ip, p) <==> hits@.contains((ip, p)),
{
    let mut out: Vec<(IpAddress, Vec<u16>)> = Vec::new();
    let mut n: usize = 0;
    while n < hits.len()
        invariant
            n <= hits.len(),
            one_entry_each(out@),
            forall|i: int| 0 <= i < out@.len() ==> strictly_increasing(#[trigger] out@[i].1@) && out@[i].1@.len() > 0,
            forall|ip: IpAddress, p: u16| grouped_has(out@, ip, p) <==> hits@.take(n as int).contains((ip, p)),
        decreases hits.len() - n,
    {
        let (ip, port) = hits[n];
        let ghost before = out@;
        proof {
            assert(hits@.take(n + 1) =~= hits@.take(n as int).push((ip, port)));
            lemma_first_entry(out@, ip);
        }
        match find_entry(&out, &ip) {
            Some(k) => {
                let ports = with_port(&out[k].1, port);
                out.set(k, (ip, ports));
                proof {
                    assert forall|a: IpAddress, q: u16| grouped_has(out@, a, q) <==> (grouped_has(before, a, q) || (a == ip && q == port)) by {
                        if grouped_has(out@, a, q) {
                            let i = choose|i: int| 0 <= i < out@.len() && out@[i].0 == a && (#[trigger] out@[i].1@).contains(q);
                            if i != k {
                                assert(before[i] == out@[i]);
                            }
                        }
                        if grouped_has(before, a, q) {
                            let i = choose|i: int| 0 <= i < before.len() && before[i].0 == a && (#[trigger] before[i].1@).contains(q);
                            if i != k {
                                assert(before[i] == out@[i]);
                            } else {
                                assert(out@[i].1@.contains(q));
                            }
                        }
                        if a == ip && q == port {
                            assert(out@[k as int].1@.contains(q));
                        }
                    }
                }
            },
            None => {
                let v = vec![port];
                out.push((ip, v));
                proof {
                    assert forall|a: IpAddress, q: u16| grouped_has(out@, a, q) <==> (grouped_has(before, a, q) || (a == ip && q == port)) by {
                        if grouped_has(out@, a, q) {
                            let i = choose|i: int| 0 <= i < out@.len() && out@[i].0 == a && (#[trigger] out@[i].1@).contains(q);
                            if i < before.len() {
                                assert(before[i] == out@[i]);
                            } else {
                                assert(out@[i].1@ == seq![port]);
                                assert(q == port);
                            }
                        }
                        if grouped_has(before, a, q) {
                            let i = choose|i: int| 0 <= i < before.len() && before[i].0 == a && (#[trigger] before[i].1@).contains(q);
                            assert(before[i] == out@[i]);
                        }
                        if a == ip && q == port {
                            assert(out@[before.len() as int].1@[0] == port);
                            assert(out@[before.len() as int].1@.contains(q));
                        }
                    }
                }
            },
        }
        proof {
            let t1 = hits@.take(n + 1);
            let t0 = hits@.take(n as int);
            assert forall|a: IpAddress, q: u16| t1.contains((a, q)) <==> (t0.contains((a, q)) || (a == ip && q == port)) by {
                if t1.contains((a, q)) {
                    let i = choose|i: int| 0 <= i < t1.len() && #[trigger] t1[i] == (a, q);
                    if i < n {
                        assert(t0[i] == (a, q));
                    }
                }
                if t0.contains((a, q)) {
                    let i = choose|i: int| 0 <= i < t0.len() && #[trigger] t0[i] == (a, q);
                    assert(t1[i] == (a, q));
                }
                if a == ip && q == port {
                    assert(t1[n as int] == (a, q));
                }
            }
            assert forall|a: IpAddress, q: u16| grouped_has(out@, a, q) <==> t1.contains((a, q)) by {
                assert(grouped_has(out@, a, q) <==> (grouped_has(before, a, q) || (a == ip && q == port)));
                assert(grouped_has(before, a, q) <==> t0.contains((a, q)));
            }
        }
        n += 1;
    }
    assert(hits@.take(hits.len() as int) =~= hits@);
    out
}

} // verus!
