//! What an mDNS / DNS-SD browse learns about each advertising address: its `.local` hostname and
//! the service types it offers. The browse itself (a multicast socket read over a time window)
//! belongs to the caller; this module folds each resolved instance into the per-address table.
use vstd::prelude::*;
use crate::model::{views_s, IpAddress};
use crate::text::{ends_with, ends_with_v, from_chars, lit, subrange, to_chars, trim_end_char, trim_end_char_v};

verus! {

/// The service types browsed for, kept small and common to stay polite on the network.
pub open spec fn browsed_service_types() -> Seq<Seq<char>> {
    seq![
        "_ssh._tcp.local."@,
        "_sftp-ssh._tcp.local."@,
        "_http._tcp.local."@,
        "_https._tcp.local."@,
        "_workstation._tcp.local."@,
        "_device-info._tcp.local."@,
        "_smb._tcp.local."@,
        "_rfb._tcp.local."@,
        "_ipp._tcp.local."@,
    ]
}

/// The service types browsed for, in order.
pub fn service_types() -> (r: Vec<&'static str>)
    ensures
        r@.len() == browsed_service_types().len(),
        forall|i: int| 0 <= i < r@.len() ==> #[trigger] r@[i]@ == browsed_service_types()[i],
{
    let r = vec![
        "_ssh._tcp.local.",
        "_sftp-ssh._tcp.local.",
        "_http._tcp.local.",
        "_https._tcp.local.",
        "_workstation._tcp.local.",
        "_device-info._tcp.local.",
        "_smb._tcp.local.",
        "_rfb._tcp.local.",
        "_ipp._tcp.local.",
    ];
    assert forall|i: int| 0 <= i < r@.len() implies #[trigger] r@[i]@
        == browsed_service_types()[i] by {
        if i == 0 {
        } else if i == 1 {
        } else if i == 2 {
        } else if i == 3 {
        } else if i == 4 {
        } else if i == 5 {
        } else if i == 6 {
        } else if i == 7 {
        } else {
        }
    }
    r
}

/// Naming signals gathered for one IP over mDNS.
pub struct MdnsRecord {
    /// Advertised `.local` hostname.
    pub hostname: Option<String>,
    /// Service types seen for this host, e.g. `_ssh._tcp`.
    pub services: Vec<String>,
}

/// The mathematical content of an [`MdnsRecord`].
pub struct MdnsView {
    pub hostname: Option<Seq<char>>,
    pub services: Seq<Seq<char>>,
}

impl View for MdnsRecord {
    type V = MdnsView;

    open spec fn view(&self) -> MdnsView {
        MdnsView {
            hostname: match self.hostname {
                Some(h) => Some(h@),
                None => None,
            },
            services: views_s(self.services@),
        }
    }
}

impl Default for MdnsRecord {
    fn default() -> (r: Self)
        ensures
            r@.hostname is None,
            r@.services.len() == 0,
    {
        MdnsRecord { hostname: None, services: Vec::new() }
    }
}

pub fn clone_strings(v: &Vec<String>) -> (r: Vec<String>)
    ensures
        views_s(r@) == views_s(v@),
{
    let mut out: Vec<String> = Vec::new();
    let mut i: usize = 0;
    while i < v.len()
        invariant
            i <= v.len(),
            views_s(out@) =~= views_s(v@.take(i as int)),
        decreases v.len() - i,
    {
        let x = v[i].clone();
        proof {
            assert(v@.take(i + 1) =~= v@.take(i as int).push(v@[i as int]));
        }
        let ghost before = out@;
        out.push(x);
        proof {
            assert(views_s(out@) =~= views_s(before).push(x@));
            assert(views_s(v@.take(i + 1)) =~= views_s(v@.take(i as int)).push(v@[i as int]@));
        }
        i += 1;
    }
    assert(v@.take(v.len() as int) =~= v@);
    out
}

impl Clone for MdnsRecord {
    fn clone(&self) -> (r: Self)
        ensures
            r@ == self@,
    {
        MdnsRecord {
            hostname: match &self.hostname {
                Some(h) => Some(h.clone()),
                None => None,
            },
            services: clone_strings(&self.services),
        }
    }
}

// ---- names ------------------------------------------------------------------------------------

/// `str::trim_end_matches` with a text pattern: every trailing copy of `p` removed.
pub open spec fn trim_end_seq(s: Seq<char>, p: Seq<char>) -> Seq<char>
    decreases s.len(),
{
    if p.len() > 0 && ends_with(s, p) {
        trim_end_seq(s.take(s.len() - p.len()), p)
    } else {
        s
    }
}

/// A service type as shown: without its trailing `.local.` (e.g. `_ssh._tcp`).
pub open spec fn service_label_of(service_type: Seq<char>) -> Seq<char> {
    trim_end_seq(service_type, ".local."@)
}

/// An advertised hostname without its trailing dots.
pub open spec fn local_name_of(hostname: Seq<char>) -> Seq<char> {
    trim_end_char(hostname, '.')
}

/// The service type without its trailing `.local.`.
pub fn service_label(service_type: &str) -> (r: String)
    ensures
        r@ == service_label_of(service_type@),
{
    let s = to_chars(service_type);
    let p = lit(".local.");
    proof {
        reveal_strlit(".local.");
    }
    let mut j: usize = s.len();
    assert(s@.take(j as int) =~= s@);
    loop
        invariant
            j <= s.len(),
            s@ == service_type@,
            p@ == ".local."@,
            p@.len() == 7,
            trim_end_seq(s@, p@) == trim_end_seq(s@.take(j as int), p@),
        decreases j,
    {
        let head = subrange(&s, 0, j);
        assert(head@ =~= s@.take(j as int));
        if ends_with_v(&head, &p) {
            proof {
                assert(head@.len() >= 7);
                assert(s@.take(j as int).take(j - 7) =~= s@.take(j - 7));
            }
            j = j - 7;
        } else {
            assert(trim_end_seq(head@, p@) == head@);
            return from_chars(&head);
        }
    }
}

/// The hostname without its trailing dots.
pub fn clean_local(hostname: &str) -> (r: String)
    ensures
        r@ == local_name_of(hostname@),
{
    from_chars(&trim_end_char_v(&to_chars(hostname), '.'))
}

// ---- the per-address table --------------------------------------------------------------------

pub open spec fn table_view(m: Seq<(IpAddress, MdnsRecord)>) -> Seq<(IpAddress, MdnsView)> {
    m.map_values(|e: (IpAddress, MdnsRecord)| (e.0, e.1@))
}

/// The first position of `ip` in the table.
pub open spec fn entry_of(m: Seq<(IpAddress, MdnsView)>, ip: IpAddress) -> Option<int>
    decreases m.len(),
{
    if m.len() == 0 {
        None
    } else {
        match entry_of(m.drop_last(), ip) {
            Some(i) => Some(i),
            None => if m.last().0 == ip {
                Some(m.len() - 1)
            } else {
                None
            },
        }
    }
}

/// A record after one more sighting: the first hostname seen is kept, and each service type is
/// listed once, in the order first seen.
pub open spec fn sighted(r: MdnsView, service: Seq<char>, host: Seq<char>) -> MdnsView {
    MdnsView {
        hostname: if r.hostname is Some {
            r.hostname
        } else {
            Some(host)
        },
        services: if r.services.contains(service) {
            r.services
        } else {
            r.services.push(service)
        },
    }
}

/// The table after `ip` was seen offering `service` under `host`: its entry updated in place, or
/// a new entry appended.
pub open spec fn with_sighting(
    m: Seq<(IpAddress, MdnsView)>,
    ip: IpAddress,
    service: Seq<char>,
    host: Seq<char>,
) -> Seq<(IpAddress, MdnsView)> {
    match entry_of(m, ip) {
        Some(i) => m.update(i, (ip, sighted(m[i].1, service, host))),
        None => m.push((ip, sighted(MdnsView { hostname: None, services: Seq::empty() }, service, host))),
    }
}

/// The table after every address of one resolved instance was seen, in order.
pub open spec fn with_sightings(
    m: Seq<(IpAddress, MdnsView)>,
    addrs: Seq<IpAddress>,
    service: Seq<char>,
    host: Seq<char>,
) -> Seq<(IpAddress, MdnsView)>
    decreases addrs.len(),
{
    if addrs.len() == 0 {
        m
    } else {
        with_sighting(with_sightings(m, addrs.drop_last(), service, host), addrs.last(), service, host)
    }
}

/// No record lists a service type twice.
pub open spec fn services_unique(m: Seq<(IpAddress, MdnsView)>) -> bool {
    forall|i: int| 0 <= i < m.len() ==> (#[trigger] m[i]).1.services.no_duplicates()
}

proof fn lemma_sighting_keeps_services_unique(m: Seq<(IpAddress, MdnsView)>, ip: IpAddress, service: Seq<char>, host: Seq<char>)
    requires
        services_unique(m),
    ensures
        services_unique(with_sighting(m, ip, service, host)),
{
    lemma_entry_of(m, ip);
    let m2 = with_sighting(m, ip, service, host);
    assert forall|i: int| 0 <= i < m2.len() implies (#[trigger] m2[i]).1.services.no_duplicates() by {
        match entry_of(m, ip) {
            Some(k) => {
                if i == k {
                    let old_s = m[k].1.services;
                    if !old_s.contains(service) {
                        let new_s = old_s.push(service);
                        assert forall|a: int, b: int| 0 <= a < b < new_s.len() implies new_s[a] != new_s[b] by {
                            if b == old_s.len() {
                                assert(new_s[a] == old_s[a]);
                            }
                        }
                    }
                } else {
                    assert(m2[i] == m[i]);
                }
            },
            None => {
                if i < m.len() {
                    assert(m2[i] == m[i]);
                } else {
                    assert(m2[i].1.services =~= seq![service]);
                }
            },
        }
    }
}

/// No address has two entries.
pub open spec fn keys_unique(m: Seq<(IpAddress, MdnsView)>) -> bool {
    forall|i: int, j: int| 0 <= i < j < m.len() ==> m[i].0 != m[j].0
}

proof fn lemma_entry_of(m: Seq<(IpAddress, MdnsView)>, ip: IpAddress)
    ensures
        match entry_of(m, ip) {
            Some(i) => 0 <= i < m.len() && m[i].0 == ip && forall|j: int| 0 <= j < i ==> m[j].0 != ip,
            None => forall|j: int| 0 <= j < m.len() ==> m[j].0 != ip,
        },
    decreases m.len(),
{
    if m.len() > 0 {
        let d = m.drop_last();
        lemma_entry_of(d, ip);
        assert forall|j: int| 0 <= j < d.len() implies d[j] == m[j] by {}
        match entry_of(d, ip) {
            Some(i) => {
                assert(d[i] == m[i]);
            },
            None => {
                assert forall|j: int| 0 <= j < m.len() - 1 implies m[j].0 != ip by {
                    assert(d[j] == m[j]);
                }
            },
        }
    }
}

proof fn lemma_sighting_keeps_unique(m: Seq<(IpAddress, MdnsView)>, ip: IpAddress, service: Seq<char>, host: Seq<char>)
    requires
        keys_unique(m),
    ensures
        keys_unique(with_sighting(m, ip, service, host)),
{
    lemma_entry_of(m, ip);
}

fn find_entry(m: &Vec<(IpAddress, MdnsRecord)>, ip: &IpAddress) -> (r: Option<usize>)
    ensures
        match r {
            Some(i) => entry_of(table_view(m@), *ip) == Some(i as int),
            None => entry_of(table_view(m@), *ip) is None,
        },
{
    proof {
        lemma_entry_of(table_view(m@), *ip);
    }
    let mut i: usize = 0;
    while i < m.len()
        invariant
            i <= m.len(),
            forall|j: int| 0 <= j < i ==> table_view(m@)[j].0 != *ip,
        decreases m.len() - i,
    {
        assert(table_view(m@)[i as int].0 == m@[i as int].0);
        if m[i].0 == *ip {
            proof {
                let t = table_view(m@);
                lemma_entry_of(t, *ip);
                match entry_of(t, *ip) {
                    Some(k) => {
                        if k < i {
                            assert(t[k].0 != *ip);
                        }
                        if k > i {
                            assert(t[i as int].0 == *ip);
                        }
                    },
                    None => {
                        assert(t[i as int].0 == *ip);
                    },
                }
            }
            return Some(i);
        }
        i += 1;
    }
    None
}

fn contains_string(v: &Vec<String>, s: &String) -> (r: bool)
    ensures
        r == views_s(v@).contains(s@),
{
    let mut i: usize = 0;
    while i < v.len()
        invariant
            i <= v.len(),
            forall|j: int| 0 <= j < i ==> views_s(v@)[j] != s@,
        decreases v.len() - i,
    {
        assert(views_s(v@)[i as int] == v@[i as int]@);
        if v[i] == *s {
            return true;
        }
        i += 1;
    }
    false
}

fn sighted_record(r: &MdnsRecord, service: &String, host: &String) -> (out: MdnsRecord)
    ensures
        out@ == sighted(r@, service@, host@),
{
    let hostname = match &r.hostname {
        Some(h) => Some(h.clone()),
        None => Some(host.clone()),
    };
    let mut services = clone_strings(&r.services);
    if !contains_string(&services, service) {
        services.push(service.clone());
        assert(views_s(services@) =~= views_s(r.services@).push(service@));
    }
    MdnsRecord { hostname, services }
}

/// Fold one resolved service instance into the table: each of its addresses keeps the first
/// hostname seen for it and gains the service type (without `.local.`) unless already listed.
/// A table with one entry per address keeps one entry per address, and records that list each
/// service type once keep doing so.
pub fn record_resolved(
    table: &mut Vec<(IpAddress, MdnsRecord)>,
    service_type: &str,
    hostname: &str,
    addrs: &Vec<IpAddress>,
)
    ensures
        table_view(final(table)@) == with_sightings(
            table_view(old(table)@),
            addrs@,
            service_label_of(service_type@),
            local_name_of(hostname@),
        ),
        keys_unique(table_view(old(table)@)) ==> keys_unique(table_view(final(table)@)),
        services_unique(table_view(old(table)@)) ==> services_unique(table_view(final(table)@)),
{
    let service = service_label(service_type);
    let host = clean_local(hostname);
    let ghost t0 = table_view(table@);
    let mut i: usize = 0;
    while i < addrs.len()
        invariant
            i <= addrs.len(),
            table_view(table@) == with_sightings(t0, addrs@.take(i as int), service@, host@),
            keys_unique(t0) ==> keys_unique(table_view(table@)),
            services_unique(t0) ==> services_unique(table_view(table@)),
        decreases addrs.len() - i,
    {
        let ip = addrs[i];
        proof {
            assert(addrs@.take(i + 1).drop_last() =~= addrs@.take(i as int));
            lemma_entry_of(table_view(table@), ip);
            if keys_unique(table_view(table@)) {
                lemma_sighting_keeps_unique(table_view(table@), ip, service@, host@);
            }
            if services_unique(table_view(table@)) {
                lemma_sighting_keeps_services_unique(table_view(table@), ip, service@, host@);
            }
        }
        let ghost before = table_view(table@);
        match find_entry(table, &ip) {
            Some(k) => {
                let updated = sighted_record(&table[k].1, &service, &host);
                table.set(k, (ip, updated));
                assert(table_view(table@) =~= before.update(k as int, (ip, sighted(before[k as int].1, service@, host@))));
            },
            None => {
                let empty = MdnsRecord::default();
                assert(empty@.services =~= Seq::<Seq<char>>::empty());
                let fresh = sighted_record(&empty, &service, &host);
                table.push((ip, fresh));
                assert(table_view(table@) =~= before.push((ip, sighted(MdnsView { hostname: None, services: Seq::empty() }, service@, host@))));
            },
        }
        i += 1;
    }
    assert(addrs@.take(addrs.len() as int) =~= addrs@);
}

} // verus!
