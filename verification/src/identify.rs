//! The decisions of a deep port scan: which ports to scan with which tunables, and — per open
//! port — the sequence of probes that identifies the service behind it. The probing itself
//! (connects, TLS handshakes, reads) is the caller's: it performs the probe each stage asks for
//! and hands the outcome back as an event.
use vstd::prelude::*;
use crate::model::{ServiceInfo, ServicePort};
use crate::portscan::{
    apply_http, banner_product, banner_product_spec, banner_service, common_port_list, common_ports,
    first_line, first_line_text_spec, is_tls_port, refine_service, tls_first_port, utf8_lossy,
    well_known, well_known_name, with_http, HttpProbe, HttpSignals,
};
use crate::text::upper_seq;

verus! {

/// Tunables for a port scan.
#[derive(Debug, Clone, Copy)]
pub struct PortScanConfig {
    /// Max concurrent connects.
    pub concurrency: usize,
    /// Per-connect timeout during the open-port sweep, in milliseconds.
    pub connect_timeout_ms: u64,
    /// Timeout for the service-identification banner/HTTP read, in milliseconds.
    pub banner_timeout_ms: u64,
}

impl Default for PortScanConfig {
    /// A pool of 400 workers with a 250 ms connect timeout and a 400 ms banner timeout.
    fn default() -> (r: Self)
        ensures
            r.concurrency == 400,
            r.connect_timeout_ms == 250,
            r.banner_timeout_ms == 400,
    {
        PortScanConfig { concurrency: 400, connect_timeout_ms: 250, banner_timeout_ms: 400 }
    }
}

/// Every port, 1 to 65535, in order.
pub open spec fn all_ports() -> Seq<u16> {
    Seq::new(65535, |i: int| (i + 1) as u16)
}

fn every_port() -> (r: Vec<u16>)
    ensures
        r@ == all_ports(),
{
    let mut out: Vec<u16> = Vec::new();
    let mut p: u32 = 1;
    while p <= 65535
        invariant
            1 <= p <= 65536,
            out@.len() == p - 1,
            forall|i: int| 0 <= i < out@.len() ==> #[trigger] out@[i] == (i + 1) as u16,
        decreases 65536 - p,
    {
        out.push(p as u16);
        p += 1;
    }
    assert(out@ =~= all_ports());
    out
}

/// What a deep scan covers and how: the full range uses a wider pool (800) and a tighter connect
/// timeout (150 ms), since on a LAN a live host answers in about a millisecond; the quick scan
/// covers the common homelab ports with the default tunables.
pub fn scan_plan(full: bool) -> (r: (Vec<u16>, PortScanConfig))
    ensures
        full ==> r.0@ == all_ports() && r.1.concurrency == 800 && r.1.connect_timeout_ms == 150
            && r.1.banner_timeout_ms == 400,
        !full ==> r.0@ == common_port_list() && r.1.concurrency == 400 && r.1.connect_timeout_ms
            == 250 && r.1.banner_timeout_ms == 400,
{
    if full {
        (every_port(), PortScanConfig { concurrency: 800, connect_timeout_ms: 150, ..PortScanConfig::default() })
    } else {
        (common_ports(), PortScanConfig::default())
    }
}

/// `x`, but at least one.
pub open spec fn at_least_one(x: usize) -> int {
    if x == 0 {
        1
    } else {
        x as int
    }
}

/// How many workers sweep `n` ports: the configured concurrency (at least one), but no more
/// than there are ports (at least one).
pub fn worker_count(concurrency: usize, n: usize) -> (r: usize)
    ensures
        r == (if at_least_one(concurrency) <= at_least_one(n) {
            at_least_one(concurrency)
        } else {
            at_least_one(n)
        }),
{
    let c = if concurrency == 0 { 1 } else { concurrency };
    let m = if n == 0 { 1 } else { n };
    if c <= m { c } else { m }
}

// ---- identifying one open port --------------------------------------------------------------

/// Where the identification of one port stands, which is also the probe it waits for.
#[derive(Debug, Clone, Copy, PartialEq, Eq, Structural)]
pub enum IdentifyStage {
    /// Waiting for the outcome of a TCP connect.
    Connecting,
    /// TLS-first port: waiting for a handshake and an HTTP probe over it.
    TlsProbing,
    /// Waiting for whatever banner the server volunteers (empty when none).
    ReadingBanner,
    /// No banner: waiting for a plaintext HTTP probe.
    HttpProbing,
    /// Plaintext HTTP said nothing: waiting for a fresh connect to try HTTPS.
    Reconnecting,
    /// Waiting for a handshake and an HTTP probe over the fresh connection.
    RetryTlsProbing,
    /// Identification is over.
    Done,
}

/// The outcome of the probe a stage asked for.
pub enum ProbeEvent {
    /// Whether the TCP connect succeeded in time.
    Connected(bool),
    /// The HTTP(S) probe's parsed reply, `None` when there was none (or no handshake).
    Http(Option<HttpProbe>),
    /// The bytes the server sent on its own (empty when nothing came).
    Banner(Vec<u8>),
}

/// The mathematical content of a [`ProbeEvent`].
pub enum ProbeOutcome {
    Connected(bool),
    Http(Option<HttpSignals>),
    Banner(Seq<u8>),
}

impl View for ProbeEvent {
    type V = ProbeOutcome;

    open spec fn view(&self) -> ProbeOutcome {
        match self {
            ProbeEvent::Connected(b) => ProbeOutcome::Connected(*b),
            ProbeEvent::Http(h) => ProbeOutcome::Http(
                match h {
                    Some(p) => Some(p@),
                    None => None,
                },
            ),
            ProbeEvent::Banner(v) => ProbeOutcome::Banner(v@),
        }
    }
}

/// The identification of one open port in progress.
pub struct Identification {
    pub service: ServicePort,
    pub stage: IdentifyStage,
}

/// The service record a port starts from: its well-known name, nothing else.
pub open spec fn fresh_record(port: u16) -> ServiceInfo {
    ServiceInfo {
        port,
        service: well_known_name(port),
        product: None,
        version: None,
        title: None,
        banner: None,
    }
}

/// An HTTP probe's reply folded in, the protocol named `label` unless a name is already known.
pub open spec fn with_reply(sp: ServiceInfo, h: Option<HttpSignals>, label: Seq<char>) -> ServiceInfo {
    match h {
        Some(h) => with_http(
            ServiceInfo {
                service: if sp.service is Some {
                    sp.service
                } else {
                    Some(label)
                },
                ..sp
            },
            h,
        ),
        None => sp,
    }
}

/// The last resort: a port in the ephemeral/dynamic range with no name gets the range's name.
pub open spec fn finished(sp: ServiceInfo) -> ServiceInfo {
    if sp.service is None && sp.port >= 49152 {
        ServiceInfo { service: Some("Dynamic/RPC"@), ..sp }
    } else {
        sp
    }
}

/// A record with a volunteered banner line folded in: the service tightened from its prefix, the
/// product and version read from it, and the line kept as the banner.
pub open spec fn with_banner(sp: ServiceInfo, line: Seq<char>) -> ServiceInfo {
    let pv = banner_product_spec(line, sp.product, sp.version);
    ServiceInfo {
        service: match banner_service(upper_seq(line)) {
            Some(name) => Some(name),
            None => sp.service,
        },
        product: pv.0,
        version: pv.1,
        banner: Some(line),
        ..sp
    }
}

/// One step of the identification: the record and stage after the awaited probe's outcome.
/// An outcome of another kind than the stage awaits leaves everything as it was.
pub open spec fn identify_step(sp: ServiceInfo, stage: IdentifyStage, e: ProbeOutcome) -> (ServiceInfo, IdentifyStage) {
    match (stage, e) {
        (IdentifyStage::Connecting, ProbeOutcome::Connected(ok)) => if !ok {
            (sp, IdentifyStage::Done)
        } else if tls_first_port(sp.port) {
            (sp, IdentifyStage::TlsProbing)
        } else {
            (sp, IdentifyStage::ReadingBanner)
        },
        (IdentifyStage::TlsProbing, ProbeOutcome::Http(h)) => (with_reply(sp, h, "HTTPS"@), IdentifyStage::Done),
        (IdentifyStage::ReadingBanner, ProbeOutcome::Banner(bytes)) => {
            let line = first_line_text_spec(utf8_lossy(bytes));
            if bytes.len() == 0 || line.len() == 0 {
                (sp, IdentifyStage::HttpProbing)
            } else {
                (finished(with_banner(sp, line)), IdentifyStage::Done)
            }
        },
        (IdentifyStage::HttpProbing, ProbeOutcome::Http(h)) => match h {
            Some(_) => (finished(with_reply(sp, h, "HTTP"@)), IdentifyStage::Done),
            None => (sp, IdentifyStage::Reconnecting),
        },
        (IdentifyStage::Reconnecting, ProbeOutcome::Connected(ok)) => if ok {
            (sp, IdentifyStage::RetryTlsProbing)
        } else {
            (finished(sp), IdentifyStage::Done)
        },
        (IdentifyStage::RetryTlsProbing, ProbeOutcome::Http(h)) => (finished(with_reply(sp, h, "HTTPS"@)), IdentifyStage::Done),
        _ => (sp, stage),
    }
}

/// A banner that yields a non-empty first line always ends the identification, and the line is
/// kept as the port's banner, whatever characters it holds.
pub proof fn lemma_banner_line_kept(sp: ServiceInfo, bytes: Seq<u8>)
    requires
        bytes.len() > 0,
        first_line_text_spec(utf8_lossy(bytes)).len() > 0,
    ensures
        identify_step(sp, IdentifyStage::ReadingBanner, ProbeOutcome::Banner(bytes)).1 == IdentifyStage::Done,
        identify_step(sp, IdentifyStage::ReadingBanner, ProbeOutcome::Banner(bytes)).0.banner == Some(
            first_line_text_spec(utf8_lossy(bytes)),
        ),
        identify_step(sp, IdentifyStage::ReadingBanner, ProbeOutcome::Banner(bytes)).0.port == sp.port,
{
}

/// The record and stage after a run of probe outcomes, each folded in by [`identify_step`].
pub open spec fn run_from(sp: ServiceInfo, stage: IdentifyStage, events: Seq<ProbeOutcome>) -> (ServiceInfo, IdentifyStage)
    decreases events.len(),
{
    if events.len() == 0 {
        (sp, stage)
    } else {
        let next = identify_step(sp, stage, events[0]);
        run_from(next.0, next.1, events.drop_first())
    }
}

/// The identification of `port` after a run of probe outcomes from the start.
pub open spec fn identify_run(port: u16, events: Seq<ProbeOutcome>) -> (ServiceInfo, IdentifyStage) {
    run_from(fresh_record(port), IdentifyStage::Connecting, events)
}

/// A run split in two is the second part run from where the first part left off.
pub proof fn lemma_run_split(sp: ServiceInfo, stage: IdentifyStage, a: Seq<ProbeOutcome>, b: Seq<ProbeOutcome>)
    ensures
        run_from(sp, stage, a + b) == run_from(run_from(sp, stage, a).0, run_from(sp, stage, a).1, b),
    decreases a.len(),
{
    if a.len() > 0 {
        let next = identify_step(sp, stage, a[0]);
        assert((a + b).drop_first() =~= a.drop_first() + b);
        assert((a + b)[0] == a[0]);
        lemma_run_split(next.0, next.1, a.drop_first(), b);
    } else {
        assert(a + b =~= b);
    }
}

/// Once identification is over, further outcomes change nothing.
pub proof fn lemma_done_is_final(sp: ServiceInfo, events: Seq<ProbeOutcome>)
    ensures
        run_from(sp, IdentifyStage::Done, events) == (sp, IdentifyStage::Done),
    decreases events.len(),
{
    if events.len() > 0 {
        lemma_done_is_final(sp, events.drop_first());
    }
}

/// Every record a run reaches is for the port it started with.
proof fn lemma_run_keeps_port(sp: ServiceInfo, stage: IdentifyStage, events: Seq<ProbeOutcome>)
    ensures
        run_from(sp, stage, events).0.port == sp.port,
    decreases events.len(),
{
    if events.len() > 0 {
        let next = identify_step(sp, stage, events[0]);
        lemma_run_keeps_port(next.0, next.1, events.drop_first());
    }
}

/// What holds of every state after a successful first connect of `port`: the record is the
/// port's, the run never waits for a first connect again, a TLS-first stage only comes for a
/// TLS-first port, and a finished identification of a port in the dynamic range (49152 and up)
/// went through the last resort ([`finished`]): named `Dynamic/RPC` unless a probe named it.
pub open spec fn connected_invariant(port: u16, sp: ServiceInfo, stage: IdentifyStage) -> bool {
    &&& sp.port == port
    &&& stage != IdentifyStage::Connecting
    &&& stage == IdentifyStage::TlsProbing ==> tls_first_port(port)
    &&& (stage == IdentifyStage::Done && port >= 49152) ==> exists|x: ServiceInfo|
        x.port == port && sp == #[trigger] finished(x)
}

proof fn lemma_connected_invariant(port: u16, sp: ServiceInfo, stage: IdentifyStage, events: Seq<ProbeOutcome>)
    requires
        connected_invariant(port, sp, stage),
    ensures
        connected_invariant(port, run_from(sp, stage, events).0, run_from(sp, stage, events).1),
    decreases events.len(),
{
    if events.len() > 0 {
        let next = identify_step(sp, stage, events[0]);
        assert(connected_invariant(port, next.0, next.1));
        lemma_connected_invariant(port, next.0, next.1, events.drop_first());
    }
}

/// Over a whole identification run of `port`, whatever the probes answer: the record stays the
/// port's; a first connect that fails ends the run with the well-known record; a non-empty
/// banner line read while waiting for one is kept as the banner and ends the run; and once a
/// connect succeeded, a finished identification of a port in the dynamic range (49152 and up)
/// names the service: `Dynamic/RPC` when no probe named it.
pub proof fn lemma_identification_run(port: u16, events: Seq<ProbeOutcome>, i: int)
    ensures
        identify_run(port, events).0.port == port,
        events.len() > 0 && events[0] == ProbeOutcome::Connected(false) ==> identify_run(port, events) == (
            fresh_record(port),
            IdentifyStage::Done,
        ),
        (0 <= i < events.len() && identify_run(port, events.take(i)).1 == IdentifyStage::Connecting
            && events[i] == ProbeOutcome::Connected(true) && identify_run(port, events).1
            == IdentifyStage::Done && port >= 49152) ==> identify_run(port, events).0.service is Some
            && exists|x: ServiceInfo|
            x.port == port && identify_run(port, events).0 == #[trigger] finished(x) && (x.service is None
                ==> identify_run(port, events).0.service == Some("Dynamic/RPC"@)),
        (0 <= i < events.len() && identify_run(port, events.take(i)).1 == IdentifyStage::ReadingBanner
            && events[i] is Banner && events[i]->Banner_0.len() > 0 && first_line_text_spec(
            utf8_lossy(events[i]->Banner_0),
        ).len() > 0) ==> (identify_run(port, events).1
            == IdentifyStage::Done && identify_run(port, events).0.banner == Some(
            first_line_text_spec(utf8_lossy(events[i]->Banner_0)),
        )),
{
    let start = fresh_record(port);
    lemma_run_keeps_port(start, IdentifyStage::Connecting, events);
    if events.len() > 0 && events[0] == ProbeOutcome::Connected(false) {
        lemma_done_is_final(start, events.drop_first());
    }
    if 0 <= i < events.len() {
        let pre = events.take(i);
        let post = events.skip(i + 1);
        let rest = seq![events[i]] + post;
        assert(events =~= pre + rest);
        assert(rest[0] == events[i]);
        assert(rest.drop_first() =~= post);
        lemma_run_split(start, IdentifyStage::Connecting, pre, rest);
        let mid = run_from(start, IdentifyStage::Connecting, pre);
        lemma_run_keeps_port(start, IdentifyStage::Connecting, pre);
        let after = identify_step(mid.0, mid.1, events[i]);
        if mid.1 == IdentifyStage::Connecting && events[i] == ProbeOutcome::Connected(true) {
            assert(connected_invariant(port, after.0, after.1));
            lemma_connected_invariant(port, after.0, after.1, post);
        }
        if mid.1 == IdentifyStage::ReadingBanner {
            if let ProbeOutcome::Banner(bytes) = events[i] {
                if bytes.len() > 0 && first_line_text_spec(utf8_lossy(bytes)).len() > 0 {
                    lemma_done_is_final(after.0, post);
                }
            }
        }
    }
}

fn fold_reply(sp: &mut ServicePort, h: Option<HttpProbe>, label: &str)
    ensures
        final(sp)@ == with_reply(old(sp)@, match h {
            Some(p) => Some(p@),
            None => None,
        }, label@),
{
    match h {
        Some(http) => {
            if sp.service.is_none() {
                sp.service = Some(label.to_owned());
            }
            apply_http(sp, http);
        },
        None => {},
    }
}

fn finish(sp: &mut ServicePort)
    ensures
        final(sp)@ == finished(old(sp)@),
{
    if sp.service.is_none() && sp.port >= 49152 {
        sp.service = Some("Dynamic/RPC".to_owned());
    }
}

impl Identification {
    /// Start identifying an open port: its well-known name, waiting for the connect.
    pub fn start(port: u16) -> (r: Self)
        ensures
            r.service@ == fresh_record(port),
            r.stage == IdentifyStage::Connecting,
    {
        let name = match well_known(port) {
            Some(n) => Some(n.to_owned()),
            None => None,
        };
        Identification {
            service: ServicePort {
                port,
                service: name,
                product: None,
                version: None,
                title: None,
                banner: None,
            },
            stage: IdentifyStage::Connecting,
        }
    }

    /// Fold in the outcome of the probe the current stage asked for.
    pub fn step(&mut self, event: ProbeEvent)
        ensures
            (final(self).service@, final(self).stage) == identify_step(
                old(self).service@,
                old(self).stage,
                event@,
            ),
    {
        match (self.stage, event) {
            (IdentifyStage::Connecting, ProbeEvent::Connected(ok)) => {
                if !ok {
                    self.stage = IdentifyStage::Done;
                } else if is_tls_port(self.service.port) {
                    self.stage = IdentifyStage::TlsProbing;
                } else {
                    self.stage = IdentifyStage::ReadingBanner;
                }
            },
            (IdentifyStage::TlsProbing, ProbeEvent::Http(h)) => {
                fold_reply(&mut self.service, h, "HTTPS");
                self.stage = IdentifyStage::Done;
            },
            (IdentifyStage::ReadingBanner, ProbeEvent::Banner(bytes)) => {
                let line = if bytes.len() > 0 {
                    first_line(bytes.as_slice())
                } else {
                    String::new()
                };
                if bytes.len() == 0 || line.as_str().is_empty() {
                    self.stage = IdentifyStage::HttpProbing;
                } else {
                    refine_service(&mut self.service.service, line.as_str());
                    banner_product(line.as_str(), &mut self.service.product, &mut self.service.version);
                    self.service.banner = Some(line);
                    finish(&mut self.service);
                    self.stage = IdentifyStage::Done;
                }
            },
            (IdentifyStage::HttpProbing, ProbeEvent::Http(h)) => {
                if h.is_some() {
                    fold_reply(&mut self.service, h, "HTTP");
                    finish(&mut self.service);
                    self.stage = IdentifyStage::Done;
                } else {
                    self.stage = IdentifyStage::Reconnecting;
                }
            },
            (IdentifyStage::Reconnecting, ProbeEvent::Connected(ok)) => {
                if ok {
                    self.stage = IdentifyStage::RetryTlsProbing;
                } else {
                    finish(&mut self.service);
                    self.stage = IdentifyStage::Done;
                }
            },
            (IdentifyStage::RetryTlsProbing, ProbeEvent::Http(h)) => {
                fold_reply(&mut self.service, h, "HTTPS");
                finish(&mut self.service);
                self.stage = IdentifyStage::Done;
            },
            _ => {},
        }
    }
}

/// The record of a port whose identification ran out of time: its well-known name only.
pub fn timed_out(port: u16) -> (r: ServicePort)
    ensures
        r@ == fresh_record(port),
{
    Identification::start(port).service
}

// ---- ordering -------------------------------------------------------------------------------

/// Records listed by ascending port.
pub open spec fn by_port(s: Seq<ServicePort>) -> bool {
    forall|i: int, j: int| 0 <= i < j < s.len() ==> (#[trigger] s[i]).port <= (#[trigger] s[j]).port
}

/// No port has two records.
pub open spec fn distinct_ports(s: Seq<ServicePort>) -> bool {
    forall|i: int, j: int| 0 <= i < j < s.len() ==> (#[trigger] s[i]).port != (#[trigger] s[j]).port
}

/// Records listed by strictly ascending port.
pub open spec fn strictly_by_port(s: Seq<ServicePort>) -> bool {
    forall|i: int, j: int| 0 <= i < j < s.len() ==> (#[trigger] s[i]).port < (#[trigger] s[j]).port
}

/// The ports of a list of records, in order.
pub open spec fn ports_of(s: Seq<ServicePort>) -> Seq<u16> {
    s.map_values(|sp: ServicePort| sp.port)
}

/// A host's scan lists exactly its open ports, strictly ascending: when the records gathered
/// carry each of the (distinct) open ports exactly once, as one identification per open port
/// gives them, their order by [`sort_by_port`] is strictly ascending and holds each open port.
pub proof fn lemma_host_scan_ordered(open: Seq<u16>, gathered: Seq<ServicePort>, r: Seq<ServicePort>)
    requires
        open.no_duplicates(),
        ports_of(gathered).to_multiset() == open.to_multiset(),
        r.to_multiset() == gathered.to_multiset(),
        by_port(r),
    ensures
        strictly_by_port(r),
        r.len() == open.len(),
        forall|i: int| 0 <= i < r.len() ==> open.contains((#[trigger] r[i]).port),
        forall|q: u16| open.contains(q) ==> exists|i: int| 0 <= i < r.len() && (#[trigger] r[i]).port == q,
{
    broadcast use vstd::seq_lib::group_to_multiset_ensures;
    let g = ports_of(gathered);
    open.lemma_multiset_has_no_duplicates();
    g.lemma_multiset_has_no_duplicates_conv();
    assert(gathered.no_duplicates()) by {
        assert forall|i: int, j: int| 0 <= i < gathered.len() && 0 <= j < gathered.len() && i != j implies gathered[i]
            != gathered[j] by {
            assert(g[i] == gathered[i].port && g[j] == gathered[j].port);
        }
    }
    gathered.lemma_multiset_has_no_duplicates();
    r.lemma_multiset_has_no_duplicates_conv();
    assert forall|i: int, j: int| 0 <= i < j < r.len() implies (#[trigger] r[i]).port < (#[trigger] r[j]).port by {
        assert(r[i] != r[j]);
        vstd::seq_lib::to_multiset_contains(r, r[i]);
        vstd::seq_lib::to_multiset_contains(r, r[j]);
        vstd::seq_lib::to_multiset_contains(gathered, r[i]);
        vstd::seq_lib::to_multiset_contains(gathered, r[j]);
        let a = choose|a: int| 0 <= a < gathered.len() && gathered[a] == r[i];
        let b = choose|b: int| 0 <= b < gathered.len() && gathered[b] == r[j];
        assert(a != b);
        assert(g[a] == r[i].port && g[b] == r[j].port);
        assert(g[a] != g[b]);
    }
    vstd::seq_lib::to_multiset_len(r);
    vstd::seq_lib::to_multiset_len(gathered);
    vstd::seq_lib::to_multiset_len(g);
    vstd::seq_lib::to_multiset_len(open);
    assert(r.len() == gathered.len() && g.len() == gathered.len() && open.len() == g.len());
    assert forall|i: int| 0 <= i < r.len() implies open.contains((#[trigger] r[i]).port) by {
        vstd::seq_lib::to_multiset_contains(r, r[i]);
        vstd::seq_lib::to_multiset_contains(gathered, r[i]);
        let a = choose|a: int| 0 <= a < gathered.len() && gathered[a] == r[i];
        assert(g[a] == r[i].port);
        vstd::seq_lib::to_multiset_contains(g, r[i].port);
        vstd::seq_lib::to_multiset_contains(open, r[i].port);
    }
    assert forall|q: u16| open.contains(q) implies exists|i: int| 0 <= i < r.len() && (#[trigger] r[i]).port == q by {
        vstd::seq_lib::to_multiset_contains(open, q);
        vstd::seq_lib::to_multiset_contains(g, q);
        let a = choose|a: int| 0 <= a < g.len() && g[a] == q;
        vstd::seq_lib::to_multiset_contains(gathered, gathered[a]);
        vstd::seq_lib::to_multiset_contains(r, gathered[a]);
        let i = choose|i: int| 0 <= i < r.len() && r[i] == gathered[a];
        assert(r[i].port == q);
    }
}

/// The records ordered by port; the same records, each as often as before. Records of distinct
/// ports come out strictly ascending.
pub fn sort_by_port(services: Vec<ServicePort>) -> (r: Vec<ServicePort>)
    ensures
        r@.to_multiset() == services@.to_multiset(),
        by_port(r@),
        distinct_ports(services@) ==> strictly_by_port(r@),
{
    broadcast use vstd::multiset::group_multiset_axioms;
    broadcast use vstd::seq_lib::group_to_multiset_ensures;
    let ghost all = services@;
    let mut rest = services;
    let mut out: Vec<ServicePort> = Vec::new();
    proof {
        assert(out@.to_multiset() =~= vstd::multiset::Multiset::empty());
        assert(rest@ =~= all.take(rest.len() as int));
    }
    while rest.len() > 0
        invariant
            out@.to_multiset().add(rest@.to_multiset()) == all.to_multiset(),
            by_port(out@),
            rest@ == all.take(rest.len() as int),
            rest.len() <= all.len(),
            distinct_ports(all) ==> strictly_by_port(out@),
            distinct_ports(all) ==> forall|j: int, m: int|
                0 <= j < out@.len() && 0 <= m < rest@.len() ==> (#[trigger] out@[j]).port != (#[trigger] all[m]).port,
        decreases rest.len(),
    {
        let ghost before_rest = rest@;
        let s = rest.pop().unwrap();
        proof {
            assert(before_rest =~= rest@.push(s));
            vstd::seq_lib::to_multiset_build(rest@, s);
            assert(rest@ =~= all.take(rest.len() as int));
            assert(s == all[rest.len() as int]);
        }
        let mut k: usize = 0;
        while k < out.len() && out[k].port < s.port
            invariant
                k <= out.len(),
                forall|j: int| 0 <= j < k ==> (#[trigger] out@[j]).port < s.port,
            decreases out.len() - k,
        {
            k += 1;
        }
        let ghost before_out = out@;
        out.insert(k, s);
        proof {
            vstd::seq_lib::to_multiset_insert(before_out, k as int, s);
            assert(out@.to_multiset().add(rest@.to_multiset()) =~= all.to_multiset());
            assert forall|i: int, j: int| 0 <= i < j < out@.len() implies (#[trigger] out@[i]).port
                <= (#[trigger] out@[j]).port by {
                if j < k {
                    assert(out@[i] == before_out[i] && out@[j] == before_out[j]);
                } else if j == k {
                    assert(out@[i] == before_out[i]);
                } else if i < k {
                    assert(out@[i] == before_out[i] && out@[j] == before_out[j - 1]);
                    assert(before_out[k as int].port >= s.port);
                } else if i == k {
                    assert(out@[j] == before_out[j - 1]);
                    assert(before_out[k as int].port >= s.port);
                } else {
                    assert(out@[i] == before_out[i - 1] && out@[j] == before_out[j - 1]);
                }
            }
            if distinct_ports(all) {
                let n = rest.len() as int;
                if k < before_out.len() {
                    assert(before_out[k as int].port != all[n].port);
                }
                assert forall|i: int, j: int| 0 <= i < j < out@.len() implies (#[trigger] out@[i]).port
                    < (#[trigger] out@[j]).port by {
                    if j < k {
                        assert(out@[i] == before_out[i] && out@[j] == before_out[j]);
                    } else if j == k {
                        assert(out@[i] == before_out[i]);
                    } else if i < k {
                        assert(out@[i] == before_out[i] && out@[j] == before_out[j - 1]);
                        assert(before_out[k as int].port > s.port);
                    } else if i == k {
                        assert(out@[j] == before_out[j - 1]);
                        assert(before_out[k as int].port > s.port);
                    } else {
                        assert(out@[i] == before_out[i - 1] && out@[j] == before_out[j - 1]);
                    }
                }
                assert forall|j: int, m: int| 0 <= j < out@.len() && 0 <= m < rest@.len() implies (
                #[trigger] out@[j]).port != (#[trigger] all[m]).port by {
                    if j < k {
                        assert(out@[j] == before_out[j]);
                    } else if j == k {
                        assert(m < n);
                    } else {
                        assert(out@[j] == before_out[j - 1]);
                    }
                }
            }
        }
    }
    proof {
        assert(rest@.to_multiset() =~= vstd::multiset::Multiset::empty());
        assert(out@.to_multiset() =~= all.to_multiset());
    }
    out
}

} // verus!
