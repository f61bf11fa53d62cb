use homelab_utils::identify::{
    scan_plan, sort_by_port, timed_out, worker_count, IdentifyStage, Identification, PortScanConfig,
    ProbeEvent,
};
use homelab_utils::model::ServicePort;
use homelab_utils::portscan::HttpProbe;

fn probe_reply(summary: &str) -> HttpProbe {
    HttpProbe {
        summary: summary.to_string(),
        title: None,
        server_product: None,
        server_version: None,
        server_header: None,
        powered_by: None,
        cookie_names: Vec::new(),
        www_authenticate: None,
    }
}

#[test]
fn port_scan_defaults_and_plans() {
    let c = PortScanConfig::default();
    assert_eq!((c.concurrency, c.connect_timeout_ms, c.banner_timeout_ms), (400, 250, 400));
    let (ports, c) = scan_plan(true);
    assert_eq!(ports.len(), 65535);
    assert_eq!(ports[0], 1);
    assert_eq!(ports[65534], 65535);
    assert_eq!((c.concurrency, c.connect_timeout_ms, c.banner_timeout_ms), (800, 150, 400));
    let (ports, c) = scan_plan(false);
    assert_eq!(ports.len(), 72);
    assert_eq!(ports[0], 21);
    assert_eq!(c.concurrency, 400);
    assert_eq!(worker_count(400, 10), 10);
    assert_eq!(worker_count(0, 10), 1);
    assert_eq!(worker_count(8, 0), 1);
    assert_eq!(worker_count(8, 100), 8);
}

#[test]
fn ssh_banner_identifies_service_and_product() {
    let mut id = Identification::start(22);
    assert_eq!(id.service.service.as_deref(), Some("SSH"));
    id.step(ProbeEvent::Connected(true));
    assert_eq!(id.stage, IdentifyStage::ReadingBanner);
    id.step(ProbeEvent::Banner(b"SSH-2.0-OpenSSH_9.6p1 Ubuntu-3\r\nmore".to_vec()));
    assert_eq!(id.stage, IdentifyStage::Done);
    assert_eq!(id.service.banner.as_deref(), Some("SSH-2.0-OpenSSH_9.6p1 Ubuntu-3"));
    assert_eq!(id.service.product.as_deref(), Some("OpenSSH"));
    assert_eq!(id.service.version.as_deref(), Some("9.6p1"));
}

#[test]
fn tls_port_probes_https_only() {
    let mut id = Identification::start(8443);
    id.step(ProbeEvent::Connected(true));
    assert_eq!(id.stage, IdentifyStage::TlsProbing);
    let mut reply = probe_reply("200 OK · nginx/1.25.3");
    reply.server_product = Some("nginx".to_string());
    reply.server_version = Some("1.25.3".to_string());
    id.step(ProbeEvent::Http(Some(reply)));
    assert_eq!(id.stage, IdentifyStage::Done);
    assert_eq!(id.service.banner.as_deref(), Some("200 OK · nginx/1.25.3"));
    assert_eq!(id.service.product.as_deref(), Some("nginx"));
    assert_eq!(id.service.version.as_deref(), Some("1.25.3"));
}

#[test]
fn silent_port_tries_http_then_https() {
    let mut id = Identification::start(50000);
    assert!(id.service.service.is_none());
    id.step(ProbeEvent::Connected(true));
    id.step(ProbeEvent::Banner(Vec::new()));
    assert_eq!(id.stage, IdentifyStage::HttpProbing);
    id.step(ProbeEvent::Http(None));
    assert_eq!(id.stage, IdentifyStage::Reconnecting);
    id.step(ProbeEvent::Connected(true));
    assert_eq!(id.stage, IdentifyStage::RetryTlsProbing);
    id.step(ProbeEvent::Http(Some(probe_reply("401 Unauthorized"))));
    assert_eq!(id.stage, IdentifyStage::Done);
    assert_eq!(id.service.service.as_deref(), Some("HTTPS"));
    assert_eq!(id.service.banner.as_deref(), Some("401 Unauthorized"));
}

#[test]
fn plain_http_reply_names_http() {
    let mut id = Identification::start(9999);
    id.step(ProbeEvent::Connected(true));
    id.step(ProbeEvent::Banner(b"\r\n".to_vec()));
    assert_eq!(id.stage, IdentifyStage::HttpProbing);
    id.step(ProbeEvent::Http(Some(probe_reply("200 OK"))));
    assert_eq!(id.service.service.as_deref(), Some("HTTP"));
}

#[test]
fn unidentified_dynamic_port_gets_range_name() {
    let mut id = Identification::start(50000);
    id.step(ProbeEvent::Connected(true));
    id.step(ProbeEvent::Banner(Vec::new()));
    id.step(ProbeEvent::Http(None));
    id.step(ProbeEvent::Connected(false));
    assert_eq!(id.stage, IdentifyStage::Done);
    assert_eq!(id.service.service.as_deref(), Some("Dynamic/RPC"));
}

#[test]
fn refused_connect_keeps_only_the_well_known_name() {
    let mut id = Identification::start(50000);
    id.step(ProbeEvent::Connected(false));
    assert_eq!(id.stage, IdentifyStage::Done);
    assert!(id.service.service.is_none());
    let mut id = Identification::start(21);
    id.step(ProbeEvent::Connected(false));
    assert_eq!(id.service.service.as_deref(), Some("FTP"));
}

#[test]
fn banner_cut_inside_a_character_is_kept() {
    let mut id = Identification::start(2000);
    id.step(ProbeEvent::Connected(true));
    id.step(ProbeEvent::Banner("SS€".as_bytes().to_vec()));
    assert_eq!(id.stage, IdentifyStage::Done);
    assert_eq!(id.service.banner.as_deref(), Some("SS€"));
    assert!(id.service.product.is_none());
    assert!(id.service.version.is_none());
    let mut id = Identification::start(2000);
    id.step(ProbeEvent::Connected(true));
    id.step(ProbeEvent::Banner("S€x".as_bytes().to_vec()));
    assert_eq!(id.stage, IdentifyStage::Done);
    assert_eq!(id.service.banner.as_deref(), Some("S€x"));
}

#[test]
fn events_of_another_kind_change_nothing() {
    let mut id = Identification::start(22);
    id.step(ProbeEvent::Banner(b"SSH-2.0-x\r\n".to_vec()));
    assert_eq!(id.stage, IdentifyStage::Connecting);
    assert!(id.service.banner.is_none());
}

#[test]
fn timed_out_port_and_ordering() {
    let t = timed_out(22);
    assert_eq!(t.port, 22);
    assert_eq!(t.service.as_deref(), Some("SSH"));
    let mk = |p: u16| ServicePort { port: p, ..ServicePort::default() };
    let sorted = sort_by_port(vec![mk(443), mk(22), mk(8080), mk(80)]);
    let ports: Vec<u16> = sorted.iter().map(|s| s.port).collect();
    assert_eq!(ports, vec![22, 80, 443, 8080]);
}

#[test]
fn dynamic_port_is_named_after_a_connected_run() {
    let mut id = Identification::start(50000);
    id.step(ProbeEvent::Connected(true));
    id.step(ProbeEvent::Banner(Vec::new()));
    id.step(ProbeEvent::Http(None));
    id.step(ProbeEvent::Connected(false));
    assert_eq!(id.stage, IdentifyStage::Done);
    assert_eq!(id.service.port, 50000);
    assert_eq!(id.service.service.as_deref(), Some("Dynamic/RPC"));
    id.step(ProbeEvent::Connected(true));
    assert_eq!(id.stage, IdentifyStage::Done);
}

#[test]
fn records_of_distinct_ports_sort_strictly() {
    let recs: Vec<ServicePort> = [8080u16, 22, 443, 21]
        .iter()
        .map(|p| ServicePort { port: *p, ..ServicePort::default() })
        .collect();
    let sorted = sort_by_port(recs);
    let ports: Vec<u16> = sorted.iter().map(|s| s.port).collect();
    assert_eq!(ports, vec![21, 22, 443, 8080]);
}
