use homelab_utils::model::ServicePort;
use homelab_utils::portscan::{
    any_contains, apply_http, assign, banner_product, collapse_whitespace, common_ports,
    contains_ci, decode_entities, extract_title, fingerprint, first_line, has_subsequence,
    is_tls_port, parse_http, parse_http_probe, refine_service, split_product_version,
    strip_prefix_ci, version_prefix, well_known, HttpProbe,
};

fn blank_probe() -> HttpProbe {
    HttpProbe {
        summary: String::new(),
        title: None,
        server_product: None,
        server_version: None,
        server_header: None,
        powered_by: None,
        cookie_names: Vec::new(),
        www_authenticate: None,
    }
}

#[test]
fn well_known_names_common_ports() {
    assert_eq!(well_known(8006), Some("Proxmox VE"));
    assert_eq!(well_known(32400), Some("Plex"));
    assert_eq!(well_known(2179), Some("Hyper-V VMConnect"));
    assert_eq!(well_known(4317), Some("OTLP/gRPC"));
    assert_eq!(well_known(16686), Some("Jaeger"));
    // 3000 must not assert "Grafana" — it's ambiguous and identified by fingerprint instead.
    assert_eq!(well_known(3000), Some("HTTP"));
    assert_eq!(well_known(65000), None);
}

#[test]
fn fingerprint_names_framework_via_powered_by() {
    let mut p = blank_probe();
    p.powered_by = Some("Next.js".into());
    assert_eq!(fingerprint(&p).map(|f| f.product), Some("Next.js"));

    // A specific app still wins over the generic framework signal.
    let mut p = blank_probe();
    p.title = Some("Grafana".into());
    p.powered_by = Some("Express".into());
    assert_eq!(fingerprint(&p).map(|f| f.product), Some("Grafana"));
}

#[test]
fn parses_http_server_header() {
    let resp = b"HTTP/1.1 200 OK\r\nServer: nginx/1.25\r\nContent-Type: text/html\r\n\r\n";
    assert_eq!(
        parse_http(resp).as_deref(),
        Some("HTTP/1.1 200 OK · nginx/1.25")
    );
    assert!(parse_http(b"SSH-2.0-OpenSSH_9.6\r\n").is_none());
}

#[test]
fn refines_service_from_banner() {
    let mut s = None;
    refine_service(&mut s, "SSH-2.0-OpenSSH_9.6p1");
    assert_eq!(s.as_deref(), Some("SSH"));
    let mut s2 = Some("HTTP".to_string());
    refine_service(&mut s2, "220 myftp FTP server ready");
    assert_eq!(s2.as_deref(), Some("FTP"));
}

#[test]
fn extract_title_basic_and_attributes() {
    assert_eq!(
        extract_title("<title>Grafana</title>").as_deref(),
        Some("Grafana")
    );
    assert_eq!(
        extract_title("<TITLE lang=\"en\">Proxmox Virtual Environment</TITLE>").as_deref(),
        Some("Proxmox Virtual Environment")
    );
}

#[test]
fn extract_title_decodes_entities_and_collapses_whitespace() {
    assert_eq!(
        extract_title("<title>Tom &amp; Jerry &lt;3</title>").as_deref(),
        Some("Tom & Jerry <3")
    );
    assert_eq!(
        extract_title("<title>\n  Home\tAssistant  </title>").as_deref(),
        Some("Home Assistant")
    );
}

#[test]
fn extract_title_absent_or_empty() {
    assert_eq!(extract_title("<html><body>no title</body></html>"), None);
    assert_eq!(extract_title("<title>   </title>"), None);
}

#[test]
fn extract_title_caps_length() {
    let long = format!("<title>{}</title>", "x".repeat(200));
    assert_eq!(extract_title(&long).map(|t| t.chars().count()), Some(120));
}

#[test]
fn split_product_version_handles_separators() {
    assert_eq!(
        split_product_version("nginx/1.25.3"),
        (Some("nginx".into()), Some("1.25.3".into()))
    );
    assert_eq!(
        split_product_version("OpenSSH_9.6p1"),
        (Some("OpenSSH".into()), Some("9.6p1".into()))
    );
    assert_eq!(
        split_product_version("cloudflare"),
        (Some("cloudflare".into()), None)
    );
}

#[test]
fn banner_product_parses_ssh_and_ftp() {
    let mut p = None;
    let mut v = None;
    banner_product("SSH-2.0-OpenSSH_9.6p1 Ubuntu-3ubuntu13.5", &mut p, &mut v);
    assert_eq!(p.as_deref(), Some("OpenSSH"));
    assert_eq!(v.as_deref(), Some("9.6p1"));

    let (mut p, mut v) = (None, None);
    banner_product(
        "220 ProFTPD 1.3.8 Server (Debian) [::ffff:10.0.0.2]",
        &mut p,
        &mut v,
    );
    assert_eq!(p.as_deref(), Some("ProFTPD"));
    assert_eq!(v.as_deref(), Some("1.3.8"));

    let (mut p, mut v) = (None, None);
    banner_product("220 (vsFTPd 3.0.5)", &mut p, &mut v);
    assert_eq!(p.as_deref(), Some("vsFTPd"));
    assert_eq!(v.as_deref(), Some("3.0.5"));

    let (mut p, mut v) = (None, None);
    banner_product("220 mail.example.com ESMTP Postfix", &mut p, &mut v);
    assert_eq!(p.as_deref(), Some("Postfix"));
    assert_eq!(v, None);
}

#[test]
fn banner_product_reads_a_banner_cut_inside_a_character() {
    let mut p = Some("kept".to_string());
    let mut v = None;
    banner_product("ab日 nginx/1.25.3", &mut p, &mut v);
    assert_eq!(p.as_deref(), Some("nginx"));
    assert_eq!(v.as_deref(), Some("1.25.3"));
    let mut p = Some("kept".to_string());
    let mut v = Some("1".to_string());
    banner_product("SS€", &mut p, &mut v);
    assert_eq!(p.as_deref(), Some("kept"));
    assert_eq!(v.as_deref(), Some("1"));
}

#[test]
fn banner_product_leaves_unrelated_lines_untouched() {
    let mut p = None;
    let mut v = None;
    banner_product("* OK [CAPABILITY IMAP4rev1]", &mut p, &mut v);
    assert_eq!(p, None);
    assert_eq!(v, None);
}

#[test]
fn fingerprint_matches_title_cookie_and_server() {
    let mut p = blank_probe();
    p.title = Some("Grafana".into());
    assert_eq!(fingerprint(&p).map(|f| f.product), Some("Grafana"));

    let mut p = blank_probe();
    p.cookie_names = vec!["PVEAuthCookie".into()];
    assert_eq!(fingerprint(&p).map(|f| f.product), Some("Proxmox VE"));

    let mut p = blank_probe();
    p.server_header = Some("Jellyfin".into());
    assert_eq!(fingerprint(&p).map(|f| f.product), Some("Jellyfin"));

    assert!(fingerprint(&blank_probe()).is_none());
}

#[test]
fn parse_http_probe_extracts_title_headers_and_fingerprints() {
    let resp = b"HTTP/1.1 200 OK\r\nServer: nginx/1.25.3\r\nSet-Cookie: PVEAuthCookie=abc123; path=/; secure\r\nContent-Type: text/html\r\n\r\n<html><head><title>Proxmox Virtual Environment</title></head></html>";
    let p = parse_http_probe(resp).unwrap();
    assert_eq!(p.title.as_deref(), Some("Proxmox Virtual Environment"));
    assert_eq!(p.server_product.as_deref(), Some("nginx"));
    assert_eq!(p.server_version.as_deref(), Some("1.25.3"));
    assert!(p.cookie_names.iter().any(|c| c == "PVEAuthCookie"));
    assert_eq!(fingerprint(&p).map(|f| f.product), Some("Proxmox VE"));
}

#[test]
fn apply_http_prefers_fingerprint_over_server_header() {
    let mut sp = ServicePort {
        port: 3000,
        service: Some("HTTP".into()),
        ..Default::default()
    };
    let mut http = blank_probe();
    http.summary = "HTTP/1.1 302 Found · nginx".into();
    http.title = Some("Grafana".into());
    http.server_header = Some("nginx".into());
    http.server_product = Some("nginx".into());
    apply_http(&mut sp, http);
    assert_eq!(sp.product.as_deref(), Some("Grafana"));
    assert_eq!(sp.title.as_deref(), Some("Grafana"));
}

#[test]
fn apply_http_falls_back_to_server_header() {
    let mut sp = ServicePort {
        port: 8080,
        version: Some("9".into()),
        ..Default::default()
    };
    let mut http = blank_probe();
    http.summary = "HTTP/1.1 200 OK · nginx/1.25".into();
    http.server_product = Some("nginx".into());
    http.server_version = Some("1.25".into());
    apply_http(&mut sp, http);
    assert_eq!(sp.product.as_deref(), Some("nginx"));
    assert_eq!(sp.version.as_deref(), Some("9"));
    assert_eq!(sp.banner.as_deref(), Some("HTTP/1.1 200 OK · nginx/1.25"));
    assert_eq!(sp.title, None);
}

#[test]
fn header_edge_cases() {
    let resp = b"HTTP/1.0 401 Unauthorized\r\nWWW-Authenticate: Basic realm=\"Synology\"\r\nX-Powered-By: PHP/8.1\r\nServer: \r\n\r\n";
    let p = parse_http_probe(resp).unwrap();
    assert_eq!(p.server_header, None);
    assert_eq!(p.powered_by.as_deref(), Some("PHP/8.1"));
    assert_eq!(fingerprint(&p).map(|f| f.product), Some("Synology DSM"));
    assert_eq!(p.summary, "HTTP/1.0 401 Unauthorized");
    assert!(parse_http_probe(b"").is_none());
}

#[test]
fn small_helpers() {
    assert_eq!(first_line(b"  hello world  \r\nnext"), "hello world");
    assert_eq!(first_line(&[b'a'; 300]).len(), 120);
    assert!(is_tls_port(8006) && is_tls_port(443) && !is_tls_port(80));
    assert_eq!(decode_entities("a&amp;lt;b"), "a&lt;b");
    assert_eq!(collapse_whitespace("  a \t b\n"), "a b");
    assert_eq!(version_prefix(" 2.4.57-"), Some("2.4.57".to_string()));
    assert_eq!(version_prefix("v2"), None);
    assert!(any_contains("grafana ui", &["", "graf"]));
    assert!(!any_contains("grafana ui", &[""]));
    assert!(has_subsequence(b"ab\r\n\r\ncd", b"\r\n\r\n"));
    assert!(!has_subsequence(b"abc", b""));
    assert!(contains_ci(b"<TITLE>x</Title>", b"</title>"));
    assert!(!contains_ci(b"<TITLE>", b"</title>"));
    assert_eq!(strip_prefix_ci("ssh-2.0", "SSH-"), Some("2.0".to_string()));
    assert_eq!(strip_prefix_ci("SS", "SSH-"), None);
    assert_eq!(strip_prefix_ci("SS€x", "SSH-"), None);
    assert_eq!(strip_prefix_ci("SSHé", "SSH-"), None);
    assert_eq!(strip_prefix_ci("sSh-é", "SSH-"), Some("é".to_string()));
    assert_eq!(strip_prefix_ci("x", ""), Some("x".to_string()));
    assert_eq!(strip_prefix_ci("ÉTÉ-x", "été-"), None);
    assert_eq!(strip_prefix_ci("été-x", "été-"), Some("x".to_string()));
    let mut t = Some("a".to_string());
    assign(&mut t, None);
    assert_eq!(t.as_deref(), Some("a"));
    assign(&mut t, Some("b".into()));
    assert_eq!(t.as_deref(), Some("b"));
    assert_eq!(common_ports().len(), 72);
}

#[test]
fn banner_product_generic_token() {
    let (mut p, mut v) = (None, Some("old".to_string()));
    banner_product("+OK Redis/7.2.4 ready", &mut p, &mut v);
    assert_eq!(p.as_deref(), Some("Redis"));
    assert_eq!(v.as_deref(), Some("7.2.4"));
    let (mut p, mut v) = (Some("x".to_string()), None);
    banner_product("SSH-2.0-dropbear_2022.83", &mut p, &mut v);
    assert_eq!(p.as_deref(), Some("dropbear"));
    assert_eq!(v.as_deref(), Some("2022.83"));
}
