//! Service and application identification for open TCP ports.
//!
//! Identification has two layers: the protocol/role (`service`: HTTP, HTTPS, SSH…) and the
//! concrete application (`product`: Grafana, Proxmox VE, OpenSSH…) plus a `version` and web
//! `title` when derivable. The network probing itself (connects, TLS, reads) is done by the
//! caller; this module decides what the bytes it read mean.
use vstd::prelude::*;
use crate::model::{opt_view, ServiceInfo, ServicePort};
use crate::text::{
    append, char_is_digit, char_is_alnum, collapse_ws, collapse_ws_v, concat, contains_sub,
    contains_v, eq_v, find_char, find_char_by, find_char_v, find_sub, find_sub_v,
    first_line_of, first_line_v, first_token, first_token_v, from_chars, is_ascii_alnum,
    is_ascii_digit, lemma_find_char_by, lemma_find_char_by_at, lemma_split_nonempty,
    lemma_take_while, lemma_views_push, lines, lines_v, lit, lower_seq, lower_v, nonempty, occurs_at,
    nonempty_v, replace_all, replace_all_v, split_from, split_on, split_on_v, split_once_char, split_once_sub,
    starts_with, starts_with_v, subrange, take_chars, take_chars_v, take_while, to_chars, trim,
    trim_v, upper_seq, upper_v, views,
};

verus! {

broadcast use vstd::string::group_string_axioms;

/// A curated set of common homelab/service ports for a fast (non-full) scan.
pub open spec fn common_port_list() -> Seq<u16> {
    seq![
        21u16, 22, 23, 25, 53, 80, 110, 111, 135, 139, 143, 161, 389, 443, 445, 465, 587, 631, 993,
        995, 1080, 1433, 1521, 1883, 1900, 2049, 2179, 2375, 2376, 3000, 3001, 3128, 3306, 3389,
        4000, 4317, 4318, 5000, 5001, 5060, 5201, 5432, 5601, 5900, 5901, 6379, 7878, 8000, 8006,
        8080, 8081, 8086, 8096, 8123, 8443, 8888, 8920, 9000, 9090, 9091, 9100, 9200, 9411, 9443,
        11434, 15672, 16686, 19999, 25565, 27017, 32400, 51820,
    ]
}

/// The common homelab/service ports, in order.
pub fn common_ports() -> (r: Vec<u16>)
    ensures
        r@ == common_port_list(),
{
    let v: Vec<u16> = vec![
        21, 22, 23, 25, 53, 80, 110, 111, 135, 139, 143, 161, 389, 443, 445, 465, 587, 631, 993,
        995, 1080, 1433, 1521, 1883, 1900, 2049, 2179, 2375, 2376, 3000, 3001, 3128, 3306, 3389,
        4000, 4317, 4318, 5000, 5001, 5060, 5201, 5432, 5601, 5900, 5901, 6379, 7878, 8000, 8006,
        8080, 8081, 8086, 8096, 8123, 8443, 8888, 8920, 9000, 9090, 9091, 9100, 9200, 9411, 9443,
        11434, 15672, 16686, 19999, 25565, 27017, 32400, 51820,
    ];
    assert(v@ =~= common_port_list());
    v
}

/// The view of an optional string slice.
pub open spec fn opt_str_view(o: Option<&str>) -> Option<Seq<char>> {
    match o {
        Some(s) => Some(s@),
        None => None,
    }
}

/// Well-known port → service/application name, for the common homelab stack.
pub open spec fn well_known_name(port: u16) -> Option<Seq<char>> {
    match port {
        21 => Some("FTP"@),
        22 => Some("SSH"@),
        23 => Some("Telnet"@),
        25 | 587 | 465 => Some("SMTP"@),
        53 => Some("DNS"@),
        80 | 8080 | 8000 | 8081 => Some("HTTP"@),
        110 | 995 => Some("POP3"@),
        111 => Some("RPCbind"@),
        135 => Some("MSRPC"@),
        139 | 445 => Some("SMB"@),
        143 | 993 => Some("IMAP"@),
        161 => Some("SNMP"@),
        389 => Some("LDAP"@),
        443 | 8443 | 9443 => Some("HTTPS"@),
        631 => Some("IPP/CUPS"@),
        1433 => Some("MSSQL"@),
        1521 => Some("Oracle DB"@),
        1883 => Some("MQTT"@),
        1900 => Some("SSDP/UPnP"@),
        2049 => Some("NFS"@),
        2179 => Some("Hyper-V VMConnect"@),
        2375 | 2376 => Some("Docker API"@),
        3000 => Some("HTTP"@),
        3128 => Some("Squid Proxy"@),
        3306 => Some("MySQL/MariaDB"@),
        3389 => Some("RDP"@),
        4317 => Some("OTLP/gRPC"@),
        4318 => Some("OTLP/HTTP"@),
        5000 | 5001 => Some("HTTP (dev)"@),
        5060 => Some("SIP"@),
        5201 => Some("iperf"@),
        5432 => Some("PostgreSQL"@),
        5601 => Some("Kibana"@),
        5900 | 5901 => Some("VNC"@),
        6379 => Some("Redis"@),
        7680 => Some("Windows Delivery Optimization"@),
        7878 => Some("Radarr"@),
        8006 => Some("Proxmox VE"@),
        8086 => Some("InfluxDB"@),
        8096 | 8920 => Some("Jellyfin"@),
        8123 => Some("Home Assistant"@),
        8888 => Some("HTTP (alt)"@),
        9000 => Some("Portainer"@),
        9090 => Some("Prometheus/Cockpit"@),
        9091 => Some("Transmission"@),
        9100 => Some("Node Exporter"@),
        9200 => Some("Elasticsearch"@),
        11434 => Some("Ollama"@),
        15672 => Some("RabbitMQ (mgmt)"@),
        16686 => Some("Jaeger"@),
        19999 => Some("Netdata"@),
        25565 => Some("Minecraft"@),
        27017 => Some("MongoDB"@),
        27036 => Some("Steam"@),
        32400 => Some("Plex"@),
        51820 => Some("WireGuard"@),
        _ => None,
    }
}

/// Well-known port → service/application name, for the common homelab stack.
pub fn well_known(port: u16) -> (r: Option<&'static str>)
    ensures
        opt_str_view(r) == well_known_name(port),
{
    let name = match port {
        21 => "FTP",
        22 => "SSH",
        23 => "Telnet",
        25 | 587 | 465 => "SMTP",
        53 => "DNS",
        80 | 8080 | 8000 | 8081 => "HTTP",
        110 | 995 => "POP3",
        111 => "RPCbind",
        135 => "MSRPC",
        139 | 445 => "SMB",
        143 | 993 => "IMAP",
        161 => "SNMP",
        389 => "LDAP",
        443 | 8443 | 9443 => "HTTPS",
        631 => "IPP/CUPS",
        1433 => "MSSQL",
        1521 => "Oracle DB",
        1883 => "MQTT",
        1900 => "SSDP/UPnP",
        2049 => "NFS",
        2179 => "Hyper-V VMConnect",
        2375 | 2376 => "Docker API",
        // 3000 is ambiguous (Grafana, but also Node/Next/React dev servers) — don't assert an
        // app; a real Grafana is still identified by its title/cookie fingerprint.
        3000 => "HTTP",
        3128 => "Squid Proxy",
        3306 => "MySQL/MariaDB",
        3389 => "RDP",
        4317 => "OTLP/gRPC",
        4318 => "OTLP/HTTP",
        5000 | 5001 => "HTTP (dev)",
        5060 => "SIP",
        5201 => "iperf",
        5432 => "PostgreSQL",
        5601 => "Kibana",
        5900 | 5901 => "VNC",
        6379 => "Redis",
        7680 => "Windows Delivery Optimization",
        7878 => "Radarr",
        8006 => "Proxmox VE",
        8086 => "InfluxDB",
        8096 | 8920 => "Jellyfin",
        8123 => "Home Assistant",
        8888 => "HTTP (alt)",
        9000 => "Portainer",
        9090 => "Prometheus/Cockpit",
        9091 => "Transmission",
        9100 => "Node Exporter",
        9200 => "Elasticsearch",
        11434 => "Ollama",
        15672 => "RabbitMQ (mgmt)",
        16686 => "Jaeger",
        19999 => "Netdata",
        25565 => "Minecraft",
        27017 => "MongoDB",
        27036 => "Steam",
        32400 => "Plex",
        51820 => "WireGuard",
        _ => {
            return None;
        },
    };
    Some(name)
}

/// Ports treated as TLS-first: connect, handshake, then speak HTTP over the encrypted stream.
pub open spec fn tls_first_port(port: u16) -> bool {
    port == 443 || port == 8443 || port == 9443 || port == 8006
}

pub fn is_tls_port(port: u16) -> (r: bool)
    ensures
        r == tls_first_port(port),
{
    port == 443 || port == 8443 || port == 9443 || port == 8006
}

/// The service a banner's distinctive prefix reveals (the banner given upper-cased).
pub open spec fn banner_service(upper: Seq<char>) -> Option<Seq<char>> {
    if starts_with(upper, "SSH-"@) {
        Some("SSH"@)
    } else if starts_with(upper, "HTTP/"@) {
        Some("HTTP"@)
    } else if starts_with(upper, "RFB "@) {
        Some("VNC"@)
    } else if contains_sub(upper, "FTP"@) && starts_with(upper, "220"@) {
        Some("FTP"@)
    } else if starts_with(upper, "220"@) && (contains_sub(upper, "SMTP"@) || contains_sub(
        upper,
        "ESMTP"@,
    )) {
        Some("SMTP"@)
    } else if starts_with(upper, "-ERR"@) || contains_sub(upper, "REDIS"@) {
        Some("Redis"@)
    } else if starts_with(upper, "+OK"@) {
        Some("POP3"@)
    } else if starts_with(upper, "* OK"@) {
        Some("IMAP"@)
    } else {
        None
    }
}

fn banner_service_v(upper: &Vec<char>) -> (r: Option<&'static str>)
    ensures
        opt_str_view(r) == banner_service(upper@),
{
    if starts_with_v(upper, &lit("SSH-")) {
        Some("SSH")
    } else if starts_with_v(upper, &lit("HTTP/")) {
        Some("HTTP")
    } else if starts_with_v(upper, &lit("RFB ")) {
        Some("VNC")
    } else if contains_v(upper, &lit("FTP")) && starts_with_v(upper, &lit("220")) {
        Some("FTP")
    } else if starts_with_v(upper, &lit("220")) && (contains_v(upper, &lit("SMTP")) || contains_v(
        upper,
        &lit("ESMTP"),
    )) {
        Some("SMTP")
    } else if starts_with_v(upper, &lit("-ERR")) || contains_v(upper, &lit("REDIS")) {
        Some("Redis")
    } else if starts_with_v(upper, &lit("+OK")) {
        Some("POP3")
    } else if starts_with_v(upper, &lit("* OK")) {
        Some("IMAP")
    } else {
        None
    }
}

/// Mail greetings name their protocol: a banner starting `* OK` (in any case, and not naming
/// Redis) is IMAP, and one starting `+OK` is POP3 (unless it names Redis). A banner read as POP3
/// starts with `+OK`, and one read as IMAP starts with `* OK`.
pub proof fn lemma_mail_greetings(banner: Seq<char>)
    ensures
        starts_with(upper_seq(banner), "* OK"@) && !contains_sub(upper_seq(banner), "REDIS"@)
            ==> banner_service(upper_seq(banner)) == Some("IMAP"@),
        starts_with(upper_seq(banner), "+OK"@) && !contains_sub(upper_seq(banner), "REDIS"@)
            ==> banner_service(upper_seq(banner)) == Some("POP3"@),
        banner_service(upper_seq(banner)) == Some("POP3"@) ==> starts_with(upper_seq(banner), "+OK"@),
        banner_service(upper_seq(banner)) == Some("IMAP"@) ==> starts_with(upper_seq(banner), "* OK"@),
{
    let u = upper_seq(banner);
    reveal_strlit("* OK");
    reveal_strlit("+OK");
    reveal_strlit("SSH-");
    reveal_strlit("HTTP/");
    reveal_strlit("RFB ");
    reveal_strlit("220");
    reveal_strlit("-ERR");
    reveal_strlit("IMAP");
    reveal_strlit("POP3");
    reveal_strlit("SSH");
    reveal_strlit("HTTP");
    reveal_strlit("VNC");
    reveal_strlit("FTP");
    reveal_strlit("SMTP");
    reveal_strlit("Redis");
    assert("POP3"@[0] != "HTTP"@[0] && "POP3"@[0] != "SMTP"@[0] && "POP3"@[0] != "IMAP"@[0]);
    assert("IMAP"@[0] != "HTTP"@[0] && "IMAP"@[0] != "SMTP"@[0]);
    assert("POP3"@ != "HTTP"@ && "POP3"@ != "SMTP"@ && "POP3"@ != "IMAP"@);
    assert("IMAP"@ != "HTTP"@ && "IMAP"@ != "SMTP"@);
    assert("POP3"@.len() != "SSH"@.len() && "POP3"@.len() != "Redis"@.len());
    assert("POP3"@.len() != "VNC"@.len() && "POP3"@.len() != "FTP"@.len());
    if u.len() > 0 {
        let c = u[0];
        if starts_with(u, "SSH-"@) { assert(u.take(4)[0] == c); }
        if starts_with(u, "HTTP/"@) { assert(u.take(5)[0] == c); }
        if starts_with(u, "RFB "@) { assert(u.take(4)[0] == c); }
        if starts_with(u, "220"@) { assert(u.take(3)[0] == c); }
        if starts_with(u, "-ERR"@) { assert(u.take(4)[0] == c); }
        if starts_with(u, "+OK"@) { assert(u.take(3)[0] == c); }
        if starts_with(u, "* OK"@) { assert(u.take(4)[0] == c); }
    }
}

/// Tighten the service name from a banner's distinctive prefix: a recognised banner replaces
/// the service, anything else leaves it as it was.
pub fn refine_service(service: &mut Option<String>, banner: &str)
    ensures
        opt_view(*final(service)) == match banner_service(upper_seq(banner@)) {
            Some(name) => Some(name),
            None => opt_view(*old(service)),
        },
{
    let upper = upper_v(&to_chars(banner));
    if let Some(name) = banner_service_v(&upper) {
        *service = Some(name.to_owned());
    }
}

/// What `String::from_utf8_lossy` decodes a byte string to.
pub uninterp spec fn utf8_lossy(bytes: Seq<u8>) -> Seq<char>;

/// Decodes bytes as UTF-8, invalid sequences becoming U+FFFD (`String::from_utf8_lossy`).
/// Valid UTF-8 decodes to the text it encodes; the replacement of invalid sequences is named
/// only.
#[verifier::external_body]
pub(crate) fn decode_lossy(bytes: &[u8]) -> (r: String)
    ensures
        r@ == utf8_lossy(bytes@),
        vstd::utf8::valid_utf8(bytes@) ==> vstd::utf8::encode_utf8(r@) == bytes@,
{
    String::from_utf8_lossy(bytes).into_owned()
}

/// The first line of a reply, trimmed and capped at 120 characters.
pub open spec fn first_line_text_spec(text: Seq<char>) -> Seq<char> {
    take_chars(trim(first_line_of(text)), 120)
}

/// The first line of already-decoded text, trimmed and capped at 120 characters.
pub fn first_line_text(text: &str) -> (r: String)
    ensures
        r@ == first_line_text_spec(text@),
{
    let t = to_chars(text);
    let l = first_line_v(&t);
    let tr = trim_v(&l);
    from_chars(&take_chars_v(&tr, 120))
}

/// The first line of a byte reply, decoded leniently, trimmed and capped at 120 characters.
pub fn first_line(bytes: &[u8]) -> (r: String)
    ensures
        r@ == first_line_text_spec(utf8_lossy(bytes@)),
{
    let text = decode_lossy(bytes);
    first_line_text(text.as_str())
}


// ---- HTTP summary line --------------------------------------------------------------------------

/// The value of the first `Server:` header among `ls` (header name matched case-insensitively).
pub open spec fn server_value(ls: Seq<Seq<char>>) -> Option<Seq<char>>
    decreases ls.len(),
{
    if ls.len() == 0 {
        None
    } else {
        let l = trim(ls[0]);
        if starts_with(lower_seq(l), "server:"@) {
            Some(trim(l.skip(7)))
        } else {
            server_value(ls.drop_first())
        }
    }
}

/// `"<status> · <server>"` (or just the status) when the text is an HTTP reply.
pub open spec fn http_summary(t: Seq<char>) -> Option<Seq<char>> {
    let ls = lines(t);
    if ls.len() == 0 {
        None
    } else {
        let status = trim(ls[0]);
        if !starts_with(status, "HTTP/"@) {
            None
        } else {
            match server_value(ls) {
                Some(sv) => if sv.len() > 0 {
                    Some(status + " \u{b7} "@ + sv)
                } else {
                    Some(status)
                },
                None => Some(status),
            }
        }
    }
}

fn server_value_v(ls: &Vec<Vec<char>>) -> (r: Option<Vec<char>>)
    ensures
        match r {
            Some(v) => server_value(views(ls@)) == Some(v@),
            None => server_value(views(ls@)) is None,
        },
{
    let prefix = lit("server:");
    let mut i: usize = 0;
    assert(views(ls@).skip(0) =~= views(ls@));
    while i < ls.len()
        invariant
            i <= ls.len(),
            prefix@ == "server:"@,
            server_value(views(ls@)) == server_value(views(ls@).skip(i as int)),
        decreases ls.len() - i,
    {
        proof {
            assert(views(ls@).skip(i as int)[0] == ls@[i as int]@);
            assert(views(ls@).skip(i as int).drop_first() =~= views(ls@).skip(i + 1));
        }
        let l = trim_v(&ls[i]);
        if starts_with_v(&lower_v(&l), &prefix) {
            proof {
                reveal_strlit("server:");
                assert(l@.skip(7) =~= l@.subrange(7, l@.len() as int));
            }
            let rest = subrange(&l, 7, l.len());
            return Some(trim_v(&rest));
        }
        i += 1;
    }
    None
}

/// Summarise decoded text as `"<status> · <server>"` (or just the status), or `None` if the
/// reply isn't HTTP.
pub fn parse_http_text(text: &str) -> (r: Option<String>)
    ensures
        match r {
            Some(v) => http_summary(text@) == Some(v@),
            None => http_summary(text@) is None,
        },
{
    let t = to_chars(text);
    let ls = lines_v(&t);
    if ls.len() == 0 {
        return None;
    }
    proof {
        assert(views(ls@)[0] == ls@[0]@);
    }
    let status = trim_v(&ls[0]);
    if !starts_with_v(&status, &lit("HTTP/")) {
        return None;
    }
    match server_value_v(&ls) {
        Some(sv) => {
            if sv.len() > 0 {
                let mut out = concat(&status, &lit(" \u{b7} "));
                append(&mut out, &sv);
                Some(from_chars(&out))
            } else {
                Some(from_chars(&status))
            }
        },
        None => Some(from_chars(&status)),
    }
}

/// Summarise an HTTP reply as `"<status> · <server>"` (or just the status), or `None` if the
/// reply isn't HTTP.
pub fn parse_http(bytes: &[u8]) -> (r: Option<String>)
    ensures
        match r {
            Some(v) => http_summary(utf8_lossy(bytes@)) == Some(v@),
            None => http_summary(utf8_lossy(bytes@)) is None,
        },
{
    let text = decode_lossy(bytes);
    parse_http_text(text.as_str())
}

// ---- HTML title -------------------------------------------------------------------------------

/// The handful of HTML entities that show up in titles, `&amp;` decoded last so an
/// already-decoded `<`/`>` isn't re-interpreted.
pub open spec fn decoded_entities(s: Seq<char>) -> Seq<char> {
    let a = replace_all(s, "&lt;"@, "<"@);
    let b = replace_all(a, "&gt;"@, ">"@);
    let c = replace_all(b, "&quot;"@, "\""@);
    let d = replace_all(c, "&#39;"@, "'"@);
    let e = replace_all(d, "&#x27;"@, "'"@);
    let f = replace_all(e, "&apos;"@, "'"@);
    let g = replace_all(f, "&nbsp;"@, " "@);
    replace_all(g, "&amp;"@, "&"@)
}

pub fn decode_entities(s: &str) -> (r: String)
    ensures
        r@ == decoded_entities(s@),
{
    let v = to_chars(s);
    let a = replace_all_v(&v, &lit("&lt;"), &lit("<"));
    let b = replace_all_v(&a, &lit("&gt;"), &lit(">"));
    let c = replace_all_v(&b, &lit("&quot;"), &lit("\""));
    let d = replace_all_v(&c, &lit("&#39;"), &lit("'"));
    let e = replace_all_v(&d, &lit("&#x27;"), &lit("'"));
    let f = replace_all_v(&e, &lit("&apos;"), &lit("'"));
    let g = replace_all_v(&f, &lit("&nbsp;"), &lit(" "));
    let h = replace_all_v(&g, &lit("&amp;"), &lit("&"));
    from_chars(&h)
}

pub fn collapse_whitespace(s: &str) -> (r: String)
    ensures
        r@ == collapse_ws(s@),
{
    from_chars(&collapse_ws_v(&to_chars(s)))
}

/// The HTML `<title>` of a body: found case-insensitively (attributes tolerated), a few entities
/// decoded, whitespace collapsed, capped at 120 characters; `None` when absent or blank.
pub open spec fn title_of(b: Seq<char>) -> Option<Seq<char>> {
    let lower = lower_seq(b);
    match find_sub(lower, "<title"@) {
        None => None,
        Some(open) => match find_char(lower.skip(open), '>') {
            None => None,
            Some(gt) => {
                let cs = open + gt + 1;
                match find_sub(lower.skip(cs), "</title>"@) {
                    None => None,
                    Some(rel) => {
                        let collapsed = collapse_ws(decoded_entities(b.subrange(cs, cs + rel)));
                        if collapsed.len() == 0 {
                            None
                        } else {
                            Some(take_chars(collapsed, 120))
                        }
                    },
                }
            },
        },
    }
}

fn title_v(b: &Vec<char>) -> (r: Option<Vec<char>>)
    ensures
        match r {
            Some(t) => title_of(b@) == Some(t@),
            None => title_of(b@) is None,
        },
{
    let lower = lower_v(b);
    assert(lower@.len() == b@.len());
    let open = match find_sub_v(&lower, &lit("<title")) {
        Some(i) => i,
        None => {
            return None;
        },
    };
    let after_open = subrange(&lower, open, lower.len());
    assert(after_open@ =~= lower@.skip(open as int));
    let gt = match find_char_v(&after_open, '>') {
        Some(i) => i,
        None => {
            return None;
        },
    };
    let cs = open + gt + 1;
    let after_start = subrange(&lower, cs, lower.len());
    assert(after_start@ =~= lower@.skip(cs as int));
    let rel = match find_sub_v(&after_start, &lit("</title>")) {
        Some(i) => i,
        None => {
            return None;
        },
    };
    let inner = subrange(b, cs, cs + rel);
    let decoded = decode_entities(from_chars(&inner).as_str());
    let collapsed = collapse_ws_v(&to_chars(decoded.as_str()));
    if collapsed.len() == 0 {
        None
    } else {
        Some(take_chars_v(&collapsed, 120))
    }
}

/// Extract and normalize the HTML `<title>`.
pub fn extract_title(body: &str) -> (r: Option<String>)
    ensures
        opt_view(r) == title_of(body@),
{
    match title_v(&to_chars(body)) {
        Some(t) => Some(from_chars(&t)),
        None => None,
    }
}

// ---- product / version tokens -----------------------------------------------------------------

pub fn nonempty_str(s: &str) -> (r: Option<String>)
    ensures
        opt_view(r) == nonempty(s@),
{
    match nonempty_v(&to_chars(s)) {
        Some(t) => Some(from_chars(&t)),
        None => None,
    }
}

pub fn first_token_str(s: &str) -> (r: String)
    ensures
        r@ == first_token(s@),
{
    from_chars(&first_token_v(&to_chars(s)))
}

/// Characters that may continue a version run.
pub open spec fn version_char() -> spec_fn(char) -> bool {
    |c: char| is_ascii_alnum(c) || c == '.' || c == '-'
}

/// Characters trimmed from the end of a version run.
pub open spec fn dot_dash() -> spec_fn(char) -> bool {
    |c: char| c == '.' || c == '-'
}

/// Trailing characters satisfying `f` removed (`trim_end_matches` with a character set).
pub open spec fn trim_end_by(s: Seq<char>, f: spec_fn(char) -> bool) -> Seq<char>
    decreases s.len(),
{
    if s.len() > 0 && f(s.last()) {
        trim_end_by(s.drop_last(), f)
    } else {
        s
    }
}

/// The leading version-looking run (must start with a digit), e.g. "9.6p1", "1.25.3".
pub open spec fn version_prefix_of(s: Seq<char>) -> Option<Seq<char>> {
    let t = trim(s);
    if t.len() == 0 || !is_ascii_digit(t[0]) {
        None
    } else {
        nonempty(trim_end_by(take_while(t, version_char()), dot_dash()))
    }
}

fn version_prefix_v(s: &Vec<char>) -> (r: Option<Vec<char>>)
    ensures
        match r {
            Some(v) => version_prefix_of(s@) == Some(v@),
            None => version_prefix_of(s@) is None,
        },
{
    let t = trim_v(s);
    if t.len() == 0 || !char_is_digit(t[0]) {
        return None;
    }
    let mut k: usize = 0;
    while k < t.len() && (char_is_alnum(t[k]) || t[k] == '.' || t[k] == '-')
        invariant
            k <= t.len(),
            forall|j: int| 0 <= j < k ==> (version_char())(t@[j]),
        decreases t.len() - k,
    {
        k += 1;
    }
    proof {
        lemma_take_while(t@, version_char(), k as int);
    }
    let mut j: usize = k;
    assert(t@.take(k as int).take(k as int) =~= t@.take(k as int));
    while j > 0 && (t[j - 1] == '.' || t[j - 1] == '-')
        invariant
            j <= k <= t.len(),
            trim_end_by(t@.take(k as int), dot_dash()) == trim_end_by(t@.take(k as int).take(j as int), dot_dash()),
        decreases j,
    {
        proof {
            assert(t@.take(k as int).take(j as int).drop_last() =~= t@.take(k as int).take(j - 1));
            assert(t@.take(k as int).take(j as int).last() == t@[j - 1]);
        }
        j -= 1;
    }
    proof {
        assert(t@.take(k as int).take(j as int) =~= t@.subrange(0, j as int));
    }
    let v = subrange(&t, 0, j);
    nonempty_v(&v)
}

/// Take the leading version-looking run (must start with a digit), e.g. "9.6p1", "1.25.3".
pub fn version_prefix(s: &str) -> (r: Option<String>)
    ensures
        opt_view(r) == version_prefix_of(s@),
{
    match version_prefix_v(&to_chars(s)) {
        Some(v) => Some(from_chars(&v)),
        None => None,
    }
}

/// Separators between a product name and its version.
pub open spec fn pv_sep() -> spec_fn(char) -> bool {
    |c: char| c == '/' || c == '_' || c == ' '
}

/// A `Name/1.2.3`, `Name_1.2.3`, or `Name 1.2.3` token split into `(product, version)`.
pub open spec fn product_version(tok: Seq<char>) -> (Option<Seq<char>>, Option<Seq<char>>) {
    let t = trim(tok);
    if t.len() == 0 {
        (None, None)
    } else {
        match find_char_by(t, pv_sep()) {
            Some(i) => (nonempty(t.take(i)), version_prefix_of(t.skip(i + 1))),
            None => (nonempty(t), None),
        }
    }
}

/// A pair of optional character vectors viewed as a pair of optional sequences.
pub open spec fn pair_view(p: (Option<Vec<char>>, Option<Vec<char>>)) -> (
    Option<Seq<char>>,
    Option<Seq<char>>,
) {
    (
        match p.0 {
            Some(v) => Some(v@),
            None => None,
        },
        match p.1 {
            Some(v) => Some(v@),
            None => None,
        },
    )
}

fn product_version_v(tok: &Vec<char>) -> (r: (Option<Vec<char>>, Option<Vec<char>>))
    ensures
        pair_view(r) == product_version(tok@),
{
    let t = trim_v(tok);
    if t.len() == 0 {
        return (None, None);
    }
    let mut i: usize = 0;
    while i < t.len() && !(t[i] == '/' || t[i] == '_' || t[i] == ' ')
        invariant
            i <= t.len(),
            forall|j: int| 0 <= j < i ==> !(pv_sep())(t@[j]),
        decreases t.len() - i,
    {
        i += 1;
    }
    if i < t.len() {
        proof {
            lemma_find_char_by_at(t@, pv_sep(), i as int);
            assert(t@.take(i as int) =~= t@.subrange(0, i as int));
            assert(t@.skip(i + 1) =~= t@.subrange(i + 1, t@.len() as int));
        }
        let name = subrange(&t, 0, i);
        let rest = subrange(&t, i + 1, t.len());
        (nonempty_v(&name), version_prefix_v(&rest))
    } else {
        proof {
            lemma_find_char_by(t@, pv_sep());
        }
        (nonempty_v(&t), None)
    }
}

/// Split a `Name/1.2.3`, `Name_1.2.3`, or `Name 1.2.3` token into `(product, version)`.
pub fn split_product_version(token: &str) -> (r: (Option<String>, Option<String>))
    ensures
        (opt_view(r.0), opt_view(r.1)) == product_version(token@),
{
    let (p, v) = product_version_v(&to_chars(token));
    let p2 = match p {
        Some(x) => Some(from_chars(&x)),
        None => None,
    };
    let v2 = match v {
        Some(x) => Some(from_chars(&x)),
        None => None,
    };
    (p2, v2)
}


// ---- HTTP probe signals -----------------------------------------------------------------------

/// Parsed signals from an HTTP(S) response, used for display and fingerprinting.
pub struct HttpProbe {
    /// `"<status> · <server>"` summary, shown as the banner.
    pub summary: String,
    /// HTML `<title>`, normalized and length-capped.
    pub title: Option<String>,
    /// Product parsed from the `Server:` header (e.g. "nginx").
    pub server_product: Option<String>,
    /// Version parsed from the `Server:` header (e.g. "1.25.3").
    pub server_version: Option<String>,
    /// Raw `Server:` header value.
    pub server_header: Option<String>,
    /// `X-Powered-By` header value.
    pub powered_by: Option<String>,
    /// Names (not values) of any `Set-Cookie` cookies.
    pub cookie_names: Vec<String>,
    /// `WWW-Authenticate` header value (often carries a realm).
    pub www_authenticate: Option<String>,
}

/// The mathematical content of an [`HttpProbe`].
pub struct HttpSignals {
    pub summary: Seq<char>,
    pub title: Option<Seq<char>>,
    pub server_product: Option<Seq<char>>,
    pub server_version: Option<Seq<char>>,
    pub server_header: Option<Seq<char>>,
    pub powered_by: Option<Seq<char>>,
    pub cookie_names: Seq<Seq<char>>,
    pub www_authenticate: Option<Seq<char>>,
}

/// The views of a sequence of strings.
pub open spec fn string_views(v: Seq<String>) -> Seq<Seq<char>> {
    v.map_values(|x: String| x@)
}

impl View for HttpProbe {
    type V = HttpSignals;

    open spec fn view(&self) -> HttpSignals {
        HttpSignals {
            summary: self.summary@,
            title: opt_view(self.title),
            server_product: opt_view(self.server_product),
            server_version: opt_view(self.server_version),
            server_header: opt_view(self.server_header),
            powered_by: opt_view(self.powered_by),
            cookie_names: string_views(self.cookie_names@),
            www_authenticate: opt_view(self.www_authenticate),
        }
    }
}

/// Header values gathered while reading a response head.
pub struct HeaderState {
    pub server_header: Option<Seq<char>>,
    pub powered_by: Option<Seq<char>>,
    pub www_authenticate: Option<Seq<char>>,
    pub cookie_names: Seq<Seq<char>>,
}

/// One header line applied to the gathered values: a later header of a kind replaces an earlier
/// one, each `Set-Cookie` adds its cookie's name (what precedes the first `=` or `;`).
pub open spec fn header_step(st: HeaderState, line: Seq<char>) -> HeaderState {
    match split_once_char(line, ':') {
        None => st,
        Some((n, v)) => {
            let value = trim(v);
            let name = lower_seq(trim(n));
            if name == "server"@ {
                HeaderState { server_header: nonempty(value), ..st }
            } else if name == "x-powered-by"@ {
                HeaderState { powered_by: nonempty(value), ..st }
            } else if name == "www-authenticate"@ {
                HeaderState { www_authenticate: nonempty(value), ..st }
            } else if name == "set-cookie"@ {
                match nonempty(split_on(value, seq!['=', ';'])[0]) {
                    Some(c) => HeaderState { cookie_names: st.cookie_names.push(c), ..st },
                    None => st,
                }
            } else {
                st
            }
        },
    }
}

pub open spec fn headers_fold(ls: Seq<Seq<char>>, st: HeaderState) -> HeaderState
    decreases ls.len(),
{
    if ls.len() == 0 {
        st
    } else {
        headers_fold(ls.drop_first(), header_step(st, ls[0]))
    }
}

pub open spec fn no_headers() -> HeaderState {
    HeaderState {
        server_header: None,
        powered_by: None,
        www_authenticate: None,
        cookie_names: Seq::empty(),
    }
}

/// Head and body of a reply: split at the first blank line, the whole text being the head when
/// there is none.
pub open spec fn head_and_body(t: Seq<char>) -> (Seq<char>, Seq<char>) {
    match split_once_sub(t, "\r\n\r\n"@) {
        Some(p) => p,
        None => (t, Seq::empty()),
    }
}

/// The full set of fingerprinting signals of decoded reply text.
pub open spec fn http_signals(t: Seq<char>) -> Option<HttpSignals> {
    match http_summary(t) {
        None => None,
        Some(summary) => {
            let (head, body) = head_and_body(t);
            let ls = lines(head);
            let st = headers_fold(
                if ls.len() > 0 {
                    ls.drop_first()
                } else {
                    ls
                },
                no_headers(),
            );
            let pv = match st.server_header {
                Some(h) => product_version(first_token(h)),
                None => (None, None),
            };
            Some(
                HttpSignals {
                    summary,
                    title: title_of(body),
                    server_product: pv.0,
                    server_version: pv.1,
                    server_header: st.server_header,
                    powered_by: st.powered_by,
                    cookie_names: st.cookie_names,
                    www_authenticate: st.www_authenticate,
                },
            )
        },
    }
}

fn opt_string(o: Option<Vec<char>>) -> (r: Option<String>)
    ensures
        opt_view(r) == match o {
            Some(v) => Some(v@),
            None => None::<Seq<char>>,
        },
{
    match o {
        Some(v) => Some(from_chars(&v)),
        None => None,
    }
}

/// Parse the full set of fingerprinting signals out of decoded reply text.
pub fn parse_http_probe_text(text: &str) -> (r: Option<HttpProbe>)
    ensures
        match r {
            Some(p) => http_signals(text@) == Some(p@),
            None => http_signals(text@) is None,
        },
{
    let summary = match parse_http_text(text) {
        Some(s) => s,
        None => {
            return None;
        },
    };
    let t = to_chars(text);
    let sep = lit("\r\n\r\n");
    let (head, body) = match find_sub_v(&t, &sep) {
        Some(i) => {
            assert(occurs_at(t@, sep@, i as int));
            let after = i + sep.len();
            proof {
                assert(t@.take(i as int) =~= t@.subrange(0, i as int));
                assert(t@.skip(i + sep@.len()) =~= t@.subrange(i + sep@.len(), t@.len() as int));
            }
            (subrange(&t, 0, i), subrange(&t, after, t.len()))
        },
        None => (t, Vec::new()),
    };
    assert(head_and_body(text@) == (head@, body@));
    let ls = lines_v(&head);
    let ghost hl = if views(ls@).len() > 0 {
        views(ls@).drop_first()
    } else {
        views(ls@)
    };
    let mut server_header: Option<Vec<char>> = None;
    let mut powered_by: Option<Vec<char>> = None;
    let mut www_authenticate: Option<Vec<char>> = None;
    let mut cookie_names: Vec<String> = Vec::new();
    let mut i: usize = if ls.len() > 0 {
        1
    } else {
        0
    };
    assert(hl =~= views(ls@).skip(i as int));
    let ghost st0 = no_headers();
    assert(string_views(cookie_names@) =~= Seq::<Seq<char>>::empty());
    while i < ls.len()
        invariant
            i <= ls.len(),
            headers_fold(hl, st0) == headers_fold(
                views(ls@).skip(i as int),
                HeaderState {
                    server_header: pair_view((server_header, None)).0,
                    powered_by: pair_view((powered_by, None)).0,
                    www_authenticate: pair_view((www_authenticate, None)).0,
                    cookie_names: string_views(cookie_names@),
                },
            ),
        decreases ls.len() - i,
    {
        let ghost before = HeaderState {
            server_header: pair_view((server_header, None)).0,
            powered_by: pair_view((powered_by, None)).0,
            www_authenticate: pair_view((www_authenticate, None)).0,
            cookie_names: string_views(cookie_names@),
        };
        proof {
            assert(views(ls@).skip(i as int)[0] == ls@[i as int]@);
            assert(views(ls@).skip(i as int).drop_first() =~= views(ls@).skip(i + 1));
        }
        let line = &ls[i];
        match find_char_v(line, ':') {
            None => {},
            Some(c) => {
                proof {
                    assert(line@.take(c as int) =~= line@.subrange(0, c as int));
                    assert(line@.skip(c + 1) =~= line@.subrange(c + 1, line@.len() as int));
                }
                let n = subrange(line, 0, c);
                let v = subrange(line, c + 1, line.len());
                let value = trim_v(&v);
                let name = lower_v(&trim_v(&n));
                if eq_v(&name, &lit("server")) {
                    server_header = nonempty_v(&value);
                } else if eq_v(&name, &lit("x-powered-by")) {
                    powered_by = nonempty_v(&value);
                } else if eq_v(&name, &lit("www-authenticate")) {
                    www_authenticate = nonempty_v(&value);
                } else if eq_v(&name, &lit("set-cookie")) {
                    let mut delims: Vec<char> = Vec::new();
                    delims.push('=');
                    delims.push(';');
                    assert(delims@ =~= seq!['=', ';']);
                    let pieces = split_on_v(&value, &delims);
                    proof {
                        lemma_split_nonempty(value@, delims@, Seq::empty());
                        assert(views(pieces@)[0] == pieces@[0]@);
                    }
                    match nonempty_v(&pieces[0]) {
                        Some(cn) => {
                            let cs = from_chars(&cn);
                            proof {
                                assert(string_views(cookie_names@.push(cs)) =~= string_views(
                                    cookie_names@,
                                ).push(cs@));
                            }
                            cookie_names.push(cs);
                        },
                        None => {},
                    }
                }
            },
        }
        i += 1;
    }
    proof {
        assert(views(ls@).skip(i as int) =~= Seq::<Seq<char>>::empty());
    }
    let (sp, sv) = match &server_header {
        Some(h) => product_version_v(&first_token_v(h)),
        None => (None, None),
    };
    let title = title_v(&body);
    Some(
        HttpProbe {
            summary,
            title: opt_string(title),
            server_product: opt_string(sp),
            server_version: opt_string(sv),
            server_header: opt_string(server_header),
            powered_by: opt_string(powered_by),
            cookie_names,
            www_authenticate: opt_string(www_authenticate),
        },
    )
}

/// Parse the full set of fingerprinting signals out of an HTTP response.
pub fn parse_http_probe(bytes: &[u8]) -> (r: Option<HttpProbe>)
    ensures
        match r {
            Some(p) => http_signals(utf8_lossy(bytes@)) == Some(p@),
            None => http_signals(utf8_lossy(bytes@)) is None,
        },
{
    let text = decode_lossy(bytes);
    parse_http_probe_text(text.as_str())
}


// ---- application fingerprints -----------------------------------------------------------------

/// A signal-based fingerprint: a match on *any* non-empty signal list (case-insensitive substring)
/// identifies the product. The table is ordered most-specific first; the first match wins.
pub struct Fingerprint {
    pub product: &'static str,
    pub title_has: Vec<Vec<char>>,
    pub server_has: Vec<Vec<char>>,
    pub cookie_has: Vec<Vec<char>>,
    pub powered_by_has: Vec<Vec<char>>,
    pub www_auth_has: Vec<Vec<char>>,
}

/// The mathematical content of a [`Fingerprint`].
pub struct FingerprintSpec {
    pub product: Seq<char>,
    pub title_has: Seq<Seq<char>>,
    pub server_has: Seq<Seq<char>>,
    pub cookie_has: Seq<Seq<char>>,
    pub powered_by_has: Seq<Seq<char>>,
    pub www_auth_has: Seq<Seq<char>>,
}

impl View for Fingerprint {
    type V = FingerprintSpec;

    open spec fn view(&self) -> FingerprintSpec {
        FingerprintSpec {
            product: self.product@,
            title_has: views(self.title_has@),
            server_has: views(self.server_has@),
            cookie_has: views(self.cookie_has@),
            powered_by_has: views(self.powered_by_has@),
            www_auth_has: views(self.www_auth_has@),
        }
    }
}

pub open spec fn fps(
    product: Seq<char>,
    title_has: Seq<Seq<char>>,
    server_has: Seq<Seq<char>>,
    cookie_has: Seq<Seq<char>>,
    powered_by_has: Seq<Seq<char>>,
    www_auth_has: Seq<Seq<char>>,
) -> FingerprintSpec {
    FingerprintSpec { product, title_has, server_has, cookie_has, powered_by_has, www_auth_has }
}

/// Known homelab applications keyed by HTTP signals. All needles are lowercase. Shared session
/// cookies (JSESSIONID/PHPSESSID/SID) are deliberately not signals: they name a framework, not
/// an app. Web frameworks come last and are matched only through `X-Powered-By`.
pub open spec fn fingerprint_table() -> Seq<FingerprintSpec> {
    let e = Seq::<Seq<char>>::empty();
    seq![
        fps("Grafana"@, seq!["grafana"@], e, seq!["grafana_session"@, "grafana_sess"@], e, e),
        fps("Proxmox VE"@, seq!["proxmox"@], e, seq!["pveauthcookie"@], e, e),
        fps("Home Assistant"@, seq!["home assistant"@], e, e, e, e),
        fps("Portainer"@, seq!["portainer"@], e, seq!["portainer_api_key"@], e, e),
        fps("Jellyfin"@, seq!["jellyfin"@], seq!["jellyfin"@], e, e, e),
        fps("Plex"@, seq!["plex"@], seq!["plex media server"@], e, e, e),
        fps("Pi-hole"@, seq!["pi-hole"@], e, e, e, e),
        fps("AdGuard Home"@, seq!["adguard home"@, "adguardhome"@], e, e, e, e),
        fps("Nginx Proxy Manager"@, seq!["nginx proxy manager"@], e, e, e, e),
        fps("TrueNAS"@, seq!["truenas"@], e, e, e, e),
        fps("Synology DSM"@, seq!["synology"@, "diskstation"@], e, e, e, seq!["syno"@]),
        fps("Uptime Kuma"@, seq!["uptime kuma"@], e, e, e, e),
        fps("Sonarr"@, seq!["sonarr"@], e, e, e, e),
        fps("Radarr"@, seq!["radarr"@], e, e, e, e),
        fps("qBittorrent"@, seq!["qbittorrent"@], e, e, e, e),
        fps("Cockpit"@, seq!["cockpit"@], seq!["cockpit"@], seq!["cockpit"@], e, e),
        fps("Prometheus"@, seq!["prometheus time series"@, "prometheus"@], e, e, e, e),
        fps("Traefik"@, seq!["traefik"@], e, e, e, e),
        fps("Jenkins"@, seq!["jenkins"@], e, e, seq!["jenkins"@], e),
        fps("Nextcloud"@, seq!["nextcloud"@], e, seq!["nc_sessionid"@, "oc_sessionpassphrase"@], e, e),
        fps("Vaultwarden"@, seq!["vaultwarden"@, "bitwarden"@], e, e, e, e),
        fps("Jaeger"@, seq!["jaeger"@], e, e, e, e),
        fps("Next.js"@, e, e, e, seq!["next.js"@], e),
        fps("Express"@, e, e, e, seq!["express"@], e),
        fps("ASP.NET"@, e, e, e, seq!["asp.net"@], e),
        fps("PHP"@, e, e, e, seq!["php/"@], e),
    ]
}

fn n0() -> (r: Vec<Vec<char>>)
    ensures
        views(r@) == Seq::<Seq<char>>::empty(),
{
    let r: Vec<Vec<char>> = Vec::new();
    assert(views(r@) =~= Seq::<Seq<char>>::empty());
    r
}

fn n1(a: &str) -> (r: Vec<Vec<char>>)
    ensures
        views(r@) == seq![a@],
{
    let mut r: Vec<Vec<char>> = Vec::new();
    r.push(lit(a));
    assert(views(r@) =~= seq![a@]);
    r
}

fn n2(a: &str, b: &str) -> (r: Vec<Vec<char>>)
    ensures
        views(r@) == seq![a@, b@],
{
    let mut r: Vec<Vec<char>> = Vec::new();
    r.push(lit(a));
    r.push(lit(b));
    assert(views(r@) =~= seq![a@, b@]);
    r
}

/// Build one fingerprint.
pub fn fp(
    product: &'static str,
    title_has: Vec<Vec<char>>,
    server_has: Vec<Vec<char>>,
    cookie_has: Vec<Vec<char>>,
    powered_by_has: Vec<Vec<char>>,
    www_auth_has: Vec<Vec<char>>,
) -> (r: Fingerprint)
    ensures
        r@ == fps(
            product@,
            views(title_has@),
            views(server_has@),
            views(cookie_has@),
            views(powered_by_has@),
            views(www_auth_has@),
        ),
{
    Fingerprint { product, title_has, server_has, cookie_has, powered_by_has, www_auth_has }
}

pub open spec fn fp_views(v: Seq<Fingerprint>) -> Seq<FingerprintSpec> {
    v.map_values(|f: Fingerprint| f@)
}

fn push_fp(v: &mut Vec<Fingerprint>, f: Fingerprint)
    ensures
        fp_views(final(v)@) == fp_views(old(v)@).push(f@),
{
    v.push(f);
    assert(fp_views(v@) =~= fp_views(old(v)@).push(f@));
}

/// The fingerprint table, in match order.
pub fn fingerprints() -> (r: Vec<Fingerprint>)
    ensures
        fp_views(r@) == fingerprint_table(),
{
    let mut v: Vec<Fingerprint> = Vec::new();
    push_fp(&mut v, fp("Grafana", n1("grafana"), n0(), n2("grafana_session", "grafana_sess"), n0(), n0()));
    push_fp(&mut v, fp("Proxmox VE", n1("proxmox"), n0(), n1("pveauthcookie"), n0(), n0()));
    push_fp(&mut v, fp("Home Assistant", n1("home assistant"), n0(), n0(), n0(), n0()));
    push_fp(&mut v, fp("Portainer", n1("portainer"), n0(), n1("portainer_api_key"), n0(), n0()));
    push_fp(&mut v, fp("Jellyfin", n1("jellyfin"), n1("jellyfin"), n0(), n0(), n0()));
    push_fp(&mut v, fp("Plex", n1("plex"), n1("plex media server"), n0(), n0(), n0()));
    push_fp(&mut v, fp("Pi-hole", n1("pi-hole"), n0(), n0(), n0(), n0()));
    push_fp(&mut v, fp("AdGuard Home", n2("adguard home", "adguardhome"), n0(), n0(), n0(), n0()));
    push_fp(&mut v, fp("Nginx Proxy Manager", n1("nginx proxy manager"), n0(), n0(), n0(), n0()));
    push_fp(&mut v, fp("TrueNAS", n1("truenas"), n0(), n0(), n0(), n0()));
    push_fp(&mut v, fp("Synology DSM", n2("synology", "diskstation"), n0(), n0(), n0(), n1("syno")));
    push_fp(&mut v, fp("Uptime Kuma", n1("uptime kuma"), n0(), n0(), n0(), n0()));
    push_fp(&mut v, fp("Sonarr", n1("sonarr"), n0(), n0(), n0(), n0()));
    push_fp(&mut v, fp("Radarr", n1("radarr"), n0(), n0(), n0(), n0()));
    push_fp(&mut v, fp("qBittorrent", n1("qbittorrent"), n0(), n0(), n0(), n0()));
    push_fp(&mut v, fp("Cockpit", n1("cockpit"), n1("cockpit"), n1("cockpit"), n0(), n0()));
    push_fp(&mut v, fp("Prometheus", n2("prometheus time series", "prometheus"), n0(), n0(), n0(), n0()));
    push_fp(&mut v, fp("Traefik", n1("traefik"), n0(), n0(), n0(), n0()));
    push_fp(&mut v, fp("Jenkins", n1("jenkins"), n0(), n0(), n1("jenkins"), n0()));
    push_fp(&mut v, fp("Nextcloud", n1("nextcloud"), n0(), n2("nc_sessionid", "oc_sessionpassphrase"), n0(), n0()));
    push_fp(&mut v, fp("Vaultwarden", n2("vaultwarden", "bitwarden"), n0(), n0(), n0(), n0()));
    push_fp(&mut v, fp("Jaeger", n1("jaeger"), n0(), n0(), n0(), n0()));
    push_fp(&mut v, fp("Next.js", n0(), n0(), n0(), n1("next.js"), n0()));
    push_fp(&mut v, fp("Express", n0(), n0(), n0(), n1("express"), n0()));
    push_fp(&mut v, fp("ASP.NET", n0(), n0(), n0(), n1("asp.net"), n0()));
    push_fp(&mut v, fp("PHP", n0(), n0(), n0(), n1("php/"), n0()));
    assert(fp_views(v@) =~= fingerprint_table());
    v
}

/// Some non-empty needle occurs in the haystack.
pub open spec fn any_contains_spec(h: Seq<char>, ns: Seq<Seq<char>>) -> bool {
    exists|i: int| 0 <= i < ns.len() && ns[i].len() > 0 && contains_sub(h, ns[i])
}

fn any_contains_v(h: &Vec<char>, ns: &Vec<Vec<char>>) -> (r: bool)
    ensures
        r == any_contains_spec(h@, views(ns@)),
{
    let mut i: usize = 0;
    while i < ns.len()
        invariant
            i <= ns.len(),
            forall|j: int| 0 <= j < i ==> !(views(ns@)[j].len() > 0 && contains_sub(h@, views(ns@)[j])),
        decreases ns.len() - i,
    {
        assert(views(ns@)[i as int] == ns@[i as int]@);
        if ns[i].len() > 0 && contains_v(h, &ns[i]) {
            return true;
        }
        i += 1;
    }
    false
}

/// The views of string slices.
pub open spec fn str_views(v: Seq<&str>) -> Seq<Seq<char>> {
    v.map_values(|x: &str| x@)
}

/// Whether some non-empty needle occurs in `haystack`.
pub fn any_contains(haystack: &str, needles: &[&str]) -> (r: bool)
    ensures
        r == any_contains_spec(haystack@, str_views(needles@)),
{
    let mut ns: Vec<Vec<char>> = Vec::new();
    let mut i: usize = 0;
    while i < needles.len()
        invariant
            i <= needles.len(),
            views(ns@) == str_views(needles@).take(i as int),
        decreases needles.len() - i,
    {
        let n = lit(needles[i]);
        proof {
            lemma_views_push(ns@, n);
            assert(str_views(needles@).take(i + 1) =~= str_views(needles@).take(i as int).push(n@));
        }
        ns.push(n);
        i += 1;
    }
    assert(str_views(needles@).take(needles@.len() as int) =~= str_views(needles@));
    any_contains_v(&to_chars(haystack), &ns)
}

/// Some cookie name contains some needle.
pub open spec fn cookie_match(cookies: Seq<Seq<char>>, ns: Seq<Seq<char>>) -> bool {
    exists|i: int, j: int|
        0 <= i < ns.len() && 0 <= j < cookies.len() && contains_sub(cookies[j], ns[i])
}

/// An optional signal, lower-cased, the empty text when absent.
pub open spec fn lowered(o: Option<Seq<char>>) -> Seq<char> {
    lower_seq(
        match o {
            Some(s) => s,
            None => Seq::empty(),
        },
    )
}

pub open spec fn lowered_all(v: Seq<Seq<char>>) -> Seq<Seq<char>> {
    v.map_values(|c: Seq<char>| lower_seq(c))
}

/// Whether a response's signals match one fingerprint.
pub open spec fn fp_matches(f: FingerprintSpec, h: HttpSignals) -> bool {
    any_contains_spec(lowered(h.title), f.title_has) || any_contains_spec(
        lowered(h.server_header),
        f.server_has,
    ) || any_contains_spec(lowered(h.powered_by), f.powered_by_has) || any_contains_spec(
        lowered(h.www_authenticate),
        f.www_auth_has,
    ) || cookie_match(lowered_all(h.cookie_names), f.cookie_has)
}

/// Index of the first fingerprint from `k` on that matches.
pub open spec fn first_match_from(t: Seq<FingerprintSpec>, h: HttpSignals, k: int) -> Option<int>
    decreases t.len() - k,
{
    if k < 0 || k >= t.len() {
        None
    } else if fp_matches(t[k], h) {
        Some(k)
    } else {
        first_match_from(t, h, k + 1)
    }
}

/// Index of the first fingerprint of the table that matches a response.
pub open spec fn first_match(h: HttpSignals) -> Option<int> {
    first_match_from(fingerprint_table(), h, 0)
}

fn lowered_v(o: &Option<String>) -> (r: Vec<char>)
    ensures
        r@ == lowered(opt_view(*o)),
{
    match o {
        Some(s) => lower_v(&to_chars(s.as_str())),
        None => {
            let v: Vec<char> = Vec::new();
            assert(lower_seq(Seq::<char>::empty()) =~= Seq::<char>::empty());
            v
        },
    }
}

fn cookie_match_v(cookies: &Vec<Vec<char>>, ns: &Vec<Vec<char>>) -> (r: bool)
    ensures
        r == cookie_match(views(cookies@), views(ns@)),
{
    let mut i: usize = 0;
    while i < ns.len()
        invariant
            i <= ns.len(),
            forall|a: int, b: int|
                0 <= a < i && 0 <= b < cookies.len() ==> !contains_sub(
                    views(cookies@)[b],
                    views(ns@)[a],
                ),
        decreases ns.len() - i,
    {
        let mut j: usize = 0;
        while j < cookies.len()
            invariant
                i < ns.len(),
                j <= cookies.len(),
                forall|a: int, b: int|
                    0 <= a < i && 0 <= b < cookies.len() ==> !contains_sub(
                        views(cookies@)[b],
                        views(ns@)[a],
                    ),
                forall|b: int| 0 <= b < j ==> !contains_sub(views(cookies@)[b], views(ns@)[i as int]),
            decreases cookies.len() - j,
        {
            assert(views(cookies@)[j as int] == cookies@[j as int]@);
            assert(views(ns@)[i as int] == ns@[i as int]@);
            if contains_v(&cookies[j], &ns[i]) {
                return true;
            }
            j += 1;
        }
        i += 1;
    }
    false
}

fn fp_matches_v(
    f: &Fingerprint,
    title: &Vec<char>,
    server: &Vec<char>,
    powered: &Vec<char>,
    www: &Vec<char>,
    cookies: &Vec<Vec<char>>,
    Ghost(h): Ghost<HttpSignals>,
) -> (r: bool)
    requires
        title@ == lowered(h.title),
        server@ == lowered(h.server_header),
        powered@ == lowered(h.powered_by),
        www@ == lowered(h.www_authenticate),
        views(cookies@) == lowered_all(h.cookie_names),
    ensures
        r == fp_matches(f@, h),
{
    any_contains_v(title, &f.title_has) || any_contains_v(server, &f.server_has) || any_contains_v(
        powered,
        &f.powered_by_has,
    ) || any_contains_v(www, &f.www_auth_has) || cookie_match_v(cookies, &f.cookie_has)
}

/// Return the first fingerprint whose signals match the response, if any.
pub fn fingerprint(h: &HttpProbe) -> (r: Option<Fingerprint>)
    ensures
        match first_match(h@) {
            Some(k) => r is Some && r->0@ == fingerprint_table()[k],
            None => r is None,
        },
{
    let title = lowered_v(&h.title);
    let server = lowered_v(&h.server_header);
    let powered = lowered_v(&h.powered_by);
    let www = lowered_v(&h.www_authenticate);
    let mut cookies: Vec<Vec<char>> = Vec::new();
    let mut i: usize = 0;
    while i < h.cookie_names.len()
        invariant
            i <= h.cookie_names.len(),
            views(cookies@) == lowered_all(h@.cookie_names).take(i as int),
        decreases h.cookie_names.len() - i,
    {
        let c = lower_v(&to_chars(h.cookie_names[i].as_str()));
        proof {
            lemma_views_push(cookies@, c);
            assert(lowered_all(h@.cookie_names).take(i + 1) =~= lowered_all(h@.cookie_names).take(
                i as int,
            ).push(c@));
        }
        cookies.push(c);
        i += 1;
    }
    assert(lowered_all(h@.cookie_names).take(h.cookie_names.len() as int) =~= lowered_all(
        h@.cookie_names,
    ));
    let mut table = fingerprints();
    let ghost t = fingerprint_table();
    let mut k: usize = 0;
    while k < table.len()
        invariant
            k <= table.len(),
            fp_views(table@) == t,
            t == fingerprint_table(),
            first_match(h@) == first_match_from(t, h@, k as int),
            title@ == lowered(h@.title),
            server@ == lowered(h@.server_header),
            powered@ == lowered(h@.powered_by),
            www@ == lowered(h@.www_authenticate),
            views(cookies@) == lowered_all(h@.cookie_names),
        decreases table.len() - k,
    {
        assert(t[k as int] == table@[k as int]@);
        if fp_matches_v(&table[k], &title, &server, &powered, &www, &cookies, Ghost(h@)) {
            let f = table.swap_remove(k);
            return Some(f);
        }
        k += 1;
    }
    None
}


// ---- folding an HTTP probe into a service record ----------------------------------------------

/// A value replaces the target only when present.
pub open spec fn assigned(target: Option<Seq<char>>, value: Option<Seq<char>>) -> Option<Seq<char>> {
    match value {
        Some(v) => Some(v),
        None => target,
    }
}

/// Overwrite `target` only when `value` is present.
pub fn assign(target: &mut Option<String>, value: Option<String>)
    ensures
        opt_view(*final(target)) == assigned(opt_view(*old(target)), opt_view(value)),
{
    if let Some(v) = value {
        *target = Some(v);
    }
}

/// A service record after an HTTP probe result is folded in: a confident fingerprint match wins
/// over the port-based product guess; otherwise the `Server:` header product is used when no
/// product is known yet. The version is only ever filled in, never replaced.
pub open spec fn with_http(sp: ServiceInfo, h: HttpSignals) -> ServiceInfo {
    ServiceInfo {
        port: sp.port,
        service: sp.service,
        product: match first_match(h) {
            Some(k) => Some(fingerprint_table()[k].product),
            None => if sp.product is None {
                h.server_product
            } else {
                sp.product
            },
        },
        version: if sp.version is None {
            h.server_version
        } else {
            sp.version
        },
        title: if h.title is Some {
            h.title
        } else {
            sp.title
        },
        banner: Some(h.summary),
    }
}

/// Fold an HTTP probe result into the service record.
pub fn apply_http(sp: &mut ServicePort, http: HttpProbe)
    ensures
        final(sp)@ == with_http(old(sp)@, http@),
{
    let fingerprinted = match fingerprint(&http) {
        Some(f) => Some(f.product.to_owned()),
        None => None,
    };
    let ghost h = http@;
    sp.banner = Some(http.summary);
    if http.title.is_some() {
        sp.title = http.title;
    }
    match fingerprinted {
        Some(product) => {
            sp.product = Some(product);
            if sp.version.is_none() {
                sp.version = http.server_version;
            }
        },
        None => {
            if sp.product.is_none() {
                sp.product = http.server_product;
            }
            if sp.version.is_none() {
                sp.version = http.server_version;
            }
        },
    }
    assert(sp@.title == with_http(old(sp)@, h).title);
}

// ---- banner-based product/version (non-web services) ------------------------------------------

/// Names of common services that may appear anywhere in a banner, with the casing to show.
pub open spec fn known_products() -> Seq<Seq<char>> {
    seq![
        "OpenSSH"@,
        "Dropbear"@,
        "ProFTPD"@,
        "vsFTPd"@,
        "Pure-FTPd"@,
        "FileZilla"@,
        "Postfix"@,
        "Exim"@,
        "Sendmail"@,
        "Dovecot"@,
        "nginx"@,
        "Apache"@,
        "lighttpd"@,
        "Caddy"@,
    ]
}

fn known_products_v() -> (r: Vec<&'static str>)
    ensures
        str_views(r@) == known_products(),
{
    let mut v: Vec<&'static str> = Vec::new();
    v.push("OpenSSH");
    v.push("Dropbear");
    v.push("ProFTPD");
    v.push("vsFTPd");
    v.push("Pure-FTPd");
    v.push("FileZilla");
    v.push("Postfix");
    v.push("Exim");
    v.push("Sendmail");
    v.push("Dovecot");
    v.push("nginx");
    v.push("Apache");
    v.push("lighttpd");
    v.push("Caddy");
    assert(str_views(v@) =~= known_products());
    v
}

/// `s` without a prefix matched ignoring ASCII case (`None` when it does not start so).
pub open spec fn strip_prefix_ci_spec(s: Seq<char>, p: Seq<char>) -> Option<Seq<char>> {
    if p.len() <= s.len() && lower_seq(s.take(p.len() as int)) == lower_seq(p) {
        Some(s.skip(p.len() as int))
    } else {
        None
    }
}

fn strip_prefix_ci_v(s: &Vec<char>, p: &Vec<char>) -> (r: Option<Vec<char>>)
    ensures
        match r {
            Some(v) => strip_prefix_ci_spec(s@, p@) == Some(v@),
            None => strip_prefix_ci_spec(s@, p@) is None,
        },
{
    if p.len() > s.len() {
        return None;
    }
    proof {
        assert(s@.take(p.len() as int) =~= s@.subrange(0, p.len() as int));
        assert(s@.skip(p.len() as int) =~= s@.subrange(p.len() as int, s.len() as int));
    }
    let head = subrange(s, 0, p.len());
    if eq_v(&lower_v(&head), &lower_v(p)) {
        Some(subrange(s, p.len(), s.len()))
    } else {
        None
    }
}

/// Bytes with ASCII letters lower-cased, as `eq_ignore_ascii_case` compares them.
pub open spec fn lower_bytes(bs: Seq<u8>) -> Seq<u8> {
    bs.map_values(|b: u8| lower_byte(b))
}

proof fn lemma_wide_scalar_bytes(x: u32)
    by (bit_vector)
    ensures
        vstd::utf8::leading_byte_width_2(x) >= 0x80,
        vstd::utf8::leading_byte_width_3(x) >= 0x80,
        vstd::utf8::leading_byte_width_4(x) >= 0x80,
        vstd::utf8::last_continuation_byte(x) >= 0x80,
        vstd::utf8::second_last_continuation_byte(x) >= 0x80,
        vstd::utf8::third_last_continuation_byte(x) >= 0x80,
{
}

proof fn lemma_narrow_scalar_byte(x: u32)
    by (bit_vector)
    requires
        x <= 0x7F,
    ensures
        vstd::utf8::leading_byte_width_1(x) == x,
{
}

/// Lower-casing a character's ASCII letter and lower-casing the ASCII letters among its UTF-8
/// bytes give the same bytes.
proof fn lemma_lower_scalar(c: char)
    ensures
        vstd::utf8::encode_scalar(crate::text::lower_char(c) as u32) == lower_bytes(
            vstd::utf8::encode_scalar(c as u32),
        ),
{
    let x = c as u32;
    let e = vstd::utf8::encode_scalar(x);
    if x <= 0x7F {
        lemma_narrow_scalar_byte(x);
        let l = crate::text::lower_char(c) as u32;
        assert(l <= 0x7F);
        lemma_narrow_scalar_byte(l);
        assert(vstd::utf8::encode_scalar(l) =~= lower_bytes(e));
    } else {
        lemma_wide_scalar_bytes(x);
        assert(crate::text::lower_char(c) == c);
        assert(lower_bytes(e) =~= e);
    }
}

proof fn lemma_lower_encode(t: Seq<char>)
    ensures
        lower_bytes(vstd::utf8::encode_utf8(t)) == vstd::utf8::encode_utf8(lower_seq(t)),
    decreases t.len(),
{
    if t.len() > 0 {
        lemma_lower_encode(t.drop_first());
        lemma_lower_scalar(t[0]);
        assert(lower_seq(t).drop_first() =~= lower_seq(t.drop_first()));
        assert(lower_seq(t)[0] == crate::text::lower_char(t[0]));
        let e0 = vstd::utf8::encode_scalar(t[0] as u32);
        let rest = vstd::utf8::encode_utf8(t.drop_first());
        assert(lower_bytes(e0 + rest) =~= lower_bytes(e0) + lower_bytes(rest));
    } else {
        assert(lower_bytes(vstd::utf8::encode_utf8(t)) =~= Seq::<u8>::empty());
        assert(lower_seq(t) =~= Seq::<char>::empty());
    }
}

/// The UTF-8 bytes of two texts one after the other are the bytes of each, one after the other.
pub proof fn lemma_encode_concat(a: Seq<char>, b: Seq<char>)
    ensures
        vstd::utf8::encode_utf8(a + b) == vstd::utf8::encode_utf8(a) + vstd::utf8::encode_utf8(b),
    decreases a.len(),
{
    if a.len() == 0 {
        assert(a + b =~= b);
        assert(vstd::utf8::encode_utf8(a) + vstd::utf8::encode_utf8(b) =~= vstd::utf8::encode_utf8(b));
    } else {
        assert((a + b).drop_first() =~= a.drop_first() + b);
        assert((a + b)[0] == a[0]);
        lemma_encode_concat(a.drop_first(), b);
        assert(vstd::utf8::encode_utf8(a + b) =~= vstd::utf8::encode_utf8(a) + vstd::utf8::encode_utf8(b));
    }
}

proof fn lemma_boundary_at_prefix(a: Seq<char>, b: Seq<char>)
    ensures
        vstd::utf8::is_char_boundary(vstd::utf8::encode_utf8(a + b), vstd::utf8::encode_utf8(a).len() as int),
    decreases a.len(),
{
    let ab = a + b;
    vstd::utf8::encode_utf8_valid_utf8(ab);
    if a.len() > 0 {
        vstd::utf8::encode_utf8_first_scalar(ab);
        assert(ab[0] == a[0]);
        assert(ab.drop_first() =~= a.drop_first() + b);
        assert(vstd::utf8::pop_first_scalar(vstd::utf8::encode_utf8(ab)) =~= vstd::utf8::encode_utf8(
            ab.drop_first(),
        ));
        lemma_encode_concat(a, b);
        lemma_boundary_at_prefix(a.drop_first(), b);
    }
}

proof fn lemma_boundary_is_char_prefix(s: Seq<char>, n: int)
    requires
        vstd::utf8::is_char_boundary(vstd::utf8::encode_utf8(s), n),
    ensures
        0 <= n <= vstd::utf8::encode_utf8(s).len(),
        exists|k: int|
            0 <= k <= s.len() && #[trigger] vstd::utf8::encode_utf8(s.take(k)) == vstd::utf8::encode_utf8(
                s,
            ).take(n),
    decreases s.len(),
{
    let e = vstd::utf8::encode_utf8(s);
    vstd::utf8::encode_utf8_valid_utf8(s);
    if n == 0 {
        assert(s.take(0) =~= Seq::<char>::empty());
        assert(vstd::utf8::encode_utf8(s.take(0)) =~= e.take(0));
    } else {
        assert(s.len() > 0);
        vstd::utf8::encode_utf8_first_scalar(s);
        let e0 = vstd::utf8::encode_scalar(s[0] as u32);
        let w = e0.len() as int;
        assert(vstd::utf8::pop_first_scalar(e) =~= vstd::utf8::encode_utf8(s.drop_first()));
        lemma_boundary_is_char_prefix(s.drop_first(), n - w);
        let k2 = choose|k: int|
            0 <= k <= s.drop_first().len() && #[trigger] vstd::utf8::encode_utf8(s.drop_first().take(k))
                == vstd::utf8::encode_utf8(s.drop_first()).take(n - w);
        let k = k2 + 1;
        assert(s.take(k).drop_first() =~= s.drop_first().take(k2));
        assert(s.take(k)[0] == s[0]);
        assert(e == e0 + vstd::utf8::encode_utf8(s.drop_first()));
        assert(vstd::utf8::encode_utf8(s.take(k)) =~= e.take(n));
    }
}

/// The byte form of the case-insensitive prefix match: the prefix's bytes must fit, end
/// on a character boundary, and equal the leading bytes with ASCII letters lower-cased; what
/// follows is the rest of the bytes.
pub open spec fn strip_prefix_ci_bytes(s: Seq<u8>, p: Seq<u8>) -> Option<Seq<u8>> {
    if p.len() <= s.len() && vstd::utf8::is_char_boundary(s, p.len() as int) && lower_bytes(
        s.take(p.len() as int),
    ) == lower_bytes(p) {
        Some(s.skip(p.len() as int))
    } else {
        None
    }
}

/// The character form of the case-insensitive prefix match agrees with the byte form on the
/// texts' UTF-8 encodings: both match or neither does, and the rest is the same text.
pub proof fn lemma_strip_prefix_bytes(s: Seq<char>, p: Seq<char>)
    ensures
        match strip_prefix_ci_spec(s, p) {
            Some(t) => strip_prefix_ci_bytes(vstd::utf8::encode_utf8(s), vstd::utf8::encode_utf8(p))
                == Some(vstd::utf8::encode_utf8(t)),
            None => strip_prefix_ci_bytes(vstd::utf8::encode_utf8(s), vstd::utf8::encode_utf8(p)) is None,
        },
{
    let se = vstd::utf8::encode_utf8(s);
    let pe = vstd::utf8::encode_utf8(p);
    let n = pe.len() as int;
    lemma_lower_encode(p);
    if strip_prefix_ci_spec(s, p) is Some {
        let m = p.len() as int;
        let t = s.take(m);
        let u = s.skip(m);
        assert(s =~= t + u);
        lemma_encode_concat(t, u);
        lemma_lower_encode(t);
        let te = vstd::utf8::encode_utf8(t);
        assert(lower_bytes(te).len() == te.len());
        assert(lower_bytes(pe).len() == pe.len());
        assert(te.len() == n);
        assert(se.take(n) =~= te);
        assert(se.skip(n) =~= vstd::utf8::encode_utf8(u));
        lemma_boundary_at_prefix(t, u);
    } else {
        if strip_prefix_ci_bytes(se, pe) is Some {
            lemma_boundary_is_char_prefix(s, n);
            let k = choose|k: int|
                0 <= k <= s.len() && #[trigger] vstd::utf8::encode_utf8(s.take(k)) == se.take(n);
            lemma_lower_encode(s.take(k));
            vstd::utf8::encode_utf8_decode_utf8(lower_seq(s.take(k)));
            vstd::utf8::encode_utf8_decode_utf8(lower_seq(p));
            assert(lower_seq(s.take(k)) == lower_seq(p));
            assert(lower_seq(s.take(k)).len() == k);
            assert(k == p.len());
        }
    }
}

proof fn lemma_ascii_prefix_boundary(chars: Seq<char>, n: int)
    requires
        0 <= n <= chars.len(),
        forall|i: int| 0 <= i < n ==> '\0' <= #[trigger] chars[i] <= '\u{7f}',
    ensures
        n <= vstd::utf8::encode_utf8(chars).len(),
        vstd::utf8::is_char_boundary(vstd::utf8::encode_utf8(chars), n),
    decreases n,
{
    vstd::utf8::encode_utf8_valid_utf8(chars);
    if n > 0 {
        let bytes = vstd::utf8::encode_utf8(chars);
        vstd::utf8::encode_utf8_first_scalar(chars);
        assert(vstd::utf8::encode_scalar(chars[0] as u32).len() == 1);
        assert(vstd::utf8::pop_first_scalar(bytes) =~= vstd::utf8::encode_utf8(chars.drop_first()));
        assert forall|i: int| 0 <= i < n - 1 implies '\0' <= #[trigger] chars.drop_first()[i] <= '\u{7f}' by {
            assert(chars.drop_first()[i] == chars[i + 1]);
        }
        lemma_ascii_prefix_boundary(chars.drop_first(), n - 1);
    }
}

/// An ASCII prefix matched ignoring case ends on a character boundary of `s`'s UTF-8 bytes: the
/// characters it matched are ASCII, one byte each.
pub proof fn lemma_ascii_strip_at_boundary(s: Seq<char>, p: Seq<char>)
    requires
        vstd::utf8::is_ascii_chars(p),
        strip_prefix_ci_spec(s, p) is Some,
    ensures
        p.len() <= vstd::utf8::encode_utf8(s).len(),
        vstd::utf8::is_char_boundary(vstd::utf8::encode_utf8(s), p.len() as int),
{
    assert forall|i: int| 0 <= i < p.len() implies '\0' <= #[trigger] s[i] <= '\u{7f}' by {
        assert(lower_seq(s.take(p.len() as int))[i] == lower_seq(p)[i]);
        assert('\0' <= p[i] <= '\u{7f}');
    }
    lemma_ascii_prefix_boundary(s, p.len() as int);
}

/// `s` without `prefix`, compared ignoring ASCII case. Stated both character by character and
/// on the UTF-8 bytes: the prefix's bytes must fit, end on a character boundary of `s` (else the
/// answer is `None`), and match the leading bytes ignoring ASCII case.
pub fn strip_prefix_ci(s: &str, prefix: &str) -> (r: Option<String>)
    ensures
        opt_view(r) == strip_prefix_ci_spec(s@, prefix@),
        match r {
            Some(t) => strip_prefix_ci_bytes(vstd::utf8::encode_utf8(s@), vstd::utf8::encode_utf8(prefix@))
                == Some(vstd::utf8::encode_utf8(t@)),
            None => strip_prefix_ci_bytes(vstd::utf8::encode_utf8(s@), vstd::utf8::encode_utf8(prefix@))
                is None,
        },
{
    proof {
        lemma_strip_prefix_bytes(s@, prefix@);
    }
    match strip_prefix_ci_v(&to_chars(s), &to_chars(prefix)) {
        Some(v) => Some(from_chars(&v)),
        None => None,
    }
}

/// The first piece that starts with a version run, as that run.
pub open spec fn first_version(pieces: Seq<Seq<char>>) -> Option<Seq<char>>
    decreases pieces.len(),
{
    if pieces.len() == 0 {
        None
    } else {
        match version_prefix_of(pieces[0]) {
            Some(v) => Some(v),
            None => first_version(pieces.drop_first()),
        }
    }
}

/// The first `Name/1.2.3` token that yields both a product and a version.
pub open spec fn first_named_version(tokens: Seq<Seq<char>>) -> Option<(Seq<char>, Seq<char>)>
    decreases tokens.len(),
{
    if tokens.len() == 0 {
        None
    } else {
        let t = tokens[0];
        let pv = product_version(t);
        if t.contains('/') && pv.0 is Some && pv.1 is Some {
            Some((pv.0->0, pv.1->0))
        } else {
            first_named_version(tokens.drop_first())
        }
    }
}

/// Index of the first known product named (case-insensitively) in a lower-cased banner.
pub open spec fn first_known_from(lower: Seq<char>, k: int) -> Option<int>
    decreases known_products().len() - k,
{
    if k < 0 || k >= known_products().len() {
        None
    } else if find_sub(lower, lower_seq(known_products()[k])) is Some {
        Some(k)
    } else {
        first_known_from(lower, k + 1)
    }
}

pub open spec fn version_delims() -> Seq<char> {
    seq![' ', '/', '_', '(', ')', ',', '\t']
}

pub open spec fn token_delims() -> Seq<char> {
    seq![' ', '\t', '(', ')', ',']
}

/// Product and version after reading a service banner; each is only assigned when the banner
/// says something confident, and left as it was otherwise.
///
/// 1. An `SSH-<proto>-<software>` banner names its software explicitly.
/// 2. Else the first known product named anywhere, with the version token that follows it.
/// 3. Else the first `Name/1.2.3` token.
pub open spec fn banner_product_spec(
    banner: Seq<char>,
    product: Option<Seq<char>>,
    version: Option<Seq<char>>,
) -> (Option<Seq<char>>, Option<Seq<char>>) {
    match ssh_software(banner) {
        Some(software) => {
            let pv = product_version(first_token(software));
            (assigned(product, pv.0), assigned(version, pv.1))
        },
        None => match known_product_hit(banner) {
            Some((name, after)) => (
                Some(name),
                assigned(version, first_version(split_on(after, version_delims()))),
            ),
            None => match first_named_version(split_on(banner, token_delims())) {
                Some((p, v)) => (Some(p), Some(v)),
                None => (product, version),
            },
        },
    }
}

/// Reading a banner never clears an out-parameter: a product or version that was known before
/// is still known after, whatever the banner says.
pub proof fn lemma_banner_product_keeps_known(
    banner: Seq<char>,
    product: Option<Seq<char>>,
    version: Option<Seq<char>>,
)
    ensures
        product is Some ==> banner_product_spec(banner, product, version).0 is Some,
        version is Some ==> banner_product_spec(banner, product, version).1 is Some,
{
}

proof fn lemma_split_lacks(s: Seq<char>, delims: Seq<char>, cur: Seq<char>, c: char)
    requires
        !s.contains(c),
        !cur.contains(c),
    ensures
        forall|k: int|
            0 <= k < split_from(s, delims, cur).len() ==> !(#[trigger] split_from(s, delims, cur)[k]).contains(c),
    decreases s.len(),
{
    if s.len() == 0 {
        assert(split_from(s, delims, cur) =~= seq![cur]);
        assert(split_from(s, delims, cur)[0] == cur);
    } else {
        assert(s[0] != c);
        assert(!s.drop_first().contains(c)) by {
            if s.drop_first().contains(c) {
                let j = choose|j: int| 0 <= j < s.drop_first().len() && s.drop_first()[j] == c;
                assert(s[j + 1] == c);
            }
        }
        if delims.contains(s[0]) {
            lemma_split_lacks(s.drop_first(), delims, Seq::empty(), c);
            let rest = split_from(s.drop_first(), delims, Seq::empty());
            let all = split_from(s, delims, cur);
            assert(all == seq![cur] + rest);
            assert forall|k: int| 0 <= k < all.len() implies !(#[trigger] all[k]).contains(c) by {
                if k > 0 {
                    assert(all[k] == rest[k - 1]);
                } else {
                    assert(all[0] == cur);
                }
            }
        } else {
            assert(!cur.push(s[0]).contains(c)) by {
                if cur.push(s[0]).contains(c) {
                    let j = choose|j: int| 0 <= j < cur.push(s[0]).len() && cur.push(s[0])[j] == c;
                    if j < cur.len() {
                        assert(cur[j] == c);
                    }
                }
            }
            lemma_split_lacks(s.drop_first(), delims, cur.push(s[0]), c);
            assert(split_from(s, delims, cur) == split_from(s.drop_first(), delims, cur.push(s[0])));
        }
    }
}

proof fn lemma_no_slash_no_named(tokens: Seq<Seq<char>>)
    requires
        forall|k: int| 0 <= k < tokens.len() ==> !(#[trigger] tokens[k]).contains('/'),
    ensures
        first_named_version(tokens) is None,
    decreases tokens.len(),
{
    if tokens.len() > 0 {
        assert(!tokens[0].contains('/'));
        assert forall|k: int| 0 <= k < tokens.drop_first().len() implies !(#[trigger] tokens.drop_first()[k]).contains('/') by {
            assert(tokens.drop_first()[k] == tokens[k + 1]);
        }
        lemma_no_slash_no_named(tokens.drop_first());
    }
}

proof fn lemma_find_sub_needs(s: Seq<char>, p: Seq<char>, j: int)
    requires
        0 <= j < p.len(),
        !s.contains(p[j]),
    ensures
        find_sub(s, p) is None,
{
    crate::text::lemma_find_sub(s, p);
    if find_sub(s, p) is Some {
        let i = find_sub(s, p)->0;
        assert(occurs_at(s, p, i));
        assert(s.subrange(i, i + p.len())[j] == p[j]);
        assert(s[i + j] == p[j]);
    }
}

/// An IMAP greeting names no product and carries no `Name/version` token: reading it leaves a
/// known product and version as they were.
pub proof fn lemma_imap_greeting_untouched(product: Option<Seq<char>>, version: Option<Seq<char>>)
    ensures
        banner_product_spec("* OK [CAPABILITY IMAP4rev1]"@, product, version) == (product, version),
{
    let b = "* OK [CAPABILITY IMAP4rev1]"@;
    reveal_strlit("* OK [CAPABILITY IMAP4rev1]");
    reveal_strlit("SSH-");
    let lb = seq!['*', ' ', 'o', 'k', ' ', '[', 'c', 'a', 'p', 'a', 'b', 'i', 'l', 'i', 't', 'y', ' ', 'i', 'm', 'a', 'p', '4', 'r', 'e', 'v', '1', ']'];
    assert(lower_seq(b) =~= lb);
    assert(lower_seq(b.take(4))[0] == '*');
    assert(lower_seq("SSH-"@)[0] == 's');
    assert(strip_prefix_ci_spec(b, "SSH-"@) is None);
    assert(ssh_software(b) is None);
    assert(!b.contains('/'));
    lemma_split_lacks(b, token_delims(), Seq::empty(), '/');
    lemma_no_slash_no_named(split_on(b, token_delims()));
    assert(!lb.contains('s'));
    assert(!lb.contains('d'));
    assert(!lb.contains('f'));
    assert(!lb.contains('u'));
    assert(!lb.contains('x'));
    assert(!lb.contains('n'));
    assert(!lb.contains('h'));
    reveal_strlit("OpenSSH");
    reveal_strlit("Dropbear");
    reveal_strlit("ProFTPD");
    reveal_strlit("vsFTPd");
    reveal_strlit("Pure-FTPd");
    reveal_strlit("FileZilla");
    reveal_strlit("Postfix");
    reveal_strlit("Exim");
    reveal_strlit("Sendmail");
    reveal_strlit("Dovecot");
    reveal_strlit("nginx");
    reveal_strlit("Apache");
    reveal_strlit("lighttpd");
    reveal_strlit("Caddy");
    let kp = known_products();
    assert forall|k: int| 0 <= k < kp.len() implies find_sub(lb, lower_seq(#[trigger] kp[k])) is None by {
        let l = lower_seq(kp[k]);
        if k == 0 { assert(l[4] == 's'); lemma_find_sub_needs(lb, l, 4); }
        else if k == 1 { assert(l[0] == 'd'); lemma_find_sub_needs(lb, l, 0); }
        else if k == 2 { assert(l[3] == 'f'); lemma_find_sub_needs(lb, l, 3); }
        else if k == 3 { assert(l[1] == 's'); lemma_find_sub_needs(lb, l, 1); }
        else if k == 4 { assert(l[1] == 'u'); lemma_find_sub_needs(lb, l, 1); }
        else if k == 5 { assert(l[0] == 'f'); lemma_find_sub_needs(lb, l, 0); }
        else if k == 6 { assert(l[2] == 's'); lemma_find_sub_needs(lb, l, 2); }
        else if k == 7 { assert(l[1] == 'x'); lemma_find_sub_needs(lb, l, 1); }
        else if k == 8 { assert(l[0] == 's'); lemma_find_sub_needs(lb, l, 0); }
        else if k == 9 { assert(l[0] == 'd'); lemma_find_sub_needs(lb, l, 0); }
        else if k == 10 { assert(l[0] == 'n'); lemma_find_sub_needs(lb, l, 0); }
        else if k == 11 { assert(l[4] == 'h'); lemma_find_sub_needs(lb, l, 4); }
        else if k == 12 { assert(l[3] == 'h'); lemma_find_sub_needs(lb, l, 3); }
        else { assert(l[2] == 'd'); lemma_find_sub_needs(lb, l, 2); }
    }
    lemma_none_known_from(lb, 0);
}

proof fn lemma_none_known_from(lower: Seq<char>, k: int)
    requires
        0 <= k,
        forall|m: int| 0 <= m < known_products().len() ==> find_sub(lower, lower_seq(#[trigger] known_products()[m])) is None,
    ensures
        first_known_from(lower, k) is None,
    decreases known_products().len() - k,
{
    if k < known_products().len() {
        lemma_none_known_from(lower, k + 1);
    }
}

/// The software part of an `SSH-<proto>-<software>` banner (`SSH-` matched ignoring case).
pub open spec fn ssh_software(banner: Seq<char>) -> Option<Seq<char>> {
    match strip_prefix_ci_spec(banner, "SSH-"@) {
        Some(rest) => match split_once_char(rest, '-') {
            Some(parts) => Some(parts.1),
            None => None,
        },
        None => None,
    }
}

/// The first known product named in a banner, with the text after its first mention.
pub open spec fn known_product_hit(banner: Seq<char>) -> Option<(Seq<char>, Seq<char>)> {
    let lower = lower_seq(banner);
    match first_known_from(lower, 0) {
        Some(k) => {
            let name = known_products()[k];
            let pos = find_sub(lower, lower_seq(name))->0;
            Some((name, banner.skip(pos + name.len())))
        },
        None => None,
    }
}

fn delims_v(chars: &str) -> (r: Vec<char>)
    ensures
        r@ == chars@,
{
    lit(chars)
}

fn first_version_v(pieces: &Vec<Vec<char>>) -> (r: Option<Vec<char>>)
    ensures
        match r {
            Some(v) => first_version(views(pieces@)) == Some(v@),
            None => first_version(views(pieces@)) is None,
        },
{
    let mut i: usize = 0;
    assert(views(pieces@).skip(0) =~= views(pieces@));
    while i < pieces.len()
        invariant
            i <= pieces.len(),
            first_version(views(pieces@)) == first_version(views(pieces@).skip(i as int)),
        decreases pieces.len() - i,
    {
        proof {
            assert(views(pieces@).skip(i as int)[0] == pieces@[i as int]@);
            assert(views(pieces@).skip(i as int).drop_first() =~= views(pieces@).skip(i + 1));
        }
        if let Some(v) = version_prefix_v(&pieces[i]) {
            return Some(v);
        }
        i += 1;
    }
    None
}

fn first_named_version_v(tokens: &Vec<Vec<char>>) -> (r: Option<(Vec<char>, Vec<char>)>)
    ensures
        match r {
            Some((p, v)) => first_named_version(views(tokens@)) == Some((p@, v@)),
            None => first_named_version(views(tokens@)) is None,
        },
{
    let mut i: usize = 0;
    assert(views(tokens@).skip(0) =~= views(tokens@));
    while i < tokens.len()
        invariant
            i <= tokens.len(),
            first_named_version(views(tokens@)) == first_named_version(views(tokens@).skip(i as int)),
        decreases tokens.len() - i,
    {
        proof {
            assert(views(tokens@).skip(i as int)[0] == tokens@[i as int]@);
            assert(views(tokens@).skip(i as int).drop_first() =~= views(tokens@).skip(i + 1));
        }
        let t = &tokens[i];
        let has_slash = find_char_v(t, '/').is_some();
        proof {
            lemma_find_char_by(t@, crate::text::eq_to('/'));
            if t@.contains('/') {
                let w = choose|w: int| 0 <= w < t@.len() && t@[w] == '/';
                assert((crate::text::eq_to('/'))(t@[w]));
            }
        }
        if has_slash {
            let (p, v) = product_version_v(t);
            match (p, v) {
                (Some(p), Some(v)) => {
                    return Some((p, v));
                },
                _ => {},
            }
        }
        i += 1;
    }
    None
}

/// Best-effort product + version from a service banner. Only assigns when confident; leaves the
/// out-params untouched otherwise. A banner whose first four characters are not `SSH-` (in any
/// ASCII case), such as one whose fourth byte falls inside a character, has no SSH software part.
pub fn banner_product(banner: &str, product: &mut Option<String>, version: &mut Option<String>)
    ensures
        (opt_view(*final(product)), opt_view(*final(version))) == banner_product_spec(
            banner@,
            opt_view(*old(product)),
            opt_view(*old(version)),
        ),
        !(4 <= vstd::utf8::encode_utf8(banner@).len() && vstd::utf8::is_char_boundary(
            vstd::utf8::encode_utf8(banner@),
            4,
        )) ==> ssh_software(banner@) is None,
        *old(product) is Some ==> *final(product) is Some,
        *old(version) is Some ==> *final(version) is Some,
{
    proof {
        lemma_banner_product_keeps_known(banner@, opt_view(*old(product)), opt_view(*old(version)));
        reveal_strlit("SSH-");
        if strip_prefix_ci_spec(banner@, "SSH-"@) is Some {
            assert(vstd::utf8::is_ascii_chars("SSH-"@));
            lemma_ascii_strip_at_boundary(banner@, "SSH-"@);
        }
    }
    let b = to_chars(banner);
    if let Some(rest) = strip_prefix_ci_v(&b, &lit("SSH-")) {
        if let Some(dash) = find_char_v(&rest, '-') {
            proof {
                assert(rest@.skip(dash + 1) =~= rest@.subrange(dash + 1, rest@.len() as int));
            }
            let software = subrange(&rest, dash + 1, rest.len());
            assert(strip_prefix_ci_spec(banner@, "SSH-"@) == Some(rest@));
            assert(split_once_char(rest@, '-') == Some((rest@.take(dash as int), software@)));
            let (p, v) = product_version_v(&first_token_v(&software));
            assign(product, opt_string(p));
            assign(version, opt_string(v));
            return;
        }
    }
    assert(ssh_software(banner@) is None);
    let lower = lower_v(&b);
    let names = known_products_v();
    let mut k: usize = 0;
    while k < names.len()
        invariant
            k <= names.len(),
            str_views(names@) == known_products(),
            lower@ == lower_seq(b@),
            b@ == banner@,
            first_known_from(lower@, 0) == first_known_from(lower@, k as int),
            *product == *old(product),
            *version == *old(version),
            ssh_software(banner@) is None,
        decreases names.len() - k,
    {
        let name = names[k];
        assert(name@ == known_products()[k as int]);
        let needle = lower_v(&lit(name));
        if let Some(pos) = find_sub_v(&lower, &needle) {
            assert(occurs_at(lower@, needle@, pos as int));
            let ln = lower.len();
            assert(pos + needle@.len() <= ln);
            assert(lower@.len() == b@.len());
            proof {
                assert(lower_seq(name@).len() == name@.len());
                assert(b@.skip(pos + name@.len()) =~= b@.subrange(pos + needle@.len(), b@.len() as int));
            }
            let after = subrange(&b, pos + needle.len(), b.len());
            let pieces = split_on_v(&after, &delims_v(" /_(),\t"));
            proof {
                reveal_strlit(" /_(),\t");
                assert(" /_(),\t"@ =~= version_delims());
            }
            *product = Some(name.to_owned());
            assign(version, opt_string(first_version_v(&pieces)));
            assert(first_known_from(lower@, k as int) == Some(k as int));
            assert(find_sub(lower@, lower_seq(name@)) == Some(pos as int));
            assert(after@ == banner@.skip(pos + name@.len()));
            assert(views(pieces@) == split_on(after@, version_delims()));
            assert(opt_view(*product) == Some(name@));
            assert(opt_view(*version) == assigned(opt_view(*old(version)), first_version(split_on(after@, version_delims()))));
            assert(known_product_hit(banner@) == Some((name@, after@)));
            return;
        }
        k += 1;
    }
    let tokens = split_on_v(&b, &delims_v(" \t(),"));
    proof {
        reveal_strlit(" \t(),");
        assert(" \t(),"@ =~= token_delims());
    }
    if let Some((p, v)) = first_named_version_v(&tokens) {
        assign(product, Some(from_chars(&p)));
        assign(version, Some(from_chars(&v)));
    }
}

// ---- the HTTP probe's request and read -------------------------------------------------------

/// Maximum bytes read from an HTTP response while hunting for the `<title>`.
pub const HTTP_READ_CAP: usize = 16384;

/// The minimal HTTP/1.0 request sent to probe a web service at `host`.
pub open spec fn http_request_text(host: Seq<char>) -> Seq<char> {
    "GET / HTTP/1.0\r\nHost: "@ + host + "\r\nUser-Agent: homelab-utils\r\nAccept: */*\r\n\r\n"@
}

/// The probe request for the web service at `ip`.
pub fn http_request(ip: &crate::model::IpAddress) -> (r: String)
    ensures
        r@ == http_request_text(ip.text()),
{
    let mut v = to_chars("GET / HTTP/1.0\r\nHost: ");
    append(&mut v, &to_chars(ip.to_text().as_str()));
    append(&mut v, &to_chars("\r\nUser-Agent: homelab-utils\r\nAccept: */*\r\n\r\n"));
    from_chars(&v)
}

/// Whether enough of a response has arrived: the read cap is reached, or both the end of the
/// headers and a closing `</title>` (in any case) are in.
pub open spec fn http_read_enough(data: Seq<u8>) -> bool {
    data.len() >= HTTP_READ_CAP || ((exists|i: int| bytes_at(data, seq![13u8, 10, 13, 10], i)) && (exists|i: int|
        bytes_at_ci(data, seq![60u8, 47, 116, 105, 116, 108, 101, 62], i)))
}

/// Whether the HTTP probe can stop reading (EOF, a read error and the deadline also stop it).
pub fn http_read_complete(data: &[u8]) -> (r: bool)
    ensures
        r == http_read_enough(data@),
{
    if data.len() >= HTTP_READ_CAP {
        return true;
    }
    let end_of_head: [u8; 4] = [13, 10, 13, 10];
    let close_title: [u8; 8] = [60, 47, 116, 105, 116, 108, 101, 62];
    assert(end_of_head@ =~= seq![13u8, 10, 13, 10]);
    assert(close_title@ =~= seq![60u8, 47, 116, 105, 116, 108, 101, 62]);
    has_subsequence(data, end_of_head.as_slice()) && contains_ci(data, close_title.as_slice())
}

// ---- byte helpers -----------------------------------------------------------------------------

/// `needle` occurs in `haystack` at `i`.
pub open spec fn bytes_at(haystack: Seq<u8>, needle: Seq<u8>, i: int) -> bool {
    0 <= i && i + needle.len() <= haystack.len() && haystack.subrange(i, i + needle.len()) == needle
}

/// Whether a non-empty `needle` occurs in `haystack`.
pub fn has_subsequence(haystack: &[u8], needle: &[u8]) -> (r: bool)
    ensures
        r == (needle@.len() > 0 && exists|i: int| bytes_at(haystack@, needle@, i)),
{
    if needle.len() == 0 || haystack.len() < needle.len() {
        return false;
    }
    let mut i: usize = 0;
    while i <= haystack.len() - needle.len()
        invariant
            0 < needle.len() <= haystack.len(),
            i <= haystack.len() - needle.len() + 1,
            forall|j: int| 0 <= j < i ==> !bytes_at(haystack@, needle@, j),
        decreases haystack.len() - needle.len() + 1 - i,
    {
        let mut k: usize = 0;
        let mut same = true;
        while k < needle.len()
            invariant
                k <= needle.len(),
                i + needle.len() <= haystack.len(),
                same == forall|m: int| 0 <= m < k ==> #[trigger] haystack@[i + m] == needle@[m],
            decreases needle.len() - k,
        {
            if haystack[i + k] != needle[k] {
                same = false;
            }
            k += 1;
        }
        if same {
            assert forall|m: int| 0 <= m < needle@.len() implies haystack@.subrange(
                i as int,
                i + needle@.len(),
            )[m] == needle@[m] by {
                assert(haystack@[i + m] == needle@[m]);
            }
            assert(haystack@.subrange(i as int, i + needle@.len()) =~= needle@);
            assert(bytes_at(haystack@, needle@, i as int));
            return true;
        }
        proof {
            if bytes_at(haystack@, needle@, i as int) {
                assert forall|m: int| 0 <= m < needle.len() implies haystack@[i + m] == needle@[m] by {
                    assert(haystack@.subrange(i as int, i + needle.len())[m] == needle@[m]);
                }
            }
        }
        i += 1;
    }
    proof {
        assert forall|j: int| !bytes_at(haystack@, needle@, j) by {
            if 0 <= j && j + needle.len() <= haystack.len() {
                assert(j < i);
            }
        }
    }
    false
}

/// `u8::to_ascii_lowercase`.
pub open spec fn lower_byte(b: u8) -> u8 {
    if 65 <= b <= 90 {
        (b + 32) as u8
    } else {
        b
    }
}

/// A lower-case `needle` occurs in `haystack` at `i`, ignoring ASCII case in the haystack.
pub open spec fn bytes_at_ci(haystack: Seq<u8>, needle: Seq<u8>, i: int) -> bool {
    0 <= i && i + needle.len() <= haystack.len() && forall|m: int|
        0 <= m < needle.len() ==> lower_byte(#[trigger] haystack[i + m]) == needle[m]
}

/// Case-insensitive byte search; `needle` must already be lowercase.
pub fn contains_ci(haystack: &[u8], needle: &[u8]) -> (r: bool)
    ensures
        r == (needle@.len() > 0 && exists|i: int| bytes_at_ci(haystack@, needle@, i)),
{
    if needle.len() == 0 || haystack.len() < needle.len() {
        return false;
    }
    let mut i: usize = 0;
    while i <= haystack.len() - needle.len()
        invariant
            0 < needle.len() <= haystack.len(),
            i <= haystack.len() - needle.len() + 1,
            forall|j: int| 0 <= j < i ==> !bytes_at_ci(haystack@, needle@, j),
        decreases haystack.len() - needle.len() + 1 - i,
    {
        let mut k: usize = 0;
        let mut same = true;
        while k < needle.len()
            invariant
                k <= needle.len(),
                i + needle.len() <= haystack.len(),
                same == forall|m: int| 0 <= m < k ==> lower_byte(#[trigger] haystack@[i + m]) == needle@[m],
            decreases needle.len() - k,
        {
            let b = haystack[i + k];
            let lb: u8 = if 65 <= b && b <= 90 {
                b + 32
            } else {
                b
            };
            if lb != needle[k] {
                same = false;
            }
            k += 1;
        }
        if same {
            assert(bytes_at_ci(haystack@, needle@, i as int));
            return true;
        }
        i += 1;
    }
    proof {
        assert forall|j: int| !bytes_at_ci(haystack@, needle@, j) by {
            if 0 <= j && j + needle.len() <= haystack.len() {
                assert(j < i);
            }
        }
    }
    false
}

} // verus!
