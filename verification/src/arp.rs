//! Reading the operating system's ARP/neighbour cache. After the TCP sweep has made the OS
//! resolve MACs for responsive hosts, the cache is a free source of IP→MAC mappings. The caller
//! reads `/proc/net/arp` on Linux or the output of `arp -a` elsewhere; this module extracts an
//! IP and a MAC from each line of either.
use vstd::prelude::*;
use crate::discovery::{first_entry, find_entry, has_entry, lemma_first_entry, one_entry_each};
use crate::model::IpAddress;
use crate::net::{ip_of, is_colon_mac, parse_ip_chars};
use crate::text::{
    from_chars, is_ascii_hex, is_ws, lemma_skip_step, lemma_views_push, lines, lines_v, lit,
    lower_seq, lower_v, replace_all, replace_all_v, split_from, split_on, split_on_v, to_chars, views,
    char_is_ws, eq_v,
};

verus! {

// ---- words ----------------------------------------------------------------------------------

/// `str::split_whitespace`, written as a scan that carries the word being read.
pub open spec fn words_from(s: Seq<char>, cur: Seq<char>) -> Seq<Seq<char>>
    decreases s.len(),
{
    if s.len() == 0 {
        if cur.len() == 0 {
            Seq::empty()
        } else {
            seq![cur]
        }
    } else if is_ws(s[0]) {
        if cur.len() == 0 {
            words_from(s.drop_first(), Seq::empty())
        } else {
            seq![cur] + words_from(s.drop_first(), Seq::empty())
        }
    } else {
        words_from(s.drop_first(), cur.push(s[0]))
    }
}

pub open spec fn words(s: Seq<char>) -> Seq<Seq<char>> {
    words_from(s, Seq::empty())
}

/// `str::split_whitespace`.
pub fn words_v(s: &Vec<char>) -> (r: Vec<Vec<char>>)
    ensures
        views(r@) == words(s@),
{
    let mut out: Vec<Vec<char>> = Vec::new();
    let mut cur: Vec<char> = Vec::new();
    let mut i: usize = 0;
    assert(s@.skip(0) =~= s@);
    while i < s.len()
        invariant
            i <= s.len(),
            views(out@) + words_from(s@.skip(i as int), cur@) == words(s@),
        decreases s.len() - i,
    {
        proof {
            lemma_skip_step(s@, i as int);
        }
        if char_is_ws(s[i]) {
            if cur.len() > 0 {
                proof {
                    lemma_views_push(out@, cur);
                    assert(views(out@.push(cur)) + words_from(s@.skip(i + 1), Seq::empty()) =~= views(out@)
                        + (seq![cur@] + words_from(s@.skip(i + 1), Seq::empty())));
                }
                out.push(cur);
                cur = Vec::new();
            } else {
                assert(cur@ =~= Seq::<char>::empty());
            }
        } else {
            cur.push(s[i]);
        }
        i += 1;
    }
    proof {
        assert(s@.skip(i as int) =~= Seq::<char>::empty());
    }
    if cur.len() > 0 {
        proof {
            lemma_views_push(out@, cur);
        }
        out.push(cur);
    } else {
        assert(views(out@) + Seq::<Seq<char>>::empty() =~= views(out@));
    }
    out
}

// ---- tokens ---------------------------------------------------------------------------------

pub open spec fn is_paren(c: char) -> bool {
    c == '(' || c == ')'
}

/// Leading `(`/`)` removed.
pub open spec fn strip_parens_start(s: Seq<char>) -> Seq<char>
    decreases s.len(),
{
    if s.len() > 0 && is_paren(s[0]) {
        strip_parens_start(s.drop_first())
    } else {
        s
    }
}

/// Trailing `(`/`)` removed.
pub open spec fn strip_parens_end(s: Seq<char>) -> Seq<char>
    decreases s.len(),
{
    if s.len() > 0 && is_paren(s.last()) {
        strip_parens_end(s.drop_last())
    } else {
        s
    }
}

/// `trim_matches` of `(` and `)` on both ends.
pub open spec fn unparen(s: Seq<char>) -> Seq<char> {
    strip_parens_end(strip_parens_start(s))
}

fn unparen_v(s: &Vec<char>) -> (r: Vec<char>)
    ensures
        r@ == unparen(s@),
{
    let mut i: usize = 0;
    assert(s@.skip(0) =~= s@);
    while i < s.len() && (s[i] == '(' || s[i] == ')')
        invariant
            i <= s.len(),
            strip_parens_start(s@) == strip_parens_start(s@.skip(i as int)),
        decreases s.len() - i,
    {
        proof {
            lemma_skip_step(s@, i as int);
        }
        i += 1;
    }
    let mut j: usize = s.len();
    proof {
        if i < s.len() {
            lemma_skip_step(s@, i as int);
        }
        assert(strip_parens_start(s@) == s@.subrange(i as int, j as int));
    }
    while j > i && (s[j - 1] == '(' || s[j - 1] == ')')
        invariant
            i <= j <= s.len(),
            unparen(s@) == strip_parens_end(s@.subrange(i as int, j as int)),
        decreases j,
    {
        proof {
            assert(s@.subrange(i as int, j as int).drop_last() =~= s@.subrange(i as int, j - 1));
        }
        j -= 1;
    }
    let mut out: Vec<char> = Vec::new();
    let mut k: usize = i;
    while k < j
        invariant
            i <= k <= j <= s.len(),
            out@ =~= s@.subrange(i as int, k as int),
        decreases j - k,
    {
        out.push(s[k]);
        k += 1;
    }
    out
}

/// A MAC token (`aa-bb-..` or `aa:bb:..`, any case) in canonical lowercase colon form, or
/// `None` when it is not six two-digit hex octets.
pub open spec fn normalized_mac(token: Seq<char>) -> Option<Seq<char>> {
    let lowered = lower_seq(replace_all(token, "-"@, ":"@));
    let parts = split_on(lowered, seq![':']);
    if parts.len() == 6 && forall|i: int|
        0 <= i < 6 ==> (#[trigger] parts[i]).len() == 2 && is_ascii_hex(parts[i][0]) && is_ascii_hex(
            parts[i][1],
        ) {
        Some(lowered)
    } else {
        None
    }
}

fn normalize_mac_v(token: &Vec<char>) -> (r: Option<Vec<char>>)
    ensures
        match r {
            Some(v) => normalized_mac(token@) == Some(v@),
            None => normalized_mac(token@) is None,
        },
{
    let dash = lit("-");
    let colon = lit(":");
    proof {
        reveal_strlit("-");
        reveal_strlit(":");
    }
    let lowered = lower_v(&replace_all_v(token, &dash, &colon));
    let sep = vec![':'];
    assert(sep@ =~= seq![':']);
    let parts = split_on_v(&lowered, &sep);
    if parts.len() != 6 {
        return None;
    }
    let mut i: usize = 0;
    while i < 6
        invariant
            i <= 6,
            parts@.len() == 6,
            lowered@ == lower_seq(replace_all(token@, "-"@, ":"@)),
            views(parts@) == split_on(lowered@, seq![':']),
            forall|k: int|
                0 <= k < i ==> (#[trigger] views(parts@)[k]).len() == 2 && is_ascii_hex(views(parts@)[k][0])
                    && is_ascii_hex(views(parts@)[k][1]),
        decreases 6 - i,
    {
        assert(views(parts@)[i as int] == parts@[i as int]@);
        let p = &parts[i];
        assert(split_on(lowered@, seq![':'])[i as int] == p@);
        if p.len() != 2 {
            return None;
        }
        if !(crate::text::char_is_hex(p[0]) && crate::text::char_is_hex(p[1])) {
            return None;
        }
        i += 1;
    }
    Some(lowered)
}

/// Normalise a candidate MAC token to canonical lowercase colon form, or `None` if it is not a
/// 6-octet hex MAC.
pub fn normalize_mac(token: &str) -> (r: Option<String>)
    ensures
        match r {
            Some(v) => normalized_mac(token@) == Some(v@),
            None => normalized_mac(token@) is None,
        },
{
    match normalize_mac_v(&to_chars(token)) {
        Some(v) => Some(from_chars(&v)),
        None => None,
    }
}

// ---- normalized MACs are canonical -------------------------------------------------------------

/// Pieces joined with `:` between them.
pub open spec fn join_colon(parts: Seq<Seq<char>>) -> Seq<char>
    decreases parts.len(),
{
    if parts.len() == 0 {
        Seq::empty()
    } else if parts.len() == 1 {
        parts[0]
    } else {
        parts[0] + seq![':'] + join_colon(parts.drop_first())
    }
}

proof fn lemma_split_join(s: Seq<char>, cur: Seq<char>)
    ensures
        join_colon(split_from(s, seq![':'], cur)) == cur + s,
        split_from(s, seq![':'], cur).len() >= 1,
    decreases s.len(),
{
    if s.len() == 0 {
        assert(cur + s =~= cur);
    } else if seq![':'].contains(s[0]) {
        lemma_split_join(s.drop_first(), Seq::empty());
        let rest = split_from(s.drop_first(), seq![':'], Seq::empty());
        let r = seq![cur] + rest;
        assert(r.drop_first() =~= rest);
        assert(r[0] == cur);
        assert(s[0] == ':');
        assert(Seq::<char>::empty() + s.drop_first() =~= s.drop_first());
        assert(cur + seq![':'] + s.drop_first() =~= cur + s);
    } else {
        lemma_split_join(s.drop_first(), cur.push(s[0]));
        assert(cur.push(s[0]) + s.drop_first() =~= cur + s);
    }
}

/// A normalized MAC is six two-digit hex octets joined by `:` — the canonical colon form.
pub proof fn lemma_normalized_mac_is_colon_mac(token: Seq<char>)
    ensures
        normalized_mac(token) matches Some(m) ==> is_colon_mac(m),
{
    let lowered = lower_seq(replace_all(token, "-"@, ":"@));
    let parts = split_on(lowered, seq![':']);
    if let Some(m) = normalized_mac(token) {
        lemma_split_join(lowered, Seq::empty());
        assert(Seq::<char>::empty() + lowered =~= lowered);
        assert(join_colon(parts) == lowered);
        let p0 = parts[0];
        let p1 = parts[1];
        let p2 = parts[2];
        let p3 = parts[3];
        let p4 = parts[4];
        let p5 = parts[5];
        assert(parts[0].len() == 2 && parts[1].len() == 2 && parts[2].len() == 2);
        assert(parts[3].len() == 2 && parts[4].len() == 2 && parts[5].len() == 2);
        let t5 = parts.drop_first().drop_first().drop_first().drop_first().drop_first();
        assert(t5.len() == 1 && t5[0] == p5);
        let t4 = parts.drop_first().drop_first().drop_first().drop_first();
        let t3 = parts.drop_first().drop_first().drop_first();
        let t2 = parts.drop_first().drop_first();
        let t1 = parts.drop_first();
        assert(t4.drop_first() == t5);
        assert(t3.drop_first() == t4);
        assert(t2.drop_first() == t3);
        assert(t1.drop_first() == t2);
        assert(join_colon(t5) == p5);
        assert(join_colon(t4) == p4 + seq![':'] + p5);
        assert(join_colon(t3) == p3 + seq![':'] + join_colon(t4));
        assert(join_colon(t2) == p2 + seq![':'] + join_colon(t3));
        assert(join_colon(t1) == p1 + seq![':'] + join_colon(t2));
        assert(join_colon(parts) == p0 + seq![':'] + join_colon(t1));
        let whole = p0 + seq![':'] + p1 + seq![':'] + p2 + seq![':'] + p3 + seq![':'] + p4 + seq![':'] + p5;
        assert(m =~= whole);
        assert(m.len() == 17);
        assert forall|i: int| 0 <= i < 17 implies if i % 3 == 2 {
            #[trigger] m[i] == ':'
        } else {
            is_ascii_hex(m[i])
        } by {
            let k = i / 3;
            let o = i % 3;
            assert(0 <= k < 6);
            assert(parts[k].len() == 2 && is_ascii_hex(parts[k][0]) && is_ascii_hex(parts[k][1]));
            if o == 2 {
                assert(m[i] == whole[i]);
            } else {
                assert(m[i] == parts[k][o]);
            }
        }
    }
}

// ---- lines ----------------------------------------------------------------------------------

/// The first IP-like and the first MAC-like token of a line's words, scanning in order: a token
/// that reads as an IP address (while none was found) is taken as the IP and nothing else.
pub open spec fn scan_tokens(ts: Seq<Seq<char>>, ip: Option<IpAddress>, mac: Option<Seq<char>>) -> (
    Option<IpAddress>,
    Option<Seq<char>>,
)
    decreases ts.len(),
{
    if ts.len() == 0 {
        (ip, mac)
    } else {
        let t = unparen(ts[0]);
        if ip is None && ip_of(t) is Some {
            scan_tokens(ts.drop_first(), ip_of(t), mac)
        } else if mac is None && normalized_mac(t) is Some {
            scan_tokens(ts.drop_first(), ip, normalized_mac(t))
        } else {
            scan_tokens(ts.drop_first(), ip, mac)
        }
    }
}

proof fn lemma_scan_tokens_mac(ts: Seq<Seq<char>>, ip: Option<IpAddress>, mac: Option<Seq<char>>)
    requires
        mac matches Some(m) ==> is_colon_mac(m),
    ensures
        scan_tokens(ts, ip, mac).1 matches Some(m) ==> is_colon_mac(m),
    decreases ts.len(),
{
    if ts.len() > 0 {
        let t = unparen(ts[0]);
        lemma_normalized_mac_is_colon_mac(t);
        if ip is None && ip_of(t) is Some {
            lemma_scan_tokens_mac(ts.drop_first(), ip_of(t), mac);
        } else if mac is None && normalized_mac(t) is Some {
            lemma_scan_tokens_mac(ts.drop_first(), ip, normalized_mac(t));
        } else {
            lemma_scan_tokens_mac(ts.drop_first(), ip, mac);
        }
    }
}

/// The all-zero MAC of an incomplete cache entry.
pub open spec fn zero_mac() -> Seq<char> {
    "00:00:00:00:00:00"@
}

/// The cache line's mapping, if it has both an IP and a MAC and the MAC is not all zeros.
pub open spec fn line_entry(line: Seq<char>) -> Option<(IpAddress, Seq<char>)> {
    match scan_tokens(words(line), None, None) {
        (Some(ip), Some(mac)) => if mac == zero_mac() {
            None
        } else {
            Some((ip, mac))
        },
        _ => None,
    }
}

/// The mapping of a cache listing, a later line for the same IP replacing an earlier one.
pub open spec fn cache_map(ls: Seq<Seq<char>>) -> Map<IpAddress, Seq<char>>
    decreases ls.len(),
{
    if ls.len() == 0 {
        Map::empty()
    } else {
        let m = cache_map(ls.drop_last());
        match line_entry(ls.last()) {
            Some((ip, mac)) => m.insert(ip, mac),
            None => m,
        }
    }
}

fn line_pair(line: &Vec<char>) -> (r: Option<(IpAddress, Vec<char>)>)
    ensures
        match r {
            Some((ip, mac)) => line_entry(line@) == Some((ip, mac@)),
            None => line_entry(line@) is None,
        },
{
    let ws = words_v(line);
    let ghost all = views(ws@);
    let mut ip: Option<IpAddress> = None;
    let mut mac: Option<Vec<char>> = None;
    let mut i: usize = 0;
    assert(all.skip(0) =~= all);
    while i < ws.len()
        invariant
            i <= ws@.len(),
            all == views(ws@),
            all == words(line@),
            scan_tokens(all, None, None) == scan_tokens(all.skip(i as int), ip, match mac {
                Some(m) => Some(m@),
                None => None,
            }),
        decreases ws@.len() - i,
    {
        proof {
            assert(all.skip(i as int)[0] == all[i as int]);
            assert(all.skip(i as int).drop_first() =~= all.skip(i + 1));
            assert(all[i as int] == ws@[i as int]@);
        }
        let t = unparen_v(&ws[i]);
        let mut taken = false;
        if ip.is_none() {
            match parse_ip_chars(&t) {
                Some(a) => {
                    ip = Some(a);
                    taken = true;
                },
                None => {},
            }
        }
        if !taken && mac.is_none() {
            match normalize_mac_v(&t) {
                Some(m) => {
                    mac = Some(m);
                },
                None => {},
            }
        }
        i += 1;
    }
    proof {
        assert(all.skip(i as int) =~= Seq::<Seq<char>>::empty());
    }
    match (ip, mac) {
        (Some(a), Some(m)) => {
            let zero = lit("00:00:00:00:00:00");
            proof {
                reveal_strlit("00:00:00:00:00:00");
            }
            if eq_v(&m, &zero) {
                None
            } else {
                Some((a, m))
            }
        },
        _ => None,
    }
}

/// The table as a map: its entries, keyed by address.
pub open spec fn table_map(t: Seq<(IpAddress, String)>) -> Map<IpAddress, Seq<char>> {
    Map::new(|ip: IpAddress| has_entry(t, ip), |ip: IpAddress| t[first_entry(t, ip)->0].1@)
}

/// Extract the first IP-like and first MAC-like token from each line, keeping lines with both
/// and a MAC that is not all zeros. Handles `/proc/net/arp` columns, Windows `arp -a`
/// (dash-separated MACs) and macOS/BSD `arp -a` (`host (ip) at mac`). One entry per IP; a later
/// line for the same IP replaces an earlier one.
pub fn parse_lines(text: &str) -> (r: Vec<(IpAddress, String)>)
    ensures
        one_entry_each(r@),
        table_map(r@) == cache_map(lines(text@)),
        forall|i: int| 0 <= i < r@.len() ==> is_colon_mac(#[trigger] r@[i].1@),
{
    let ls = lines_v(&to_chars(text));
    let ghost all = views(ls@);
    let mut out: Vec<(IpAddress, String)> = Vec::new();
    let mut n: usize = 0;
    while n < ls.len()
        invariant
            n <= ls@.len(),
            all == views(ls@),
            all == lines(text@),
            one_entry_each(out@),
            table_map(out@) == cache_map(all.take(n as int)),
            forall|i: int| 0 <= i < out@.len() ==> is_colon_mac(#[trigger] out@[i].1@),
        decreases ls@.len() - n,
    {
        proof {
            assert(all.take(n + 1).drop_last() =~= all.take(n as int));
            assert(all.take(n + 1).last() == ls@[n as int]@);
        }
        let ghost before = out@;
        match line_pair(&ls[n]) {
            Some((ip, mac)) => {
                let mac_s = from_chars(&mac);
                proof {
                    lemma_first_entry(out@, ip);
                    lemma_scan_tokens_mac(words(ls@[n as int]@), None, None);
                    assert(is_colon_mac(mac@));
                }
                match find_entry(&out, &ip) {
                    Some(k) => {
                        out.set(k, (ip, mac_s));
                        proof {
                            assert forall|a: IpAddress| #[trigger] has_entry(out@, a) == has_entry(before, a) by {
                                if has_entry(before, a) {
                                    let j = choose|j: int| 0 <= j < before.len() && #[trigger] before[j].0 == a;
                                    assert(out@[j].0 == a);
                                }
                                if has_entry(out@, a) {
                                    let j = choose|j: int| 0 <= j < out@.len() && #[trigger] out@[j].0 == a;
                                    assert(before[j].0 == a);
                                }
                            }
                            assert forall|a: IpAddress| has_entry(out@, a) implies first_entry(out@, a) == first_entry(before, a) by {
                                lemma_first_entry(out@, a);
                                lemma_first_entry(before, a);
                                let i1 = first_entry(out@, a)->0;
                                let i2 = first_entry(before, a)->0;
                                assert(out@[i2].0 == a);
                                assert(before[i1].0 == a);
                            }
                            let m1 = table_map(out@);
                            let m2 = table_map(before).insert(ip, mac@);
                            assert forall|a: IpAddress| m1.dom().contains(a) <==> m2.dom().contains(a) by {
                                if a == ip {
                                    assert(out@[k as int].0 == ip);
                                    assert(has_entry(out@, ip));
                                }
                            }
                            assert forall|a: IpAddress| m1.dom().contains(a) implies m1[a] == m2[a] by {
                                lemma_first_entry(out@, a);
                                let i1 = first_entry(out@, a)->0;
                                if a == ip {
                                    assert(i1 == k);
                                } else {
                                    assert(i1 != k);
                                    assert(out@[i1] == before[i1]);
                                }
                            }
                            assert(m1 =~= m2);
                        }
                    },
                    None => {
                        out.push((ip, mac_s));
                        proof {
                            assert forall|a: IpAddress| #[trigger] has_entry(out@, a) == (has_entry(before, a) || a == ip) by {
                                if has_entry(before, a) {
                                    let j = choose|j: int| 0 <= j < before.len() && #[trigger] before[j].0 == a;
                                    assert(out@[j].0 == a);
                                }
                                if has_entry(out@, a) {
                                    let j = choose|j: int| 0 <= j < out@.len() && #[trigger] out@[j].0 == a;
                                    if j < before.len() {
                                        assert(before[j].0 == a);
                                    }
                                }
                                if a == ip {
                                    assert(out@[before.len() as int].0 == a);
                                }
                            }
                            assert forall|a: IpAddress| has_entry(before, a) implies first_entry(out@, a) == first_entry(before, a) by {
                                lemma_first_entry(out@, a);
                                lemma_first_entry(before, a);
                                let i2 = first_entry(before, a)->0;
                                assert(out@[i2].0 == a);
                                let i1 = first_entry(out@, a)->0;
                                if i1 < before.len() {
                                    assert(before[i1].0 == a);
                                }
                            }
                            lemma_first_entry(out@, ip);
                            assert(first_entry(out@, ip) == Some(before.len() as int)) by {
                                let i1 = first_entry(out@, ip)->0;
                                if i1 < before.len() {
                                    assert(before[i1].0 == ip);
                                }
                            }
                            let m1 = table_map(out@);
                            let m2 = table_map(before).insert(ip, mac@);
                            assert forall|a: IpAddress| m1.dom().contains(a) <==> m2.dom().contains(a) by {}
                            assert forall|a: IpAddress| m1.dom().contains(a) implies m1[a] == m2[a] by {
                                lemma_first_entry(out@, a);
                                let i1 = first_entry(out@, a)->0;
                                if a != ip {
                                    assert(has_entry(before, a));
                                    assert(out@[i1] == before[i1]);
                                }
                            }
                            assert(m1 =~= m2);
                        }
                    },
                }
            },
            None => {},
        }
        n += 1;
    }
    assert(all.take(ls@.len() as int) =~= all);
    out
}

} // verus!
