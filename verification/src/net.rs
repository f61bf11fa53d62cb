//! IPv4 addresses: reading dotted-decimal text, the `/24` host range, and the order in which
//! addresses are listed.
use vstd::prelude::*;
use crate::model::IpAddress;
use crate::text::{is_ascii_digit, is_ascii_hex, split_on, split_on_v, to_chars, views};

verus! {

/// An IPv4 address as its four octets.
#[derive(Debug, Clone, Copy, PartialEq, Eq, Structural)]
pub struct Ipv4Address {
    pub a: u8,
    pub b: u8,
    pub c: u8,
    pub d: u8,
}

impl Ipv4Address {
    /// The same address as a general IP address.
    pub open spec fn ip(self) -> IpAddress {
        IpAddress::V4(self.a, self.b, self.c, self.d)
    }

    pub fn to_ip(&self) -> (r: IpAddress)
        ensures
            r == self.ip(),
    {
        IpAddress::V4(self.a, self.b, self.c, self.d)
    }
}

// ---- reading dotted-decimal text ------------------------------------------------------------

/// The decimal value of a run of ASCII digits.
pub open spec fn digits_value(s: Seq<char>) -> nat
    decreases s.len(),
{
    if s.len() == 0 {
        0
    } else {
        digits_value(s.drop_last()) * 10 + ((s.last() as nat) - ('0' as nat)) as nat
    }
}

/// One octet as `std` reads it: one to three ASCII digits, no leading zero (but `0` itself),
/// at most 255.
pub open spec fn octet_of(s: Seq<char>) -> Option<u8> {
    if 1 <= s.len() <= 3 && (forall|i: int| 0 <= i < s.len() ==> is_ascii_digit(#[trigger] s[i]))
        && !(s.len() > 1 && s[0] == '0') && digits_value(s) <= 255 {
        Some(digits_value(s) as u8)
    } else {
        None
    }
}

/// Dotted-decimal text as `std::net::Ipv4Addr` parses it: exactly four octets separated by `.`.
pub open spec fn ipv4_of(s: Seq<char>) -> Option<Ipv4Address> {
    let parts = split_on(s, seq!['.']);
    if parts.len() == 4 && octet_of(parts[0]) is Some && octet_of(parts[1]) is Some && octet_of(
        parts[2],
    ) is Some && octet_of(parts[3]) is Some {
        Some(
            Ipv4Address {
                a: octet_of(parts[0])->0,
                b: octet_of(parts[1])->0,
                c: octet_of(parts[2])->0,
                d: octet_of(parts[3])->0,
            },
        )
    } else {
        None
    }
}

fn parse_octet(s: &Vec<char>) -> (r: Option<u8>)
    ensures
        r == octet_of(s@),
{
    if s.len() == 0 || s.len() > 3 {
        return None;
    }
    if s.len() > 1 && s[0] == '0' {
        return None;
    }
    let mut value: u32 = 0;
    let mut i: usize = 0;
    while i < s.len()
        invariant
            i <= s.len() <= 3,
            value == digits_value(s@.take(i as int)),
            value < (if i == 0 {
                1u32
            } else if i == 1 {
                10u32
            } else if i == 2 {
                100u32
            } else {
                1000u32
            }),
            forall|j: int| 0 <= j < i ==> is_ascii_digit(#[trigger] s@[j]),
        decreases s.len() - i,
    {
        let ch = s[i];
        if !('0' <= ch && ch <= '9') {
            return None;
        }
        proof {
            assert(s@.take(i + 1).drop_last() =~= s@.take(i as int));
        }
        value = value * 10 + ((ch as u32) - ('0' as u32));
        i += 1;
    }
    assert(s@.take(s.len() as int) =~= s@);
    if value > 255 {
        None
    } else {
        Some(value as u8)
    }
}

/// Read dotted-decimal IPv4 text, as `"…".parse::<Ipv4Addr>()` reads it.
pub fn parse_ipv4(s: &str) -> (r: Option<Ipv4Address>)
    ensures
        r == ipv4_of(s@),
{
    parse_ipv4_chars(&to_chars(s))
}

pub fn parse_ipv4_chars(s: &Vec<char>) -> (r: Option<Ipv4Address>)
    ensures
        r == ipv4_of(s@),
{
    let dot = vec!['.'];
    assert(dot@ =~= seq!['.']);
    let parts = split_on_v(s, &dot);
    if parts.len() != 4 {
        return None;
    }
    assert(views(parts@)[0] == parts@[0]@);
    let a = parse_octet(&parts[0]);
    let b = parse_octet(&parts[1]);
    let c = parse_octet(&parts[2]);
    let d = parse_octet(&parts[3]);
    proof {
        assert(views(parts@)[1] == parts@[1]@);
        assert(views(parts@)[2] == parts@[2]@);
        assert(views(parts@)[3] == parts@[3]@);
    }
    match (a, b, c, d) {
        (Some(a), Some(b), Some(c), Some(d)) => Some(Ipv4Address { a, b, c, d }),
        _ => None,
    }
}

// ---- reading IP address text as `std::net::IpAddr` does -------------------------------------
//
// `"…".parse::<IpAddr>()` first tries IPv4 and then IPv6, and accepts only when the whole text
// was read. IPv6 is read group by group: up to eight `:`-separated groups of one to four hex
// digits, where the last two groups may instead be a dotted IPv4 address, with a single `::`
// standing for a run of zero groups between a head and a tail.

/// `c` is a digit in base 16 (`hex`) or base 10.
pub open spec fn is_digit_in(c: char, hex: bool) -> bool {
    if hex {
        is_ascii_hex(c)
    } else {
        is_ascii_digit(c)
    }
}

/// The length of the run of digits starting at `pos`.
pub open spec fn run_len(s: Seq<char>, pos: int, hex: bool) -> nat
    decreases s.len() - pos,
{
    if pos < 0 || pos >= s.len() || !is_digit_in(s[pos], hex) {
        0
    } else {
        1 + run_len(s, pos + 1, hex)
    }
}

/// The value of the `n` digits starting at `pos`.
pub open spec fn run_value(s: Seq<char>, pos: int, n: nat, hex: bool) -> nat
    decreases n,
{
    if n == 0 {
        0
    } else {
        run_value(s, pos, (n - 1) as nat, hex) * (if hex { 16nat } else { 10nat }) + hex_value(
            s[pos + n - 1],
        ) as nat
    }
}

/// One to four hex digits at `pos` (leading zeros allowed), and the position after them.
pub open spec fn read_hex_group(s: Seq<char>, pos: int) -> Option<(u16, int)> {
    let n = run_len(s, pos, true);
    if n == 0 || n > 4 {
        None
    } else {
        Some((run_value(s, pos, n, true) as u16, pos + n))
    }
}

/// A decimal octet at `pos` (one to three digits, no leading zero, at most 255), and the
/// position after it.
pub open spec fn read_octet(s: Seq<char>, pos: int) -> Option<(u8, int)> {
    let n = run_len(s, pos, false);
    if n == 0 || n > 3 || (n > 1 && s[pos] == '0') || run_value(s, pos, n, false) > 255 {
        None
    } else {
        Some((run_value(s, pos, n, false) as u8, pos + n))
    }
}

/// A `.` then an octet.
pub open spec fn read_dot_octet(s: Seq<char>, pos: int) -> Option<(u8, int)> {
    if 0 <= pos < s.len() && s[pos] == '.' {
        read_octet(s, pos + 1)
    } else {
        None
    }
}

/// A dotted IPv4 address at `pos`, and the position after it.
pub open spec fn read_ipv4_at(s: Seq<char>, pos: int) -> Option<(Ipv4Address, int)> {
    match read_octet(s, pos) {
        None => None,
        Some((a, p1)) => match read_dot_octet(s, p1) {
            None => None,
            Some((b, p2)) => match read_dot_octet(s, p2) {
                None => None,
                Some((c, p3)) => match read_dot_octet(s, p3) {
                    None => None,
                    Some((d, p4)) => Some((Ipv4Address { a, b, c, d }, p4)),
                },
            },
        },
    }
}

/// Groups `i..limit` read from `pos` onto `acc`: each (after the first) behind a `:`, an
/// embedded IPv4 address taking the place of two groups while at least two remain. Gives the
/// groups, whether they ended in an IPv4 address, and the position after the last one read.
pub open spec fn read_groups(s: Seq<char>, pos: int, i: int, limit: int, acc: Seq<u16>) -> (
    Seq<u16>,
    bool,
    int,
)
    decreases limit - i,
{
    if i >= limit {
        (acc, false, pos)
    } else {
        let sep_ok = i == 0 || (0 <= pos < s.len() && s[pos] == ':');
        let start = if i == 0 {
            pos
        } else {
            pos + 1
        };
        let v4 = if i < limit - 1 && sep_ok {
            read_ipv4_at(s, start)
        } else {
            None
        };
        match v4 {
            Some((ip, p)) => (
                acc.push((ip.a * 256 + ip.b) as u16).push((ip.c * 256 + ip.d) as u16),
                true,
                p,
            ),
            None => match (if sep_ok {
                read_hex_group(s, start)
            } else {
                None
            }) {
                Some((g, p)) => read_groups(s, p, i + 1, limit, acc.push(g)),
                None => (acc, false, pos),
            },
        }
    }
}

/// IPv6 text as `std::net::Ipv6Addr` parses it, as its eight groups.
pub open spec fn ipv6_of(s: Seq<char>) -> Option<Seq<u16>> {
    let (head, head_v4, p) = read_groups(s, 0, 0, 8, Seq::empty());
    if head.len() == 8 {
        if p == s.len() {
            Some(head)
        } else {
            None
        }
    } else if head_v4 {
        None
    } else if !(0 <= p && p + 1 < s.len() && s[p] == ':' && s[p + 1] == ':') {
        None
    } else {
        let (tail, _t4, q) = read_groups(s, p + 2, 0, 8 - (head.len() + 1), Seq::empty());
        if q == s.len() {
            Some(head + Seq::new((8 - head.len() - tail.len()) as nat, |i: int| 0u16) + tail)
        } else {
            None
        }
    }
}

/// An address from its eight IPv6 groups.
pub open spec fn v6_from(g: Seq<u16>) -> IpAddress {
    IpAddress::V6(g[0], g[1], g[2], g[3], g[4], g[5], g[6], g[7])
}

/// IP address text as `"…".parse::<std::net::IpAddr>()` reads it: IPv4 first, else IPv6.
pub open spec fn ip_of(s: Seq<char>) -> Option<IpAddress> {
    match ipv4_of(s) {
        Some(v4) => Some(v4.ip()),
        None => match ipv6_of(s) {
            Some(g) => Some(v6_from(g)),
            None => None,
        },
    }
}

fn digit_in(c: char, hex: bool) -> (r: bool)
    ensures
        r == is_digit_in(c, hex),
{
    if hex {
        ('0' <= c && c <= '9') || ('a' <= c && c <= 'f') || ('A' <= c && c <= 'F')
    } else {
        '0' <= c && c <= '9'
    }
}

fn digit_value(c: char) -> (r: u32)
    requires
        is_ascii_hex(c),
    ensures
        r == hex_value(c),
        r < 16,
{
    if '0' <= c && c <= '9' {
        (c as u32) - ('0' as u32)
    } else if 'a' <= c && c <= 'f' {
        (c as u32) - ('a' as u32) + 10
    } else {
        (c as u32) - ('A' as u32) + 10
    }
}

fn digit_run(s: &Vec<char>, pos: usize, hex: bool) -> (r: usize)
    requires
        pos <= s@.len(),
    ensures
        r == run_len(s@, pos as int, hex),
        pos + r <= s.len(),
{
    let mut k: usize = pos;
    while k < s.len() && digit_in(s[k], hex)
        invariant
            pos <= k <= s@.len(),
            run_len(s@, pos as int, hex) == (k - pos) + run_len(s@, k as int, hex),
        decreases s@.len() - k,
    {
        k += 1;
    }
    k - pos
}

proof fn lemma_run_digits(s: Seq<char>, pos: int, hex: bool, j: int)
    requires
        0 <= pos,
        0 <= j < run_len(s, pos, hex),
    ensures
        pos + j < s.len(),
        is_digit_in(s[pos + j], hex),
    decreases j,
{
    if j > 0 {
        lemma_run_digits(s, pos + 1, hex, j - 1);
    }
}

fn digits_number(s: &Vec<char>, pos: usize, n: usize, hex: bool) -> (r: u32)
    requires
        n <= 4,
        !hex ==> n <= 3,
        n <= run_len(s@, pos as int, hex),
        pos + n <= s.len(),
    ensures
        r == run_value(s@, pos as int, n as nat, hex),
        hex ==> r < 0x1_0000,
        !hex ==> r < 1000,
{
    let mut v: u32 = 0;
    let mut j: usize = 0;
    while j < n
        invariant
            j <= n <= 4,
            !hex ==> n <= 3,
            n <= run_len(s@, pos as int, hex),
            pos + n <= s.len(),
            v == run_value(s@, pos as int, j as nat, hex),
            v < (if hex {
                if j == 0 { 1u32 } else if j == 1 { 16u32 } else if j == 2 { 256u32 } else if j == 3 { 4096u32 } else { 65536u32 }
            } else {
                if j == 0 { 1u32 } else if j == 1 { 10u32 } else if j == 2 { 100u32 } else { 1000u32 }
            }),
        decreases n - j,
    {
        proof {
            lemma_run_digits(s@, pos as int, hex, j as int);
        }
        let d = digit_value(s[pos + j]);
        if hex {
            v = v * 16 + d;
        } else {
            v = v * 10 + d;
        }
        j += 1;
    }
    v
}

fn hex_group_at(s: &Vec<char>, pos: usize) -> (r: Option<(u16, usize)>)
    requires
        pos <= s@.len(),
    ensures
        match r {
            Some((g, p)) => read_hex_group(s@, pos as int) == Some((g, p as int)) && p <= s@.len(),
            None => read_hex_group(s@, pos as int) is None,
        },
{
    let n = digit_run(s, pos, true);
    if n == 0 || n > 4 {
        return None;
    }
    let v = digits_number(s, pos, n, true);
    Some((v as u16, pos + n))
}

fn octet_at(s: &Vec<char>, pos: usize) -> (r: Option<(u8, usize)>)
    requires
        pos <= s@.len(),
    ensures
        match r {
            Some((o, p)) => read_octet(s@, pos as int) == Some((o, p as int)) && p <= s@.len(),
            None => read_octet(s@, pos as int) is None,
        },
{
    let n = digit_run(s, pos, false);
    if n == 0 || n > 3 {
        return None;
    }
    if n > 1 && s[pos] == '0' {
        return None;
    }
    let v = digits_number(s, pos, n, false);
    if v > 255 {
        return None;
    }
    Some((v as u8, pos + n))
}

fn dot_octet_at(s: &Vec<char>, pos: usize) -> (r: Option<(u8, usize)>)
    requires
        pos <= s@.len(),
    ensures
        match r {
            Some((o, p)) => read_dot_octet(s@, pos as int) == Some((o, p as int)) && p <= s@.len(),
            None => read_dot_octet(s@, pos as int) is None,
        },
{
    if pos < s.len() && s[pos] == '.' {
        octet_at(s, pos + 1)
    } else {
        None
    }
}

fn ipv4_at(s: &Vec<char>, pos: usize) -> (r: Option<(Ipv4Address, usize)>)
    requires
        pos <= s@.len(),
    ensures
        match r {
            Some((ip, p)) => read_ipv4_at(s@, pos as int) == Some((ip, p as int)) && p <= s@.len(),
            None => read_ipv4_at(s@, pos as int) is None,
        },
{
    let (a, p1) = match octet_at(s, pos) {
        Some(x) => x,
        None => return None,
    };
    let (b, p2) = match dot_octet_at(s, p1) {
        Some(x) => x,
        None => return None,
    };
    let (c, p3) = match dot_octet_at(s, p2) {
        Some(x) => x,
        None => return None,
    };
    let (d, p4) = match dot_octet_at(s, p3) {
        Some(x) => x,
        None => return None,
    };
    Some((Ipv4Address { a, b, c, d }, p4))
}

fn groups_at(s: &Vec<char>, pos: usize, limit: usize) -> (r: (Vec<u16>, bool, usize))
    requires
        pos <= s@.len(),
        limit <= 8,
    ensures
        (r.0@, r.1, r.2 as int) == read_groups(s@, pos as int, 0, limit as int, Seq::empty()),
        r.2 <= s@.len(),
        r.0@.len() <= limit,
{
    let mut acc: Vec<u16> = Vec::new();
    let mut p: usize = pos;
    let mut i: usize = 0;
    while i < limit
        invariant
            i <= limit <= 8,
            p <= s@.len(),
            acc@.len() == i,
            read_groups(s@, pos as int, 0, limit as int, Seq::empty()) == read_groups(s@, p as int, i as int, limit as int, acc@),
        decreases limit - i,
    {
        let sep_ok = i == 0 || (p < s.len() && s[p] == ':');
        let start = if i == 0 { p } else { if p < s.len() { p + 1 } else { p } };
        if i + 1 < limit && sep_ok {
            match ipv4_at(s, start) {
                Some((ip, q)) => {
                    acc.push(((ip.a as u16) * 256 + ip.b as u16));
                    acc.push(((ip.c as u16) * 256 + ip.d as u16));
                    return (acc, true, q);
                },
                None => {},
            }
        }
        if !sep_ok {
            return (acc, false, p);
        }
        match hex_group_at(s, start) {
            Some((g, q)) => {
                acc.push(g);
                p = q;
            },
            None => {
                return (acc, false, p);
            },
        }
        i += 1;
    }
    (acc, false, p)
}

fn ipv6_chars(s: &Vec<char>) -> (r: Option<IpAddress>)
    ensures
        r == match ipv6_of(s@) {
            Some(g) => Some(v6_from(g)),
            None => None,
        },
{
    let (head, head_v4, p) = groups_at(s, 0, 8);
    if head.len() == 8 {
        if p == s.len() {
            return Some(IpAddress::V6(head[0], head[1], head[2], head[3], head[4], head[5], head[6], head[7]));
        }
        return None;
    }
    if head_v4 {
        return None;
    }
    if !(p < s.len() && p + 1 < s.len() && s[p] == ':' && s[p + 1] == ':') {
        return None;
    }
    let limit = 8 - (head.len() + 1);
    let (tail, _t4, q) = groups_at(s, p + 2, limit);
    if q != s.len() {
        return None;
    }
    let mut g: Vec<u16> = Vec::new();
    let mut i: usize = 0;
    while i < head.len()
        invariant
            i <= head@.len(),
            g@ =~= head@.take(i as int),
        decreases head@.len() - i,
    {
        g.push(head[i]);
        i += 1;
    }
    let zeros = 8 - head.len() - tail.len();
    let mut z: usize = 0;
    while z < zeros
        invariant
            z <= zeros,
            g@ =~= head@ + Seq::new(z as nat, |k: int| 0u16),
        decreases zeros - z,
    {
        g.push(0);
        z += 1;
    }
    let mut t: usize = 0;
    while t < tail.len()
        invariant
            t <= tail@.len(),
            g@ =~= head@ + Seq::new(zeros as nat, |k: int| 0u16) + tail@.take(t as int),
        decreases tail@.len() - t,
    {
        g.push(tail[t]);
        t += 1;
    }
    assert(tail@.take(tail@.len() as int) =~= tail@);
    assert(g@.len() == 8);
    Some(IpAddress::V6(g[0], g[1], g[2], g[3], g[4], g[5], g[6], g[7]))
}

/// Read IP address text as `"…".parse::<std::net::IpAddr>()` reads it.
pub fn parse_ip_chars(s: &Vec<char>) -> (r: Option<IpAddress>)
    ensures
        r == ip_of(s@),
{
    match parse_ipv4_chars(s) {
        Some(v4) => Some(v4.to_ip()),
        None => ipv6_chars(s),
    }
}

/// Read IP address text as `"…".parse::<std::net::IpAddr>()` reads it.
pub fn parse_ip(s: &str) -> (r: Option<IpAddress>)
    ensures
        r == ip_of(s@),
{
    parse_ip_chars(&to_chars(s))
}

// ---- the /24 range --------------------------------------------------------------------------

/// All usable host addresses (`.1` to `.254`) of the `/24` containing `ip`, in order.
pub fn hosts_in_24(ip: Ipv4Address) -> (r: Vec<Ipv4Address>)
    ensures
        r@.len() == 254,
        forall|i: int|
            0 <= i < 254 ==> #[trigger] r@[i] == (Ipv4Address {
                a: ip.a,
                b: ip.b,
                c: ip.c,
                d: (i + 1) as u8,
            }),
{
    let mut out: Vec<Ipv4Address> = Vec::new();
    let mut h: u8 = 1;
    while h < 255
        invariant
            1 <= h <= 255,
            out@.len() == h - 1,
            forall|i: int|
                0 <= i < out@.len() ==> #[trigger] out@[i] == (Ipv4Address {
                    a: ip.a,
                    b: ip.b,
                    c: ip.c,
                    d: (i + 1) as u8,
                }),
        decreases 255 - h,
    {
        out.push(Ipv4Address { a: ip.a, b: ip.b, c: ip.c, d: h });
        h += 1;
    }
    out
}

// ---- hardware addresses --------------------------------------------------------------------

/// The value of a hexadecimal digit.
pub open spec fn hex_value(c: char) -> int {
    if '0' <= c && c <= '9' {
        c as int - '0' as int
    } else if 'a' <= c && c <= 'f' {
        c as int - 'a' as int + 10
    } else {
        c as int - 'A' as int + 10
    }
}

/// Six two-digit hexadecimal octets joined by `:`, e.g. `a4:2b:b0:11:22:33`.
pub open spec fn is_colon_mac(s: Seq<char>) -> bool {
    &&& s.len() == 17
    &&& forall|i: int| 0 <= i < 17 ==> if i % 3 == 2 {
        #[trigger] s[i] == ':'
    } else {
        is_ascii_hex(s[i])
    }
}

/// The `k`-th octet of a colon-separated MAC.
pub open spec fn mac_octet(s: Seq<char>, k: int) -> int {
    hex_value(s[3 * k]) * 16 + hex_value(s[3 * k + 1])
}

/// The 48-bit number a colon-separated MAC stands for, first octet most significant.
pub open spec fn mac_number(s: Seq<char>) -> u64 {
    (mac_octet(s, 0) * 0x100_0000_0000 + mac_octet(s, 1) * 0x1_0000_0000 + mac_octet(s, 2)
        * 0x100_0000 + mac_octet(s, 3) * 0x1_0000 + mac_octet(s, 4) * 0x100 + mac_octet(s, 5)) as u64
}

// ---- ordering -------------------------------------------------------------------------------

/// The position of an address in `std::net::IpAddr`'s order: every IPv4 address (ranked by its
/// 32-bit value) before every IPv6 address (ranked by its 128-bit value).
pub open spec fn ip_rank(ip: IpAddress) -> int {
    match ip {
        IpAddress::V4(a, b, c, d) => a * 0x100_0000 + b * 0x1_0000 + c * 0x100 + d,
        IpAddress::V6(a, b, c, d, e, f, g, h) => 0x1_0000_0000 + a * 0x1_0000_0000_0000_0000_0000_0000_0000
            + b * 0x1_0000_0000_0000_0000_0000_0000 + c * 0x1_0000_0000_0000_0000_0000
            + d * 0x1_0000_0000_0000_0000 + e * 0x1_0000_0000_0000 + f * 0x1_0000_0000
            + g * 0x1_0000 + h,
    }
}

proof fn lemma_v4_digits(a: u8, b: u8, c: u8, d: u8, e: u8, f: u8, g: u8, h: u8)
    by (bit_vector)
    requires
        a * 0x100_0000 + b * 0x1_0000 + c * 0x100 + d == e * 0x100_0000 + f * 0x1_0000 + g * 0x100 + h,
    ensures
        a == e && b == f && c == g && d == h,
{
}

proof fn lemma_u16_pair(a: u16, b: u16, c: u16, d: u16)
    by (bit_vector)
    requires
        a * 0x1_0000 + b == c * 0x1_0000 + d,
    ensures
        a == c && b == d,
{
}

/// Eight 16-bit digits, most significant first, as one number.
pub open spec fn digits16(a: u16, b: u16, c: u16, d: u16, e: u16, f: u16, g: u16, h: u16) -> int {
    a * 0x1_0000_0000_0000_0000_0000_0000_0000 + b * 0x1_0000_0000_0000_0000_0000_0000
        + c * 0x1_0000_0000_0000_0000_0000 + d * 0x1_0000_0000_0000_0000 + e * 0x1_0000_0000_0000
        + f * 0x1_0000_0000 + g * 0x1_0000 + h
}

proof fn lemma_v6_digits(
    a1: u16, a2: u16, a3: u16, a4: u16, a5: u16, a6: u16, a7: u16, a8: u16,
    b1: u16, b2: u16, b3: u16, b4: u16, b5: u16, b6: u16, b7: u16, b8: u16,
)
    requires
        digits16(a1, a2, a3, a4, a5, a6, a7, a8) == digits16(b1, b2, b3, b4, b5, b6, b7, b8),
    ensures
        a1 == b1 && a2 == b2 && a3 == b3 && a4 == b4 && a5 == b5 && a6 == b6 && a7 == b7 && a8 == b8,
{
    let hi_a = a1 * 0x1_0000_0000_0000 + a2 * 0x1_0000_0000 + a3 * 0x1_0000 + a4;
    let lo_a = a5 * 0x1_0000_0000_0000 + a6 * 0x1_0000_0000 + a7 * 0x1_0000 + a8;
    let hi_b = b1 * 0x1_0000_0000_0000 + b2 * 0x1_0000_0000 + b3 * 0x1_0000 + b4;
    let lo_b = b5 * 0x1_0000_0000_0000 + b6 * 0x1_0000_0000 + b7 * 0x1_0000 + b8;
    assert(0 <= lo_a < 0x1_0000_0000_0000_0000 && 0 <= lo_b < 0x1_0000_0000_0000_0000);
    assert(hi_a * 0x1_0000_0000_0000_0000 + lo_a == hi_b * 0x1_0000_0000_0000_0000 + lo_b);
    assert(hi_a == hi_b && lo_a == lo_b) by (nonlinear_arith)
        requires
            hi_a * 0x1_0000_0000_0000_0000 + lo_a == hi_b * 0x1_0000_0000_0000_0000 + lo_b,
            0 <= lo_a < 0x1_0000_0000_0000_0000,
            0 <= lo_b < 0x1_0000_0000_0000_0000,
            0 <= hi_a,
            0 <= hi_b,
    ;
    lemma_u64_digits(a1, a2, a3, a4, b1, b2, b3, b4);
    lemma_u64_digits(a5, a6, a7, a8, b5, b6, b7, b8);
}

proof fn lemma_u64_digits(a: u16, b: u16, c: u16, d: u16, e: u16, f: u16, g: u16, h: u16)
    by (bit_vector)
    requires
        a * 0x1_0000_0000_0000 + b * 0x1_0000_0000 + c * 0x1_0000 + d == e * 0x1_0000_0000_0000 + f
            * 0x1_0000_0000 + g * 0x1_0000 + h,
    ensures
        a == e && b == f && c == g && d == h,
{
}

/// Different addresses have different ranks.
pub proof fn lemma_ip_rank_injective(x: IpAddress, y: IpAddress)
    requires
        ip_rank(x) == ip_rank(y),
    ensures
        x == y,
{
    match (x, y) {
        (IpAddress::V4(a, b, c, d), IpAddress::V4(e, f, g, h)) => {
            lemma_v4_digits(a, b, c, d, e, f, g, h);
        },
        (IpAddress::V6(a1, a2, a3, a4, a5, a6, a7, a8), IpAddress::V6(b1, b2, b3, b4, b5, b6, b7, b8)) => {
            assert(ip_rank(x) == 0x1_0000_0000 + digits16(a1, a2, a3, a4, a5, a6, a7, a8));
            assert(ip_rank(y) == 0x1_0000_0000 + digits16(b1, b2, b3, b4, b5, b6, b7, b8));
            lemma_v6_digits(a1, a2, a3, a4, a5, a6, a7, a8, b1, b2, b3, b4, b5, b6, b7, b8);
        },
        _ => {},
    }
}

fn rank_key(ip: &IpAddress) -> (r: (bool, u128))
    ensures
        r.0 == (ip is V6),
        !r.0 ==> r.1 == ip_rank(*ip),
        r.0 ==> r.1 + 0x1_0000_0000 == ip_rank(*ip),
{
    match *ip {
        IpAddress::V4(a, b, c, d) => (
            false,
            (a as u128) * 0x100_0000 + (b as u128) * 0x1_0000 + (c as u128) * 0x100 + (d as u128),
        ),
        IpAddress::V6(a, b, c, d, e, f, g, h) => (
            true,
            (a as u128) * 0x1_0000_0000_0000_0000_0000_0000_0000 + (b as u128)
                * 0x1_0000_0000_0000_0000_0000_0000 + (c as u128) * 0x1_0000_0000_0000_0000_0000
                + (d as u128) * 0x1_0000_0000_0000_0000 + (e as u128) * 0x1_0000_0000_0000 + (
            f as u128) * 0x1_0000_0000 + (g as u128) * 0x1_0000 + (h as u128),
        ),
    }
}

/// Whether `x` comes no later than `y` in address order.
pub fn ip_not_after(x: &IpAddress, y: &IpAddress) -> (r: bool)
    ensures
        r == (ip_rank(*x) <= ip_rank(*y)),
{
    let (x6, xv) = rank_key(x);
    let (y6, yv) = rank_key(y);
    if x6 == y6 {
        xv <= yv
    } else {
        !x6
    }
}

} // verus!
