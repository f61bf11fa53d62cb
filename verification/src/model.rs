//! Core domain model: the persistent, GUI-agnostic representation of a homelab.
use vstd::prelude::*;
use crate::text::{
    append, contains_sub, contains_v, decimal, decimal_v, ends_with, ends_with_v,
    from_chars, is_ws, lemma_trim_idempotent, lemma_trim_of_trimmed, lit, subrange, to_chars, trim,
    trim_end_char, trim_end_char_v, trim_v, views,
};

verus! {

/// The view of an optional string.
pub open spec fn opt_view(o: Option<String>) -> Option<Seq<char>> {
    match o {
        Some(s) => Some(s@),
        None => None,
    }
}

/// One open TCP port and what was identified behind it.
pub struct ServicePort {
    /// The port number.
    pub port: u16,
    /// Protocol / role, e.g. `HTTP`, `SSH`.
    pub service: Option<String>,
    /// Concrete application, e.g. `Grafana`, `OpenSSH`.
    pub product: Option<String>,
    /// Application version when derivable.
    pub version: Option<String>,
    /// HTML `<title>` of a web UI.
    pub title: Option<String>,
    /// Banner or HTTP summary line.
    pub banner: Option<String>,
}

/// The mathematical content of a [`ServicePort`].
pub struct ServiceInfo {
    pub port: u16,
    pub service: Option<Seq<char>>,
    pub product: Option<Seq<char>>,
    pub version: Option<Seq<char>>,
    pub title: Option<Seq<char>>,
    pub banner: Option<Seq<char>>,
}

impl View for ServicePort {
    type V = ServiceInfo;

    open spec fn view(&self) -> ServiceInfo {
        ServiceInfo {
            port: self.port,
            service: opt_view(self.service),
            product: opt_view(self.product),
            version: opt_view(self.version),
            title: opt_view(self.title),
            banner: opt_view(self.banner),
        }
    }
}

impl Clone for ServicePort {
    fn clone(&self) -> (r: Self)
        ensures
            r.port == self.port,
            opt_view(r.service) == opt_view(self.service),
            opt_view(r.product) == opt_view(self.product),
            opt_view(r.version) == opt_view(self.version),
            opt_view(r.title) == opt_view(self.title),
            opt_view(r.banner) == opt_view(self.banner),
    {
        ServicePort {
            port: self.port,
            service: self.service.clone(),
            product: self.product.clone(),
            version: self.version.clone(),
            title: self.title.clone(),
            banner: self.banner.clone(),
        }
    }
}

impl Default for ServicePort {
    fn default() -> (r: Self)
        ensures
            r.port == 0,
            r.service is None,
            r.product is None,
            r.version is None,
            r.title is None,
            r.banner is None,
    {
        ServicePort {
            port: 0,
            service: None,
            product: None,
            version: None,
            title: None,
            banner: None,
        }
    }
}


/// A MAC address in canonical lowercase form, e.g. `aa:bb:cc:dd:ee:ff`.
pub type MacAddr = String;

/// Result of probing a host for SSH.
///
/// A successful TCP connect only proves the port is open, while `ConfirmedSsh` means an `SSH-`
/// identification banner was actually read.
#[derive(Debug, Clone, Copy, PartialEq, Eq, Structural)]
pub enum SshStatus {
    /// Not yet probed.
    Unknown,
    /// The probe could not reach the port (closed/filtered/timed out).
    Unreachable,
    /// The TCP port accepted a connection but no SSH banner was confirmed.
    PortReachable,
    /// An `SSH-` identification banner was read — this host speaks SSH.
    ConfirmedSsh,
}

impl Default for SshStatus {
    fn default() -> (r: Self)
        ensures
            r == SshStatus::Unknown,
    {
        SshStatus::Unknown
    }
}

/// Liveness of a device.
#[derive(Debug, Clone, Copy, PartialEq, Eq, Structural)]
pub enum DeviceStatus {
    /// Responded during the most recent scan.
    Online,
    /// Known previously but did not respond in the most recent scan.
    Offline,
    /// Never confirmed online.
    Unknown,
}

impl Default for DeviceStatus {
    fn default() -> (r: Self)
        ensures
            r == DeviceStatus::Unknown,
    {
        DeviceStatus::Unknown
    }
}

/// SSH-related facts discovered about a host.
pub struct SshInfo {
    /// Current probe result.
    pub status: SshStatus,
    /// The port the probe targeted (usually 22).
    pub port: Option<u16>,
    /// Raw identification banner, e.g. `SSH-2.0-OpenSSH_9.6p1 Ubuntu-3`.
    pub banner: Option<String>,
    /// Best-effort OS hint parsed from the banner comment.
    pub os_hint: Option<String>,
    /// Heuristic, user-editable login suggestions.
    pub suggested_users: Vec<String>,
}

impl Default for SshInfo {
    fn default() -> (r: Self)
        ensures
            r.status == SshStatus::Unknown,
            r.port is None,
            r.banner is None,
            r.os_hint is None,
            r.suggested_users@.len() == 0,
    {
        SshInfo {
            status: SshStatus::Unknown,
            port: None,
            banner: None,
            os_hint: None,
            suggested_users: Vec::new(),
        }
    }
}

/// Naming signals gathered from different discovery sources, kept separately so the display
/// name can be re-derived if the user clears their override.
pub struct DeviceNames {
    /// Hostname advertised over mDNS (`.local`).
    pub mdns_hostname: Option<String>,
    /// mDNS service types seen, e.g. `_ssh._tcp`.
    pub mdns_services: Vec<String>,
    /// UPnP/SSDP friendly name.
    pub upnp_friendly_name: Option<String>,
    /// Reverse-DNS (PTR) name.
    pub reverse_dns: Option<String>,
    /// NetBIOS/LLMNR name.
    pub netbios: Option<String>,
}

impl Default for DeviceNames {
    fn default() -> (r: Self)
        ensures
            r.mdns_hostname is None,
            r.mdns_services@.len() == 0,
            r.upnp_friendly_name is None,
            r.reverse_dns is None,
            r.netbios is None,
    {
        DeviceNames {
            mdns_hostname: None,
            mdns_services: Vec::new(),
            upnp_friendly_name: None,
            reverse_dns: None,
            netbios: None,
        }
    }
}

// ---- the ssh command ----------------------------------------------------------------------------

/// `ssh user@host`, with `-p <port>` only when the port is not 22.
pub open spec fn ssh_command_text(host: Seq<char>, user: Seq<char>, port: u16) -> Seq<char> {
    if port == 22 {
        "ssh "@ + user + "@"@ + host
    } else {
        "ssh -p "@ + decimal(port as nat) + " "@ + user + "@"@ + host
    }
}

/// Format an `ssh` command, only emitting `-p` when the port is non-standard.
pub fn build_ssh_command(host: &str, user: &str, port: u16) -> (r: String)
    ensures
        r@ == ssh_command_text(host@, user@, port),
{
    let mut out = if port == 22 {
        lit("ssh ")
    } else {
        let mut o = lit("ssh -p ");
        append(&mut o, &decimal_v(port as u64));
        append(&mut o, &lit(" "));
        o
    };
    append(&mut out, &to_chars(user));
    append(&mut out, &lit("@"));
    append(&mut out, &to_chars(host));
    from_chars(&out)
}

// ---- hostnames ----------------------------------------------------------------------------------

/// A hostname without the trailing dots and `.local` that mDNS and PTR names carry.
pub open spec fn cleaned_hostname(name: Seq<char>) -> Seq<char> {
    let t = trim_end_char(name, '.');
    if ends_with(t, ".local"@) {
        t.take(t.len() - 6)
    } else {
        t
    }
}

/// Strip the trailing `.local.`/`.` that mDNS and PTR names carry.
pub fn clean_hostname(name: &str) -> (r: String)
    ensures
        r@ == cleaned_hostname(name@),
{
    let t = trim_end_char_v(&to_chars(name), '.');
    let suffix = lit(".local");
    if ends_with_v(&t, &suffix) {
        proof {
            reveal_strlit(".local");
            assert(t@.take(t@.len() - 6) =~= t@.subrange(0, t@.len() - suffix@.len()));
        }
        from_chars(&subrange(&t, 0, t.len() - suffix.len()))
    } else {
        from_chars(&t)
    }
}

// ---- login suggestions --------------------------------------------------------------------------

/// What `str::to_lowercase` (full Unicode lower-casing) makes of a text.
pub uninterp spec fn unicode_lower(s: Seq<char>) -> Seq<char>;

/// Unicode lower-casing (`str::to_lowercase`). Of ASCII text it lower-cases the ASCII letters
/// and keeps every other character; beyond that the result is named only.
#[verifier::external_body]
fn to_lowercase(s: &str) -> (r: String)
    ensures
        r@ == unicode_lower(s@),
        vstd::utf8::is_ascii_chars(s@) ==> r@ == crate::text::lower_seq(s@),
{
    s.to_lowercase()
}

/// Common appliance/cloud-image default logins, in preference order.
pub open spec fn default_logins() -> Seq<Seq<char>> {
    seq!["root"@, "admin"@, "pi"@, "ubuntu"@, "debian"@, "core"@, "ec2-user"@]
}

/// Candidate logins in preference order: the current user, then OS-specific defaults inferred
/// from the (lower-cased) banner hint, then common defaults.
pub open spec fn login_candidates(hint_lower: Seq<char>, current_user: Option<Seq<char>>) -> Seq<
    Seq<char>,
> {
    let cu: Seq<Seq<char>> = match current_user {
        Some(u) => seq![u],
        None => Seq::empty(),
    };
    let pi: Seq<Seq<char>> = if contains_sub(hint_lower, "raspbian"@) || contains_sub(
        hint_lower,
        "raspberry"@,
    ) {
        seq!["pi"@]
    } else {
        Seq::empty()
    };
    let ub: Seq<Seq<char>> = if contains_sub(hint_lower, "ubuntu"@) {
        seq!["ubuntu"@]
    } else {
        Seq::empty()
    };
    let de: Seq<Seq<char>> = if contains_sub(hint_lower, "debian"@) {
        seq!["debian"@]
    } else {
        Seq::empty()
    };
    cu + pi + ub + de + default_logins()
}

/// A candidate added to the list: trimmed, and only when non-empty and not already listed.
pub open spec fn push_login(out: Seq<Seq<char>>, candidate: Seq<char>) -> Seq<Seq<char>> {
    let c = trim(candidate);
    if c.len() > 0 && !out.contains(c) {
        out.push(c)
    } else {
        out
    }
}

pub open spec fn push_logins(out: Seq<Seq<char>>, cs: Seq<Seq<char>>) -> Seq<Seq<char>>
    decreases cs.len(),
{
    if cs.len() == 0 {
        out
    } else {
        push_logins(push_login(out, cs[0]), cs.drop_first())
    }
}

/// The ordered, de-duplicated login suggestions.
pub open spec fn suggestions(hint_lower: Seq<char>, current_user: Option<Seq<char>>) -> Seq<
    Seq<char>,
> {
    push_logins(Seq::empty(), login_candidates(hint_lower, current_user))
}

/// No entry occurs twice.
pub open spec fn no_duplicates(s: Seq<Seq<char>>) -> bool {
    forall|i: int, j: int| 0 <= i < j < s.len() ==> s[i] != s[j]
}

proof fn lemma_push_login(out: Seq<Seq<char>>, c: Seq<char>)
    requires
        no_duplicates(out),
    ensures
        no_duplicates(push_login(out, c)),
        forall|x: Seq<char>| out.contains(x) ==> push_login(out, c).contains(x),
        trim(c).len() > 0 ==> push_login(out, c).contains(trim(c)),
        push_login(out, c).len() >= out.len(),
        forall|i: int| 0 <= i < out.len() ==> push_login(out, c)[i] == out[i],
{
    let t = trim(c);
    if t.len() > 0 && !out.contains(t) {
        let r = out.push(t);
        assert forall|x: Seq<char>| out.contains(x) implies r.contains(x) by {
            let i = choose|i: int| 0 <= i < out.len() && out[i] == x;
            assert(r[i] == x);
        }
        assert(r[out.len() as int] == t);
    }
}

proof fn lemma_push_logins(out: Seq<Seq<char>>, cs: Seq<Seq<char>>)
    requires
        no_duplicates(out),
    ensures
        no_duplicates(push_logins(out, cs)),
        forall|x: Seq<char>| out.contains(x) ==> push_logins(out, cs).contains(x),
        forall|k: int| 0 <= k < cs.len() && trim(cs[k]).len() > 0 ==> push_logins(out, cs).contains(
            trim(#[trigger] cs[k]),
        ),
        push_logins(out, cs).len() >= out.len(),
        forall|i: int| 0 <= i < out.len() ==> push_logins(out, cs)[i] == out[i],
    decreases cs.len(),
{
    if cs.len() > 0 {
        lemma_push_login(out, cs[0]);
        lemma_push_logins(push_login(out, cs[0]), cs.drop_first());
        assert forall|k: int| 0 <= k < cs.len() && trim(cs[k]).len() > 0 implies push_logins(
            out,
            cs,
        ).contains(trim(#[trigger] cs[k])) by {
            if k > 0 {
                assert(cs[k] == cs.drop_first()[k - 1]);
            }
        }
    }
}

fn has_login(out: &Vec<String>, c: &Vec<char>) -> (r: bool)
    ensures
        r == views_s(out@).contains(c@),
{
    let mut i: usize = 0;
    while i < out.len()
        invariant
            i <= out.len(),
            forall|j: int| 0 <= j < i ==> views_s(out@)[j] != c@,
        decreases out.len() - i,
    {
        let x = to_chars(out[i].as_str());
        if crate::text::eq_v(&x, c) {
            assert(views_s(out@)[i as int] == c@);
            return true;
        }
        i += 1;
    }
    false
}

/// The views of a sequence of strings.
pub open spec fn views_s(v: Seq<String>) -> Seq<Seq<char>> {
    v.map_values(|x: String| x@)
}

fn push_login_v(out: &mut Vec<String>, candidate: &str)
    ensures
        views_s(final(out)@) == push_login(views_s(old(out)@), candidate@),
{
    let c = trim_v(&to_chars(candidate));
    if c.len() > 0 && !has_login(out, &c) {
        let s = from_chars(&c);
        out.push(s);
        assert(views_s(out@) =~= views_s(old(out)@).push(c@));
    }
}

/// The ordered, de-duplicated login suggestions for an OS hint that is already lower-cased.
pub fn suggest_usernames_lowered(hint_lower: &str, current_user: Option<&str>) -> (r: Vec<String>)
    ensures
        views_s(r@) == suggestions(hint_lower@, match current_user {
            Some(u) => Some(u@),
            None => None,
        }),
        no_duplicates(views_s(r@)),
        views_s(r@).contains("root"@),
{
    let ghost cu = match current_user {
        Some(u) => Some(u@),
        None => None::<Seq<char>>,
    };
    let ghost cands = login_candidates(hint_lower@, cu);
    let mut out: Vec<String> = Vec::new();
    assert(views_s(out@) =~= Seq::<Seq<char>>::empty());
    let ghost done: Seq<Seq<char>> = Seq::empty();
    if let Some(user) = current_user {
        proof {
            lemma_push_logins_snoc(Seq::empty(), done, user@);
            assert(done.push(user@) =~= seq![user@]);
        }
        push_login_v(&mut out, user);
        proof {
            done = seq![user@];
        }
    }
    assert(views_s(out@) == push_logins(Seq::empty(), done));
    let h = to_chars(hint_lower);
    if contains_v(&h, &lit("raspbian")) || contains_v(&h, &lit("raspberry")) {
        proof {
            lemma_push_logins_snoc(Seq::empty(), done, "pi"@);
        }
        push_login_v(&mut out, "pi");
        proof {
            done = done.push("pi"@);
        }
    }
    if contains_v(&h, &lit("ubuntu")) {
        proof {
            lemma_push_logins_snoc(Seq::empty(), done, "ubuntu"@);
        }
        push_login_v(&mut out, "ubuntu");
        proof {
            done = done.push("ubuntu"@);
        }
    }
    if contains_v(&h, &lit("debian")) {
        proof {
            lemma_push_logins_snoc(Seq::empty(), done, "debian"@);
        }
        push_login_v(&mut out, "debian");
        proof {
            done = done.push("debian"@);
        }
    }
    let defaults: [&str; 7] = ["root", "admin", "pi", "ubuntu", "debian", "core", "ec2-user"];
    let ghost dl = default_logins();
    let mut i: usize = 0;
    assert(cands =~= done + dl);
    assert(done + dl.take(0) =~= done);
    while i < 7
        invariant
            i <= 7,
            defaults@ == seq!["root", "admin", "pi", "ubuntu", "debian", "core", "ec2-user"],
            dl == default_logins(),
            views_s(out@) == push_logins(Seq::empty(), done + dl.take(i as int)),
            cands == done + dl,
        decreases 7 - i,
    {
        let d = defaults[i];
        assert(d@ == dl[i as int]);
        proof {
            lemma_push_logins_snoc(Seq::empty(), done + dl.take(i as int), d@);
            assert(done + dl.take(i + 1) =~= (done + dl.take(i as int)).push(d@));
        }
        push_login_v(&mut out, d);
        i += 1;
    }
    assert(dl.take(7) =~= dl);
    proof {
        lemma_push_logins(Seq::empty(), cands);
        let k = cands.len() - 7;
        assert(cands[k] == "root"@);
        reveal_strlit("root");
        assert(trim("root"@) == "root"@) by {
            assert(!crate::text::is_ws('r'));
            assert(!crate::text::is_ws('t'));
        }
    }
    out
}

proof fn lemma_push_logins_snoc(out: Seq<Seq<char>>, a: Seq<Seq<char>>, x: Seq<char>)
    ensures
        push_logins(out, a.push(x)) == push_login(push_logins(out, a), x),
{
    lemma_push_logins_split(out, a, seq![x]);
    assert(a + seq![x] =~= a.push(x));
    let p = push_logins(out, a);
    assert(seq![x].drop_first() =~= Seq::<Seq<char>>::empty());
    assert(push_logins(p, seq![x]) == push_logins(push_login(p, x), Seq::<Seq<char>>::empty()));
}

proof fn lemma_push_logins_split(out: Seq<Seq<char>>, a: Seq<Seq<char>>, b: Seq<Seq<char>>)
    ensures
        push_logins(out, a + b) == push_logins(push_logins(out, a), b),
    decreases a.len(),
{
    if a.len() == 0 {
        assert(a + b =~= b);
    } else {
        assert((a + b).drop_first() =~= a.drop_first() + b);
        assert((a + b)[0] == a[0]);
        lemma_push_logins_split(push_login(out, a[0]), a.drop_first(), b);
    }
}

/// Every entry is non-empty and already trimmed.
pub open spec fn all_trimmed(s: Seq<Seq<char>>) -> bool {
    forall|i: int| 0 <= i < s.len() ==> (#[trigger] s[i]).len() > 0 && trim(s[i]) == s[i]
}

proof fn lemma_push_logins_trimmed(out: Seq<Seq<char>>, cs: Seq<Seq<char>>)
    requires
        all_trimmed(out),
    ensures
        all_trimmed(push_logins(out, cs)),
    decreases cs.len(),
{
    if cs.len() > 0 {
        let c = trim(cs[0]);
        lemma_trim_idempotent(cs[0]);
        let next = push_login(out, cs[0]);
        assert(all_trimmed(next)) by {
            if c.len() > 0 && !out.contains(c) {
                assert forall|i: int| 0 <= i < next.len() implies (#[trigger] next[i]).len() > 0 && trim(
                    next[i],
                ) == next[i] by {
                    if i < out.len() {
                        assert(next[i] == out[i]);
                    }
                }
            }
        }
        lemma_push_logins_trimmed(next, cs.drop_first());
    }
}

proof fn lemma_word_trimmed(w: Seq<char>)
    requires
        w.len() > 0,
        !is_ws(w[0]),
        !is_ws(w.last()),
    ensures
        trim(w) == w,
        trim(w).len() > 0,
{
    lemma_trim_of_trimmed(w);
}

/// The login suggestions hold no entry twice; each entry is non-empty and trimmed; every common
/// default login is among them; and a current user that is not blank comes first, trimmed.
pub proof fn lemma_suggestions_shape(hint_lower: Seq<char>, current_user: Option<Seq<char>>)
    ensures
        no_duplicates(suggestions(hint_lower, current_user)),
        all_trimmed(suggestions(hint_lower, current_user)),
        forall|k: int|
            0 <= k < default_logins().len() ==> suggestions(hint_lower, current_user).contains(
                #[trigger] default_logins()[k],
            ),
        match current_user {
            Some(u) => trim(u).len() > 0 ==> suggestions(hint_lower, current_user).len() > 0 && suggestions(
                hint_lower,
                current_user,
            )[0] == trim(u),
            None => true,
        },
{
    let cands = login_candidates(hint_lower, current_user);
    let e = Seq::<Seq<char>>::empty();
    lemma_push_logins(e, cands);
    lemma_push_logins_trimmed(e, cands);
    let dl = default_logins();
    reveal_strlit("root");
    reveal_strlit("admin");
    reveal_strlit("pi");
    reveal_strlit("ubuntu");
    reveal_strlit("debian");
    reveal_strlit("core");
    reveal_strlit("ec2-user");
    lemma_word_trimmed(dl[0]);
    lemma_word_trimmed(dl[1]);
    lemma_word_trimmed(dl[2]);
    lemma_word_trimmed(dl[3]);
    lemma_word_trimmed(dl[4]);
    lemma_word_trimmed(dl[5]);
    lemma_word_trimmed(dl[6]);
    let off = cands.len() - dl.len();
    assert forall|k: int| 0 <= k < dl.len() implies suggestions(hint_lower, current_user).contains(
        #[trigger] dl[k],
    ) by {
        assert(cands[off + k] == dl[k]);
        assert(trim(cands[off + k]).len() > 0);
    }
    if current_user is Some {
        let u = current_user->0;
        if trim(u).len() > 0 {
            assert(cands[0] == u);
            let first = push_login(e, u);
            assert(first == seq![trim(u)]);
            assert(no_duplicates(first));
            lemma_push_logins(first, cands.drop_first());
            assert(suggestions(hint_lower, current_user) == push_logins(first, cands.drop_first()));
            assert(push_logins(first, cands.drop_first())[0] == first[0]);
        }
    }
}

proof fn lemma_push_logins_from(out: Seq<Seq<char>>, cs: Seq<Seq<char>>)
    ensures
        forall|x: Seq<char>|
            #[trigger] push_logins(out, cs).contains(x) ==> out.contains(x) || exists|k: int|
                0 <= k < cs.len() && x == trim(#[trigger] cs[k]),
    decreases cs.len(),
{
    if cs.len() > 0 {
        let next = push_login(out, cs[0]);
        let rest = cs.drop_first();
        lemma_push_logins_from(next, rest);
        assert(push_logins(out, cs) == push_logins(next, rest));
        assert forall|x: Seq<char>| #[trigger] push_logins(out, cs).contains(x) implies out.contains(x) || exists|k: int|
            0 <= k < cs.len() && x == trim(#[trigger] cs[k]) by {
            assert(push_logins(next, rest).contains(x));
            if next.contains(x) {
                if !out.contains(x) {
                    let q = choose|q: int| 0 <= q < next.len() && next[q] == x;
                    if q < out.len() {
                        assert(out[q] == x);
                    }
                    assert(x == trim(cs[0]));
                }
            } else {
                let k = choose|k: int| 0 <= k < rest.len() && x == trim(#[trigger] rest[k]);
                assert(rest[k] == cs[k + 1]);
            }
        }
    }
}

/// The candidates ahead of the common defaults: the current user, then the logins the hint
/// suggests.
spec fn leading_candidates(hint_lower: Seq<char>, current_user: Option<Seq<char>>) -> Seq<Seq<char>> {
    let cu: Seq<Seq<char>> = match current_user {
        Some(u) => seq![u],
        None => Seq::empty(),
    };
    let pi: Seq<Seq<char>> = if contains_sub(hint_lower, "raspbian"@) || contains_sub(hint_lower, "raspberry"@) {
        seq!["pi"@]
    } else {
        Seq::empty()
    };
    let ub: Seq<Seq<char>> = if contains_sub(hint_lower, "ubuntu"@) {
        seq!["ubuntu"@]
    } else {
        Seq::empty()
    };
    let de: Seq<Seq<char>> = if contains_sub(hint_lower, "debian"@) {
        seq!["debian"@]
    } else {
        Seq::empty()
    };
    cu + pi + ub + de
}

proof fn lemma_leading_candidates(hint_lower: Seq<char>, current_user: Option<Seq<char>>, x: Seq<char>)
    requires
        (x == "pi"@ && (contains_sub(hint_lower, "raspbian"@) || contains_sub(hint_lower, "raspberry"@)))
            || (x == "ubuntu"@ && contains_sub(hint_lower, "ubuntu"@)) || (x == "debian"@
            && contains_sub(hint_lower, "debian"@)),
    ensures
        login_candidates(hint_lower, current_user) == leading_candidates(hint_lower, current_user) + default_logins(),
        leading_candidates(hint_lower, current_user).contains(x),
        forall|k: int|
            0 <= k < leading_candidates(hint_lower, current_user).len() ==> (current_user matches Some(u)
                && #[trigger] leading_candidates(hint_lower, current_user)[k] == u) || leading_candidates(
                hint_lower,
                current_user,
            )[k] == "pi"@ && (contains_sub(hint_lower, "raspbian"@) || contains_sub(hint_lower, "raspberry"@))
                || leading_candidates(hint_lower, current_user)[k] == "ubuntu"@ && contains_sub(hint_lower, "ubuntu"@)
                || leading_candidates(hint_lower, current_user)[k] == "debian"@ && contains_sub(hint_lower, "debian"@),
{
    let lc = leading_candidates(hint_lower, current_user);
    assert(login_candidates(hint_lower, current_user) =~= lc + default_logins());
    let a: int = if current_user is Some { 1 } else { 0 };
    let b: int = a + if contains_sub(hint_lower, "raspbian"@) || contains_sub(hint_lower, "raspberry"@) { 1int } else { 0int };
    let c: int = b + if contains_sub(hint_lower, "ubuntu"@) { 1int } else { 0int };
    if x == "pi"@ && (contains_sub(hint_lower, "raspbian"@) || contains_sub(hint_lower, "raspberry"@)) {
        assert(lc[a] == x);
    } else if x == "ubuntu"@ && contains_sub(hint_lower, "ubuntu"@) {
        assert(lc[b] == x);
    } else {
        assert(lc[c] == x);
    }
}

/// The logins inferred from a (lower-cased) OS hint come before the common defaults the hint
/// does not suggest: `pi` for Raspbian / Raspberry Pi, `ubuntu` for Ubuntu, `debian` for
/// Debian (unless the current user's login is that default).
#[verifier::rlimit(40)]
pub proof fn lemma_inferred_logins_first(
    hint_lower: Seq<char>,
    current_user: Option<Seq<char>>,
    x: Seq<char>,
    d: Seq<char>,
)
    requires
        (x == "pi"@ && (contains_sub(hint_lower, "raspbian"@) || contains_sub(hint_lower, "raspberry"@)))
            || (x == "ubuntu"@ && contains_sub(hint_lower, "ubuntu"@)) || (x == "debian"@
            && contains_sub(hint_lower, "debian"@)),
        d == "root"@ || d == "admin"@ || d == "core"@ || d == "ec2-user"@ || (d == "pi"@ && !(contains_sub(
            hint_lower,
            "raspbian"@,
        ) || contains_sub(hint_lower, "raspberry"@))) || (d == "ubuntu"@ && !contains_sub(hint_lower, "ubuntu"@))
            || (d == "debian"@ && !contains_sub(hint_lower, "debian"@)),
        match current_user {
            Some(u) => trim(u) != d,
            None => true,
        },
    ensures
        suggestions(hint_lower, current_user).contains(x),
        forall|j: int, k: int|
            0 <= j < suggestions(hint_lower, current_user).len() && 0 <= k < suggestions(hint_lower, current_user).len()
                && (#[trigger] suggestions(hint_lower, current_user)[j]) == x && (#[trigger] suggestions(
                hint_lower,
                current_user,
            )[k]) == d ==> j < k,
{
    let dl = default_logins();
    let prefix = leading_candidates(hint_lower, current_user);
    lemma_leading_candidates(hint_lower, current_user, x);
    let e = Seq::<Seq<char>>::empty();
    lemma_push_logins_split(e, prefix, dl);
    let pp = push_logins(e, prefix);
    let s = suggestions(hint_lower, current_user);
    assert(s == push_logins(pp, dl));
    lemma_push_logins(e, prefix);
    lemma_push_logins(pp, dl);
    lemma_push_logins_from(e, prefix);
    assert(trim(x) == x) by {
        reveal_strlit("pi");
        reveal_strlit("ubuntu");
        reveal_strlit("debian");
        if x == "pi"@ {
            lemma_word_trimmed("pi"@);
        } else if x == "ubuntu"@ {
            lemma_word_trimmed("ubuntu"@);
        } else {
            lemma_word_trimmed("debian"@);
        }
    }
    let xi: int = choose|xi: int| 0 <= xi < prefix.len() && prefix[xi] == x;
    assert(trim(prefix[xi]).len() > 0) by {
        reveal_strlit("pi");
        reveal_strlit("ubuntu");
        reveal_strlit("debian");
    }
    assert(pp.contains(trim(prefix[xi])));
    let q = choose|q: int| 0 <= q < pp.len() && pp[q] == x;
    assert(s[q] == x);
    assert(!pp.contains(d)) by {
        if pp.contains(d) {
            assert(!e.contains(d));
            let k = choose|k: int| 0 <= k < prefix.len() && d == trim(#[trigger] prefix[k]);
            reveal_strlit("root");
            reveal_strlit("admin");
            reveal_strlit("pi");
            reveal_strlit("ubuntu");
            reveal_strlit("debian");
            reveal_strlit("core");
            reveal_strlit("ec2-user");
            lemma_word_trimmed("pi"@);
            lemma_word_trimmed("ubuntu"@);
            lemma_word_trimmed("debian"@);
            assert(prefix[k] == prefix[k]);
        }
    }
    assert forall|j: int, k: int|
        0 <= j < s.len() && 0 <= k < s.len() && (#[trigger] s[j]) == x && (#[trigger] s[k]) == d implies j < k by {
        if j != q {
            if j < q {
                assert(s[j] != s[q]);
            } else {
                assert(s[q] != s[j]);
            }
        }
        if k < pp.len() {
            assert(s[k] == pp[k]);
        }
    }
}

/// A hint naming Ubuntu alone (no Raspberry Pi), with no current user, makes `ubuntu` the first
/// login suggested.
pub proof fn lemma_ubuntu_hint_first(hint_lower: Seq<char>)
    requires
        contains_sub(hint_lower, "ubuntu"@),
        !contains_sub(hint_lower, "raspbian"@),
        !contains_sub(hint_lower, "raspberry"@),
    ensures
        suggestions(hint_lower, None).len() > 0,
        suggestions(hint_lower, None)[0] == "ubuntu"@,
{
    let dl = default_logins();
    let prefix = leading_candidates(hint_lower, None);
    lemma_leading_candidates(hint_lower, None, "ubuntu"@);
    let e = Seq::<Seq<char>>::empty();
    lemma_push_logins_split(e, prefix, dl);
    let pp = push_logins(e, prefix);
    let s = suggestions(hint_lower, None);
    assert(s == push_logins(pp, dl));
    lemma_push_logins(e, prefix);
    lemma_push_logins(pp, dl);
    assert(prefix[0] == "ubuntu"@);
    reveal_strlit("ubuntu");
    lemma_word_trimmed("ubuntu"@);
    let first = push_login(e, "ubuntu"@);
    assert(first == seq!["ubuntu"@]);
    assert(pp == push_logins(first, prefix.drop_first()));
    lemma_push_logins(first, prefix.drop_first());
    assert(pp[0] == "ubuntu"@);
    assert(s[0] == pp[0]);
}

/// The OS hint as the suggestions read it: lower-cased in full Unicode, empty when there is none.
pub open spec fn lowered_hint(os_hint: Option<Seq<char>>) -> Seq<char> {
    match os_hint {
        Some(h) => unicode_lower(h),
        None => Seq::empty(),
    }
}

/// Build an ordered, de-duplicated list of heuristic login suggestions: the current OS user
/// first, then OS-specific defaults inferred from the SSH banner hint (lower-cased in full
/// Unicode), then common appliance/cloud-image defaults. None of these are authoritative.
pub fn suggest_usernames(os_hint: Option<&str>, current_user: Option<&str>) -> (r: Vec<String>)
    ensures
        views_s(r@) == suggestions(
            lowered_hint(match os_hint {
                Some(h) => Some(h@),
                None => None,
            }),
            match current_user {
                Some(u) => Some(u@),
                None => None,
            },
        ),
        no_duplicates(views_s(r@)),
        all_trimmed(views_s(r@)),
        forall|k: int| 0 <= k < default_logins().len() ==> views_s(r@).contains(#[trigger] default_logins()[k]),
        match current_user {
            Some(u) => trim(u@).len() > 0 ==> r@.len() > 0 && r@[0]@ == trim(u@),
            None => true,
        },
{
    proof {
        lemma_suggestions_shape(
            lowered_hint(match os_hint {
                Some(h) => Some(h@),
                None => None,
            }),
            match current_user {
                Some(u) => Some(u@),
                None => None,
            },
        );
    }
    match os_hint {
        Some(h) => {
            let lowered = to_lowercase(h);
            suggest_usernames_lowered(lowered.as_str(), current_user)
        },
        None => {
            proof {
                reveal_strlit("");
                assert(""@ =~= Seq::<char>::empty());
            }
            suggest_usernames_lowered("", current_user)
        },
    }
}

// ---- time ---------------------------------------------------------------------------------------

/// Whole seconds since the Unix epoch on the system clock, `None` before the epoch. The clock
/// can read anything, so nothing is stated of the value.
#[verifier::external_body]
fn seconds_since_epoch() -> Option<u64> {
    std::time::SystemTime::now().duration_since(std::time::UNIX_EPOCH).ok().map(|d| d.as_secs())
}

/// A clock reading as signed Unix seconds: 0 before the epoch, the seconds otherwise (as the
/// signed integer of the same bits).
pub fn unix_seconds(since_epoch: Option<u64>) -> (r: i64)
    ensures
        r == match since_epoch {
            Some(s) => s as i64,
            None => 0,
        },
{
    match since_epoch {
        Some(s) => s as i64,
        None => 0,
    }
}

/// Current time in whole Unix seconds (saturates to 0 before the epoch).
pub fn unix_now() -> i64 {
    unix_seconds(seconds_since_epoch())
}


// ---- IP addresses -------------------------------------------------------------------------------

/// An IPv4 or IPv6 address. Ordered as `std::net::IpAddr` orders: every IPv4 address before every
/// IPv6 one, then by octets / segments.
#[derive(Debug, Clone, Copy, PartialEq, Eq, Structural, PartialOrd, Ord, Hash)]
pub enum IpAddress {
    V4(u8, u8, u8, u8),
    V6(u16, u16, u16, u16, u16, u16, u16, u16),
}

/// Dotted-decimal text of four octets.
pub open spec fn ipv4_text(a: u8, b: u8, c: u8, d: u8) -> Seq<char> {
    decimal(a as nat) + "."@ + decimal(b as nat) + "."@ + decimal(c as nat) + "."@ + decimal(
        d as nat,
    )
}

pub open spec fn hex_digit(d: nat) -> char {
    if d < 10 {
        crate::text::digit_char(d)
    } else {
        ((d - 10 + 97) as u32) as char
    }
}

/// Lower-case hexadecimal digits of `n`, without leading zeros.
pub open spec fn hex(n: nat) -> Seq<char>
    decreases n,
{
    if n < 16 {
        seq![hex_digit(n)]
    } else {
        hex(n / 16).push(hex_digit(n % 16))
    }
}

/// `:` followed by each group's hex digits.
pub open spec fn colon_hex(g: Seq<u16>) -> Seq<char>
    decreases g.len(),
{
    if g.len() == 0 {
        Seq::empty()
    } else {
        ":"@ + hex(g[0] as nat) + colon_hex(g.drop_first())
    }
}

/// Groups in hex, separated by `:`.
pub open spec fn hex_join(g: Seq<u16>) -> Seq<char> {
    if g.len() == 0 {
        Seq::empty()
    } else {
        hex(g[0] as nat) + colon_hex(g.drop_first())
    }
}

/// The first longest run of zero groups from `i` on, as `(start, length)`, given the run being
/// read (`cs`, `cl`) and the best so far (`bs`, `bl`).
pub open spec fn zero_run(g: Seq<u16>, i: int, cs: int, cl: int, bs: int, bl: int) -> (int, int)
    decreases g.len() - i,
{
    if i < 0 || i >= g.len() {
        (bs, bl)
    } else if g[i] == 0 {
        let ncs = if cl == 0 {
            i
        } else {
            cs
        };
        if cl + 1 > bl {
            zero_run(g, i + 1, ncs, cl + 1, ncs, cl + 1)
        } else {
            zero_run(g, i + 1, ncs, cl + 1, bs, bl)
        }
    } else {
        zero_run(g, i + 1, 0, 0, bs, bl)
    }
}

/// RFC 5952 text of eight groups as `std` writes it: an IPv4-mapped address as
/// `::ffff:a.b.c.d`, otherwise lower-case hex groups with the first longest run of two or more
/// zero groups written `::`.
pub open spec fn ipv6_text(g: Seq<u16>) -> Seq<char> {
    if g[0] == 0 && g[1] == 0 && g[2] == 0 && g[3] == 0 && g[4] == 0 && g[5] == 0xffff {
        "::ffff:"@ + ipv4_text(
            (g[6] / 256) as u8,
            (g[6] % 256) as u8,
            (g[7] / 256) as u8,
            (g[7] % 256) as u8,
        )
    } else {
        let (st, len) = zero_run(g, 0, 0, 0, 0, 0);
        if len > 1 {
            hex_join(g.take(st)) + "::"@ + hex_join(g.skip(st + len))
        } else {
            hex_join(g)
        }
    }
}

impl IpAddress {
    pub open spec fn groups(&self) -> Seq<u16> {
        match *self {
            IpAddress::V6(a, b, c, d, e, f, g, h) => seq![a, b, c, d, e, f, g, h],
            IpAddress::V4(..) => Seq::empty(),
        }
    }

    /// The address's text, as `std::net::IpAddr` displays it.
    pub open spec fn text(&self) -> Seq<char> {
        match *self {
            IpAddress::V4(a, b, c, d) => ipv4_text(a, b, c, d),
            IpAddress::V6(..) => ipv6_text(self.groups()),
        }
    }

    /// The address's text, as `std::net::IpAddr` displays it.
    pub fn to_text(&self) -> (r: String)
        ensures
            r@ == self.text(),
    {
        match *self {
            IpAddress::V4(a, b, c, d) => from_chars(&ipv4_chars(a, b, c, d)),
            IpAddress::V6(a, b, c, d, e, f, g, h) => {
                let v: [u16; 8] = [a, b, c, d, e, f, g, h];
                assert(v@ =~= self.groups());
                from_chars(&ipv6_chars(&v))
            },
        }
    }
}

fn ipv4_chars(a: u8, b: u8, c: u8, d: u8) -> (r: Vec<char>)
    ensures
        r@ == ipv4_text(a, b, c, d),
{
    let mut v = decimal_v(a as u64);
    append(&mut v, &lit("."));
    append(&mut v, &decimal_v(b as u64));
    append(&mut v, &lit("."));
    append(&mut v, &decimal_v(c as u64));
    append(&mut v, &lit("."));
    append(&mut v, &decimal_v(d as u64));
    v
}

fn hex_chars(n: u64) -> (r: Vec<char>)
    ensures
        r@ == hex(n as nat),
    decreases n,
{
    let d = n % 16;
    let c = if d < 10 {
        crate::text::digit(d)
    } else {
        let b: u8 = (d - 10 + 97) as u8;
        b as char
    };
    if n < 16 {
        let mut v: Vec<char> = Vec::new();
        v.push(c);
        assert(v@ =~= seq![hex_digit(n as nat)]);
        v
    } else {
        let mut v = hex_chars(n / 16);
        v.push(c);
        v
    }
}

fn hex_join_chars(g: &[u16; 8], lo: usize, hi: usize) -> (r: Vec<char>)
    requires
        lo <= hi <= 8,
    ensures
        r@ == hex_join(g@.subrange(lo as int, hi as int)),
{
    let mut v: Vec<char> = Vec::new();
    if lo == hi {
        return v;
    }
    v = hex_chars(g[lo] as u64);
    let mut i = lo + 1;
    proof {
        let s = g@.subrange(lo as int, hi as int);
        assert(s.drop_first() =~= g@.subrange(lo + 1, hi as int));
    }
    while i < hi
        invariant
            lo < i <= hi <= 8,
            v@ + colon_hex(g@.subrange(i as int, hi as int)) == hex_join(g@.subrange(lo as int, hi as int)),
        decreases hi - i,
    {
        proof {
            let t = g@.subrange(i as int, hi as int);
            assert(t.drop_first() =~= g@.subrange(i + 1, hi as int));
            assert(t[0] == g@[i as int]);
        }
        let ghost before = v@;
        append(&mut v, &lit(":"));
        append(&mut v, &hex_chars(g[i] as u64));
        proof {
            assert(before + (":"@ + hex(g@[i as int] as nat) + colon_hex(g@.subrange(i + 1, hi as int)))
                =~= v@ + colon_hex(g@.subrange(i + 1, hi as int)));
        }
        i += 1;
    }
    assert(v@ + colon_hex(g@.subrange(hi as int, hi as int)) =~= v@);
    v
}

fn ipv6_chars(g: &[u16; 8]) -> (r: Vec<char>)
    ensures
        r@ == ipv6_text(g@),
{
    if g[0] == 0 && g[1] == 0 && g[2] == 0 && g[3] == 0 && g[4] == 0 && g[5] == 0xffff {
        let mut v = lit("::ffff:");
        let a: u8 = (g[6] / 256) as u8;
        let b: u8 = (g[6] % 256) as u8;
        let c: u8 = (g[7] / 256) as u8;
        let d: u8 = (g[7] % 256) as u8;
        append(&mut v, &ipv4_chars(a, b, c, d));
        return v;
    }
    let mut cs: usize = 0;
    let mut cl: usize = 0;
    let mut bs: usize = 0;
    let mut bl: usize = 0;
    let mut i: usize = 0;
    while i < 8
        invariant
            i <= 8,
            cl <= i,
            cs + cl <= i,
            bs + bl <= 8,
            bl <= i,
            zero_run(g@, 0, 0, 0, 0, 0) == zero_run(g@, i as int, cs as int, cl as int, bs as int, bl as int),
        decreases 8 - i,
    {
        if g[i] == 0 {
            if cl == 0 {
                cs = i;
            }
            cl += 1;
            if cl > bl {
                bs = cs;
                bl = cl;
            }
        } else {
            cs = 0;
            cl = 0;
        }
        i += 1;
    }
    if bl > 1 {
        let mut v = hex_join_chars(g, 0, bs);
        append(&mut v, &lit("::"));
        append(&mut v, &hex_join_chars(g, bs + bl, 8));
        assert(g@.take(bs as int) =~= g@.subrange(0, bs as int));
        assert(g@.skip(bs + bl) =~= g@.subrange(bs + bl, 8));
        v
    } else {
        assert(g@ =~= g@.subrange(0, 8));
        hex_join_chars(g, 0, 8)
    }
}

// ---- devices ------------------------------------------------------------------------------------

/// A single discovered device on the local network.
pub struct Device {
    /// Stable identity key — the MAC when known, otherwise the IP.
    pub id: String,
    /// Most recently observed IP address.
    pub ip: IpAddress,
    /// Hardware (MAC) address, when resolvable from the ARP cache.
    pub mac: Option<MacAddr>,
    /// Vendor inferred from the MAC OUI.
    pub vendor: Option<String>,
    /// User-supplied name; when set it overrides the auto-derived name.
    pub custom_name: Option<String>,
    /// User-chosen SSH login; when set it overrides the heuristic suggestions.
    pub ssh_user: Option<String>,
    /// Naming signals from discovery sources.
    pub names: DeviceNames,
    /// Liveness from the latest scan.
    pub status: DeviceStatus,
    /// SSH probe details.
    pub ssh: SshInfo,
    /// Open TCP ports observed during the sweep.
    pub open_ports: Vec<u16>,
    /// Services identified by the most recent deep port scan.
    pub services: Vec<ServicePort>,
    /// Unix seconds of the most recent deep port scan.
    pub ports_scanned_at: Option<i64>,
    /// Unix seconds when first discovered.
    pub first_seen: i64,
    /// Unix seconds of the most recent sighting.
    pub last_seen: i64,
}

/// The name to show in UIs when no usable override exists: mDNS hostname (cleaned), UPnP
/// friendly name, reverse-DNS name (cleaned), NetBIOS name, `"<vendor> @ <ip>"`, or the IP.
pub open spec fn derived_name(d: Device) -> Seq<char> {
    match d.names.mdns_hostname {
        Some(n) => cleaned_hostname(n@),
        None => match d.names.upnp_friendly_name {
            Some(n) => n@,
            None => match d.names.reverse_dns {
                Some(n) => cleaned_hostname(n@),
                None => match d.names.netbios {
                    Some(n) => n@,
                    None => match d.vendor {
                        Some(v) => v@ + " @ "@ + d.ip.text(),
                        None => d.ip.text(),
                    },
                },
            },
        },
    }
}

/// The user's override when it has non-blank text, else the derived name.
pub open spec fn shown_name(d: Device) -> Seq<char> {
    match d.custom_name {
        Some(n) => if trim(n@).len() > 0 {
            n@
        } else {
            derived_name(d)
        },
        None => derived_name(d),
    }
}

/// The login to use: the explicit non-blank choice, else the first suggestion, else `root`.
pub open spec fn chosen_login(d: Device) -> Seq<char> {
    match d.ssh_user {
        Some(u) => if trim(u@).len() > 0 {
            u@
        } else if d.ssh.suggested_users@.len() > 0 {
            d.ssh.suggested_users@[0]@
        } else {
            "root"@
        },
        None => if d.ssh.suggested_users@.len() > 0 {
            d.ssh.suggested_users@[0]@
        } else {
            "root"@
        },
    }
}

impl Device {
    /// A freshly-seen device at `now`: identified by its IP text, online, with no other facts.
    pub fn seen_at(ip: IpAddress, now: i64) -> (d: Self)
        ensures
            d.id@ == ip.text(),
            d.ip == ip,
            d.mac is None,
            d.vendor is None,
            d.custom_name is None,
            d.ssh_user is None,
            d.names.mdns_hostname is None,
            d.names.mdns_services@.len() == 0,
            d.names.upnp_friendly_name is None,
            d.names.reverse_dns is None,
            d.names.netbios is None,
            d.status == DeviceStatus::Online,
            d.ssh.status == SshStatus::Unknown,
            d.ssh.port is None,
            d.ssh.banner is None,
            d.ssh.os_hint is None,
            d.ssh.suggested_users@.len() == 0,
            d.open_ports@.len() == 0,
            d.services@.len() == 0,
            d.ports_scanned_at is None,
            d.first_seen == now,
            d.last_seen == now,
    {
        Device {
            id: ip.to_text(),
            ip,
            mac: None,
            vendor: None,
            custom_name: None,
            ssh_user: None,
            names: DeviceNames::default(),
            status: DeviceStatus::Online,
            ssh: SshInfo::default(),
            open_ports: Vec::new(),
            services: Vec::new(),
            ports_scanned_at: None,
            first_seen: now,
            last_seen: now,
        }
    }

    /// Create a freshly-seen device from an IP, stamping first/last seen to now.
    pub fn seen(ip: IpAddress) -> (d: Self)
        ensures
            d.id@ == ip.text(),
            d.ip == ip,
            d.mac is None,
            d.vendor is None,
            d.custom_name is None,
            d.ssh_user is None,
            d.status == DeviceStatus::Online,
            d.ssh.status == SshStatus::Unknown,
            d.ssh.suggested_users@.len() == 0,
            d.open_ports@.len() == 0,
            d.services@.len() == 0,
            d.first_seen == d.last_seen,
    {
        Self::seen_at(ip, unix_now())
    }

    /// Adopt the MAC as the stable identity key (preferred over IP, which can change).
    pub fn set_mac(&mut self, mac: MacAddr)
        ensures
            final(self).id@ == mac@,
            opt_view(final(self).mac) == Some(mac@),
            final(self).ip == old(self).ip,
            final(self).vendor == old(self).vendor,
            final(self).custom_name == old(self).custom_name,
            final(self).ssh_user == old(self).ssh_user,
            final(self).names == old(self).names,
            final(self).status == old(self).status,
            final(self).ssh == old(self).ssh,
            final(self).open_ports == old(self).open_ports,
            final(self).services == old(self).services,
            final(self).ports_scanned_at == old(self).ports_scanned_at,
            final(self).first_seen == old(self).first_seen,
            final(self).last_seen == old(self).last_seen,
    {
        self.id = mac.clone();
        self.mac = Some(mac);
    }

    /// Best auto-derived name from the available discovery signals.
    pub fn derive_display_name(&self) -> (r: String)
        ensures
            r@ == derived_name(*self),
    {
        if let Some(n) = &self.names.mdns_hostname {
            return clean_hostname(n.as_str());
        }
        if let Some(n) = &self.names.upnp_friendly_name {
            return n.clone();
        }
        if let Some(n) = &self.names.reverse_dns {
            return clean_hostname(n.as_str());
        }
        if let Some(n) = &self.names.netbios {
            return n.clone();
        }
        if let Some(v) = &self.vendor {
            let mut out = to_chars(v.as_str());
            append(&mut out, &lit(" @ "));
            append(&mut out, &to_chars(self.ip.to_text().as_str()));
            return from_chars(&out);
        }
        self.ip.to_text()
    }

    /// The name to show in UIs: the user override if present, else an auto-derived name.
    pub fn display_name(&self) -> (r: String)
        ensures
            r@ == shown_name(*self),
    {
        if let Some(name) = &self.custom_name {
            if trim_v(&to_chars(name.as_str())).len() > 0 {
                return name.clone();
            }
        }
        self.derive_display_name()
    }

    /// Build the `ssh` command for this device for the given user (port 22 unless probed
    /// otherwise).
    pub fn ssh_command(&self, user: &str) -> (r: String)
        ensures
            r@ == ssh_command_text(
                self.ip.text(),
                user@,
                match self.ssh.port {
                    Some(p) => p,
                    None => 22,
                },
            ),
    {
        let port = match self.ssh.port {
            Some(p) => p,
            None => 22,
        };
        build_ssh_command(self.ip.to_text().as_str(), user, port)
    }

    /// The best login to use: the user's explicit choice, else the top heuristic suggestion,
    /// else `root`.
    pub fn chosen_user(&self) -> (r: String)
        ensures
            r@ == chosen_login(*self),
    {
        if let Some(u) = &self.ssh_user {
            if trim_v(&to_chars(u.as_str())).len() > 0 {
                return u.clone();
            }
        }
        if self.ssh.suggested_users.len() > 0 {
            return self.ssh.suggested_users[0].clone();
        }
        "root".to_owned()
    }
}

} // verus!
