//! Modular terminal-launcher registry.
//!
//! Each launcher knows how to (a) detect whether its emulator is installed and (b) build a
//! detached command that opens a new window running a given `ssh` argv. The registry is chosen
//! per platform, so only launchers valid for the current OS are offered.
//!
//! Injection safety: argv-based launchers pass the `ssh` arguments as separate process arguments —
//! no shell ever parses them. The few that require a single command *string* (macOS `osascript`,
//! Windows PowerShell `-Command`) build it through dedicated quoting helpers.
use vstd::prelude::*;
use crate::model::views_s;
use crate::text::{append, from_chars, lit, replace_all, replace_all_v, to_chars};

verus! {

broadcast use vstd::string::group_string_axioms;

/// The operating system whose launchers are offered.
#[derive(Debug, Clone, Copy, PartialEq, Eq, Structural)]
pub enum Platform {
    Windows,
    MacOs,
    Linux,
}

/// A terminal emulator offered to the UI.
pub struct TerminalInfo {
    /// Stable id used to select the launcher (e.g. `"wt"`, `"kitty"`).
    pub id: String,
    /// Human-readable name shown in the picker.
    pub display: String,
}

/// How a launcher tells whether its emulator is installed.
#[derive(Debug, Clone, Copy)]
pub enum Detect {
    /// Always present (macOS Terminal).
    Always,
    /// The executable is on `PATH`.
    OnPath(&'static str),
    /// Either executable is on `PATH`.
    EitherOnPath(&'static str, &'static str),
    /// A macOS `.app` bundle of that name exists.
    Bundle(&'static str),
    /// A macOS `.app` bundle exists, or the executable is on `PATH`.
    BundleOrPath(&'static str, &'static str),
}

/// How a launcher opens a window running an argv.
#[derive(Debug, Clone, Copy, PartialEq, Eq, Structural)]
pub enum Build {
    WindowsTerminal,
    PowerShell,
    CommandPrompt,
    MacTerminal,
    ITerm,
    MacGhostty,
    Gnome,
    Konsole,
    Xterm,
    Ghostty,
    Alacritty,
    Kitty,
    WezTerm,
}

/// One entry in the launcher registry.
#[derive(Debug, Clone, Copy)]
pub struct Launcher {
    pub id: &'static str,
    pub display: &'static str,
    pub detect: Detect,
    pub build: Build,
}

/// The mathematical content of a registry entry.
pub struct LauncherSpec {
    pub id: Seq<char>,
    pub display: Seq<char>,
    pub detect: Detect,
    pub build: Build,
}

impl View for Launcher {
    type V = LauncherSpec;

    open spec fn view(&self) -> LauncherSpec {
        LauncherSpec { id: self.id@, display: self.display@, detect: self.detect, build: self.build }
    }
}

pub open spec fn ls(id: Seq<char>, display: Seq<char>, detect: Detect, build: Build) -> LauncherSpec {
    LauncherSpec { id, display, detect, build }
}

/// The launchers valid for a platform, in the order they are offered: the platform's own
/// emulators, then (on macOS and Linux) the cross-platform ones.
pub open spec fn registry(p: Platform) -> Seq<LauncherSpec> {
    let unix = seq![
        ls("alacritty"@, "Alacritty"@, Detect::OnPath("alacritty"), Build::Alacritty),
        ls("kitty"@, "kitty"@, Detect::OnPath("kitty"), Build::Kitty),
        ls("wezterm"@, "WezTerm"@, Detect::OnPath("wezterm"), Build::WezTerm),
    ];
    match p {
        Platform::Windows => seq![
            ls("wt"@, "Windows Terminal"@, Detect::EitherOnPath("wt", "wt.exe"), Build::WindowsTerminal),
            ls("powershell"@, "PowerShell"@, Detect::EitherOnPath("powershell", "pwsh"), Build::PowerShell),
            ls("cmd"@, "Command Prompt"@, Detect::OnPath("cmd"), Build::CommandPrompt),
        ],
        Platform::MacOs => seq![
            ls("macos-terminal"@, "Terminal"@, Detect::Always, Build::MacTerminal),
            ls("iterm2"@, "iTerm2"@, Detect::Bundle("iTerm"), Build::ITerm),
            ls("ghostty"@, "Ghostty"@, Detect::BundleOrPath("Ghostty", "ghostty"), Build::MacGhostty),
        ] + unix,
        Platform::Linux => seq![
            ls("gnome-terminal"@, "GNOME Terminal"@, Detect::OnPath("gnome-terminal"), Build::Gnome),
            ls("konsole"@, "Konsole"@, Detect::OnPath("konsole"), Build::Konsole),
            ls("xterm"@, "xterm"@, Detect::OnPath("xterm"), Build::Xterm),
            ls("ghostty"@, "Ghostty"@, Detect::OnPath("ghostty"), Build::Ghostty),
        ] + unix,
    }
}

pub open spec fn launcher_views(v: Seq<Launcher>) -> Seq<LauncherSpec> {
    v.map_values(|l: Launcher| l@)
}

fn push_l(v: &mut Vec<Launcher>, l: Launcher)
    ensures
        launcher_views(final(v)@) == launcher_views(old(v)@).push(l@),
{
    v.push(l);
    assert(launcher_views(v@) =~= launcher_views(old(v)@).push(l@));
}

fn launcher(id: &'static str, display: &'static str, detect: Detect, build: Build) -> (r: Launcher)
    ensures
        r@ == ls(id@, display@, detect, build),
{
    Launcher { id, display, detect, build }
}

/// Assemble the launchers valid for a platform.
pub fn all_launchers(p: Platform) -> (r: Vec<Launcher>)
    ensures
        launcher_views(r@) == registry(p),
{
    let mut v: Vec<Launcher> = Vec::new();
    match p {
        Platform::Windows => {
            push_l(&mut v, launcher("wt", "Windows Terminal", Detect::EitherOnPath("wt", "wt.exe"), Build::WindowsTerminal));
            push_l(&mut v, launcher("powershell", "PowerShell", Detect::EitherOnPath("powershell", "pwsh"), Build::PowerShell));
            push_l(&mut v, launcher("cmd", "Command Prompt", Detect::OnPath("cmd"), Build::CommandPrompt));
        },
        Platform::MacOs => {
            push_l(&mut v, launcher("macos-terminal", "Terminal", Detect::Always, Build::MacTerminal));
            push_l(&mut v, launcher("iterm2", "iTerm2", Detect::Bundle("iTerm"), Build::ITerm));
            push_l(&mut v, launcher("ghostty", "Ghostty", Detect::BundleOrPath("Ghostty", "ghostty"), Build::MacGhostty));
        },
        Platform::Linux => {
            push_l(&mut v, launcher("gnome-terminal", "GNOME Terminal", Detect::OnPath("gnome-terminal"), Build::Gnome));
            push_l(&mut v, launcher("konsole", "Konsole", Detect::OnPath("konsole"), Build::Konsole));
            push_l(&mut v, launcher("xterm", "xterm", Detect::OnPath("xterm"), Build::Xterm));
            push_l(&mut v, launcher("ghostty", "Ghostty", Detect::OnPath("ghostty"), Build::Ghostty));
        },
    }
    if p != Platform::Windows {
        push_l(&mut v, launcher("alacritty", "Alacritty", Detect::OnPath("alacritty"), Build::Alacritty));
        push_l(&mut v, launcher("kitty", "kitty", Detect::OnPath("kitty"), Build::Kitty));
        push_l(&mut v, launcher("wezterm", "WezTerm", Detect::OnPath("wezterm"), Build::WezTerm));
    }
    assert(launcher_views(v@) =~= registry(p));
    v
}

// ---- detection ----------------------------------------------------------------------------------

/// Whether `exe` is resolvable on `PATH` (`which::which`). What is installed varies from machine
/// to machine, so nothing is stated of the answer.
#[verifier::external_body]
fn on_path(exe: &str) -> bool {
    which::which(exe).is_ok()
}

/// Whether a detection rule is met, given the macOS `.app` bundles found (by name) and the
/// `PATH` lookups' answers as a function of the executable name.
pub open spec fn detected(rule: Detect, bundles: Seq<Seq<char>>, path: spec_fn(Seq<char>) -> bool) -> bool {
    match rule {
        Detect::Always => true,
        Detect::OnPath(e) => path(e@),
        Detect::EitherOnPath(a, b) => path(a@) || path(b@),
        Detect::Bundle(n) => bundles.contains(n@),
        Detect::BundleOrPath(n, e) => bundles.contains(n@) || path(e@),
    }
}

fn has_bundle(bundles: &Vec<String>, name: &str) -> (r: bool)
    ensures
        r == views_s(bundles@).contains(name@),
{
    let n = to_chars(name);
    let mut i: usize = 0;
    while i < bundles.len()
        invariant
            i <= bundles.len(),
            n@ == name@,
            forall|j: int| 0 <= j < i ==> views_s(bundles@)[j] != name@,
        decreases bundles.len() - i,
    {
        if crate::text::eq_v(&to_chars(bundles[i].as_str()), &n) {
            assert(views_s(bundles@)[i as int] == name@);
            return true;
        }
        i += 1;
    }
    false
}

/// What a detection rule's answer is when the `.app` bundles found settle it: always-present
/// emulators are there, a bundle rule is answered by the bundles, and a bundle-or-`PATH` rule is
/// settled by a bundle that is present. `None` where a `PATH` lookup decides.
pub open spec fn bundle_decides(rule: Detect, bundles: Seq<Seq<char>>) -> Option<bool> {
    match rule {
        Detect::Always => Some(true),
        Detect::Bundle(n) => Some(bundles.contains(n@)),
        Detect::BundleOrPath(n, _) => if bundles.contains(n@) {
            Some(true)
        } else {
            None
        },
        _ => None,
    }
}

/// Every detection answer in `found` that the bundles settle is the settled one.
pub open spec fn agrees_with_bundles(reg: Seq<LauncherSpec>, bundles: Seq<Seq<char>>, found: Seq<bool>) -> bool {
    forall|k: int|
        #![trigger found[k]]
        0 <= k < found.len() && k < reg.len() && bundle_decides(reg[k].detect, bundles) is Some
            ==> found[k] == bundle_decides(reg[k].detect, bundles)->0
}

/// Whether a launcher's emulator appears installed. Bundle rules are answered from `bundles`
/// (the macOS `.app` bundles the caller found); `PATH` rules ask `which`, whose answers are not
/// known here, so the answer is stated wherever the bundles settle it.
pub fn detect(rule: Detect, bundles: &Vec<String>) -> (r: bool)
    ensures
        bundle_decides(rule, views_s(bundles@)) is Some ==> r == bundle_decides(
            rule,
            views_s(bundles@),
        )->0,
{
    match rule {
        Detect::Always => true,
        Detect::OnPath(e) => on_path(e),
        Detect::EitherOnPath(a, b) => on_path(a) || on_path(b),
        Detect::Bundle(n) => has_bundle(bundles, n),
        Detect::BundleOrPath(n, e) => has_bundle(bundles, n) || on_path(e),
    }
}

/// The macOS `.app` bundle names a platform's registry looks for.
pub fn bundle_names(p: Platform) -> (r: Vec<&'static str>)
    ensures
        p == Platform::MacOs ==> r@ == seq!["iTerm", "Ghostty"],
        p != Platform::MacOs ==> r@.len() == 0,
{
    let mut v: Vec<&'static str> = Vec::new();
    if p == Platform::MacOs {
        v.push("iTerm");
        v.push("Ghostty");
    }
    v
}

/// The registry entries whose detection answer is `true`, in registry order.
pub open spec fn selected(reg: Seq<LauncherSpec>, found: Seq<bool>) -> Seq<(Seq<char>, Seq<char>)>
    decreases reg.len(),
{
    if reg.len() == 0 || found.len() == 0 {
        Seq::empty()
    } else {
        let rest = selected(reg.drop_first(), found.drop_first());
        if found[0] {
            seq![(reg[0].id, reg[0].display)] + rest
        } else {
            rest
        }
    }
}

/// Every selected terminal is a registry entry's id and name.
pub proof fn lemma_selected_in_registry(reg: Seq<LauncherSpec>, found: Seq<bool>, i: int)
    requires
        0 <= i < selected(reg, found).len(),
    ensures
        exists|k: int| 0 <= k < reg.len() && selected(reg, found)[i] == (#[trigger] reg[k].id, reg[k].display),
    decreases reg.len(),
{
    if reg.len() == 0 || found.len() == 0 {
    } else {
        let rest = selected(reg.drop_first(), found.drop_first());
        if found[0] {
            if i == 0 {
                assert(selected(reg, found)[0] == (reg[0].id, reg[0].display));
            } else {
                assert(selected(reg, found)[i] == rest[i - 1]);
                lemma_selected_in_registry(reg.drop_first(), found.drop_first(), i - 1);
                let k = choose|k: int| 0 <= k < reg.drop_first().len() && rest[i - 1] == (#[trigger] reg.drop_first()[k].id, reg.drop_first()[k].display);
                assert(reg[k + 1] == reg.drop_first()[k]);
            }
        } else {
            lemma_selected_in_registry(reg.drop_first(), found.drop_first(), i);
            let k = choose|k: int| 0 <= k < reg.drop_first().len() && rest[i] == (#[trigger] reg.drop_first()[k].id, reg.drop_first()[k].display);
            assert(reg[k + 1] == reg.drop_first()[k]);
        }
    }
}

/// No id is listed twice.
pub open spec fn distinct_ids(s: Seq<(Seq<char>, Seq<char>)>) -> bool {
    forall|i: int, j: int| 0 <= i < j < s.len() ==> (#[trigger] s[i]).0 != (#[trigger] s[j]).0
}

/// No two registry entries share an id.
pub open spec fn registry_ids_distinct(reg: Seq<LauncherSpec>) -> bool {
    forall|i: int, j: int| 0 <= i < j < reg.len() ==> (#[trigger] reg[i]).id != (#[trigger] reg[j]).id
}

/// The registry offers each id once, on every platform.
pub proof fn lemma_registry_ids_distinct(p: Platform)
    ensures
        registry_ids_distinct(registry(p)),
{
    reveal_strlit("wt");
    reveal_strlit("powershell");
    reveal_strlit("cmd");
    reveal_strlit("macos-terminal");
    reveal_strlit("iterm2");
    reveal_strlit("ghostty");
    reveal_strlit("gnome-terminal");
    reveal_strlit("konsole");
    reveal_strlit("xterm");
    reveal_strlit("alacritty");
    reveal_strlit("kitty");
    reveal_strlit("wezterm");
    assert("ghostty"@[0] != "wezterm"@[0]);
    assert("ghostty"@[0] != "konsole"@[0]);
    assert("konsole"@[0] != "wezterm"@[0]);
    assert("xterm"@[0] != "kitty"@[0]);
    assert("macos-terminal"@[0] != "gnome-terminal"@[0]);
    let reg = registry(p);
    let ids: Seq<Seq<char>> = match p {
        Platform::Windows => seq!["wt"@, "powershell"@, "cmd"@],
        Platform::MacOs => seq!["macos-terminal"@, "iterm2"@, "ghostty"@, "alacritty"@, "kitty"@, "wezterm"@],
        Platform::Linux => seq![
            "gnome-terminal"@,
            "konsole"@,
            "xterm"@,
            "ghostty"@,
            "alacritty"@,
            "kitty"@,
            "wezterm"@,
        ],
    };
    assert(reg.len() == ids.len());
    assert forall|k: int| 0 <= k < reg.len() implies (#[trigger] reg[k]).id == ids[k] by {}
    assert forall|i: int, j: int| 0 <= i < j < reg.len() implies (#[trigger] reg[i]).id != (#[trigger] reg[j]).id by {
        assert(reg[i].id == ids[i] && reg[j].id == ids[j]);
        if ids[i] == ids[j] {
            assert(ids[i].len() == ids[j].len());
            assert(ids[i][0] == ids[j][0]);
            assert(false) by {
                if i == 0 {} else if i == 1 {} else if i == 2 {} else if i == 3 {} else if i == 4 {} else {}
            }
        }
    }
}

/// Selecting registry entries keeps their ids distinct.
pub proof fn lemma_selected_distinct(reg: Seq<LauncherSpec>, found: Seq<bool>)
    requires
        registry_ids_distinct(reg),
    ensures
        distinct_ids(selected(reg, found)),
    decreases reg.len(),
{
    if reg.len() > 0 && found.len() > 0 {
        let tail = reg.drop_first();
        assert(registry_ids_distinct(tail)) by {
            assert forall|i: int, j: int| 0 <= i < j < tail.len() implies (#[trigger] tail[i]).id != (
            #[trigger] tail[j]).id by {
                assert(tail[i] == reg[i + 1] && tail[j] == reg[j + 1]);
            }
        }
        lemma_selected_distinct(tail, found.drop_first());
        let rest = selected(tail, found.drop_first());
        if found[0] {
            let out = selected(reg, found);
            assert forall|i: int, j: int| 0 <= i < j < out.len() implies (#[trigger] out[i]).0 != (
            #[trigger] out[j]).0 by {
                if i == 0 {
                    assert(out[j] == rest[j - 1]);
                    lemma_selected_in_registry(tail, found.drop_first(), j - 1);
                    let k = choose|k: int| 0 <= k < tail.len() && rest[j - 1] == (#[trigger] tail[k].id, tail[k].display);
                    assert(tail[k] == reg[k + 1]);
                    assert(reg[0].id != reg[k + 1].id);
                } else {
                    assert(out[i] == rest[i - 1] && out[j] == rest[j - 1]);
                }
            }
        }
    }
}

pub open spec fn info_views(v: Seq<TerminalInfo>) -> Seq<(Seq<char>, Seq<char>)> {
    v.map_values(|t: TerminalInfo| (t.id@, t.display@))
}

/// The terminals of `launchers` whose detection answer in `found` is `true`, in order.
pub fn select_available(launchers: &Vec<Launcher>, found: &Vec<bool>) -> (r: Vec<TerminalInfo>)
    requires
        launchers.len() == found.len(),
    ensures
        info_views(r@) == selected(launcher_views(launchers@), found@),
{
    let mut out: Vec<TerminalInfo> = Vec::new();
    let mut i: usize = launchers.len();
    assert(info_views(out@) =~= Seq::<(Seq<char>, Seq<char>)>::empty());
    assert(launcher_views(launchers@).skip(launchers.len() as int) =~= Seq::<LauncherSpec>::empty());
    // Built back to front so each step prepends one entry.
    let mut rev: Vec<TerminalInfo> = Vec::new();
    while i > 0
        invariant
            i <= launchers.len() == found.len(),
            info_views(rev@).reverse() == selected(
                launcher_views(launchers@).skip(i as int),
                found@.skip(i as int),
            ),
        decreases i,
    {
        i -= 1;
        proof {
            let lv = launcher_views(launchers@);
            assert(lv.skip(i as int).drop_first() =~= lv.skip(i + 1));
            assert(found@.skip(i as int).drop_first() =~= found@.skip(i + 1));
            assert(lv.skip(i as int)[0] == launchers@[i as int]@);
            assert(found@.skip(i as int)[0] == found@[i as int]);
        }
        if found[i] {
            let l = launchers[i];
            let t = TerminalInfo { id: l.id.to_owned(), display: l.display.to_owned() };
            proof {
                let prev = info_views(rev@);
                assert(info_views(rev@.push(t)) =~= prev.push((l.id@, l.display@)));
                assert(prev.push((l.id@, l.display@)).reverse() =~= seq![(l.id@, l.display@)]
                    + prev.reverse());
            }
            rev.push(t);
        }
    }
    let mut j: usize = rev.len();
    while j > 0
        invariant
            j <= rev.len(),
            info_views(out@) == info_views(rev@).reverse().take(rev.len() - j),
        decreases j,
    {
        j -= 1;
        let t = TerminalInfo { id: rev[j].id.clone(), display: rev[j].display.clone() };
        proof {
            let rv = info_views(rev@).reverse();
            assert(rv[rev.len() - 1 - j] == info_views(rev@)[j as int]);
            assert(rv.take(rev.len() - j) =~= rv.take(rev.len() - 1 - j).push(
                info_views(rev@)[j as int],
            ));
            assert(info_views(out@.push(t)) =~= info_views(out@).push((t.id@, t.display@)));
        }
        out.push(t);
    }
    assert(info_views(rev@).reverse().take(rev.len() as int) =~= info_views(rev@).reverse());
    assert(launcher_views(launchers@).skip(0) =~= launcher_views(launchers@));
    assert(found@.skip(0) =~= found@);
    out
}

/// Terminals detected as installed on this machine, in registry order. `bundles` names the
/// macOS `.app` bundles present (see [`bundle_names`]). Which emulators are on `PATH` is not
/// known here: the result is the registry filtered by one detection answer per entry, and every
/// answer the bundles settle is the settled one.
pub fn available(p: Platform, bundles: &Vec<String>) -> (r: Vec<TerminalInfo>)
    ensures
        exists|found: Seq<bool>|
            found.len() == registry(p).len() && info_views(r@) == selected(registry(p), found)
                && #[trigger] agrees_with_bundles(registry(p), views_s(bundles@), found),
        distinct_ids(info_views(r@)),
{
    let launchers = all_launchers(p);
    let mut found: Vec<bool> = Vec::new();
    let mut i: usize = 0;
    while i < launchers.len()
        invariant
            i <= launchers.len(),
            found.len() == i,
            launcher_views(launchers@) == registry(p),
            agrees_with_bundles(registry(p), views_s(bundles@), found@),
        decreases launchers.len() - i,
    {
        assert(registry(p)[i as int] == launchers@[i as int]@);
        let d = detect(launchers[i].detect, bundles);
        found.push(d);
        i += 1;
    }
    let r = select_available(&launchers, &found);
    proof {
        lemma_registry_ids_distinct(p);
        lemma_selected_distinct(registry(p), found@);
    }
    assert(found@.len() == registry(p).len());
    assert(agrees_with_bundles(registry(p), views_s(bundles@), found@));
    r
}

// ---- quoting helpers ----------------------------------------------------------------------------

/// A token single-quoted for PowerShell (`'` doubled inside).
pub open spec fn ps_quoted(t: Seq<char>) -> Seq<char> {
    "'"@ + replace_all(t, "'"@, "''"@) + "'"@
}

/// ` 'tok'` for each token.
pub open spec fn ps_rest(ws: Seq<Seq<char>>) -> Seq<char>
    decreases ws.len(),
{
    if ws.len() == 0 {
        Seq::empty()
    } else {
        " "@ + ps_quoted(ws[0]) + ps_rest(ws.drop_first())
    }
}

/// `& 'tok1' 'tok2' …`: the call operator applied to every token single-quoted, so shell
/// metacharacters in user-supplied values are inert.
pub open spec fn ps_command(ws: Seq<Seq<char>>) -> Seq<char> {
    if ws.len() == 0 {
        "& "@
    } else {
        "& "@ + ps_quoted(ws[0]) + ps_rest(ws.drop_first())
    }
}

fn ps_quoted_v(t: &String) -> (r: Vec<char>)
    ensures
        r@ == ps_quoted(t@),
{
    let mut out = lit("'");
    append(&mut out, &replace_all_v(&to_chars(t.as_str()), &lit("'"), &lit("''")));
    append(&mut out, &lit("'"));
    out
}

/// Build a PowerShell command string that runs `argv` via the call operator with every token
/// single-quoted.
pub fn powershell_join(argv: &Vec<String>) -> (r: String)
    ensures
        r@ == ps_command(views_s(argv@)),
{
    let mut out = lit("& ");
    let ghost ws = views_s(argv@);
    if argv.len() == 0 {
        return from_chars(&out);
    }
    append(&mut out, &ps_quoted_v(&argv[0]));
    let mut i: usize = 1;
    assert(ws.drop_first() =~= ws.skip(1));
    while i < argv.len()
        invariant
            1 <= i <= argv.len(),
            ws == views_s(argv@),
            out@ + ps_rest(ws.skip(i as int)) == ps_command(ws),
        decreases argv.len() - i,
    {
        proof {
            assert(ws.skip(i as int).drop_first() =~= ws.skip(i + 1));
            assert(ws.skip(i as int)[0] == argv@[i as int]@);
        }
        let ghost before = out@;
        append(&mut out, &lit(" "));
        append(&mut out, &ps_quoted_v(&argv[i]));
        proof {
            assert(before + (" "@ + ps_quoted(argv@[i as int]@) + ps_rest(ws.skip(i + 1))) =~= out@
                + ps_rest(ws.skip(i + 1)));
        }
        i += 1;
    }
    assert(ws.skip(argv.len() as int) =~= Seq::<Seq<char>>::empty());
    assert(out@ + Seq::<char>::empty() =~= out@);
    from_chars(&out)
}

/// Backslashes and double quotes escaped for an AppleScript double-quoted literal.
pub open spec fn applescript_quoted(s: Seq<char>) -> Seq<char> {
    replace_all(replace_all(s, "\\"@, "\\\\"@), "\""@, "\\\""@)
}

/// Escape a string for embedding inside an AppleScript double-quoted literal.
pub fn applescript_quote(s: &str) -> (r: String)
    ensures
        r@ == applescript_quoted(s@),
{
    let a = replace_all_v(&to_chars(s), &lit("\\"), &lit("\\\\"));
    from_chars(&replace_all_v(&a, &lit("\""), &lit("\\\"")))
}

/// A character a POSIX shell would read specially inside a word.
pub open spec fn shell_special(c: char) -> bool {
    c == '\n' || c == '\'' || c == '|' || c == '&' || c == ';' || c == '<' || c == '>' || c == '('
        || c == ')' || c == '$' || c == '`' || c == '\\' || c == '"' || c == ' ' || c == '\t' || c == '*'
        || c == '?' || c == '[' || c == '#' || c == '~' || c == '=' || c == '%'
}

/// One word quoted for a POSIX shell (`shell_words::quote`): an empty word as `''`; a word with
/// no special character as it is; a word with a newline but no single quote in single quotes;
/// anything else in single quotes with each `'` written `'\''`.
pub open spec fn shell_quoted(w: Seq<char>) -> Seq<char> {
    if w.len() == 0 {
        "''"@
    } else if !(exists|i: int| 0 <= i < w.len() && shell_special(#[trigger] w[i])) {
        w
    } else if w.contains('\n') && !w.contains('\'') {
        "'"@ + w + "'"@
    } else {
        "'"@ + replace_all(w, "'"@, "'\\''"@) + "'"@
    }
}

/// What `shell_words::join` makes of a word list: each word quoted for a POSIX shell, the
/// quoted words separated by single spaces.
pub open spec fn shell_joined(words: Seq<Seq<char>>) -> Seq<char>
    decreases words.len(),
{
    if words.len() == 0 {
        Seq::empty()
    } else if words.len() == 1 {
        shell_quoted(words[0])
    } else {
        shell_quoted(words[0]) + " "@ + shell_joined(words.drop_first())
    }
}

/// Join an argv into a POSIX shell command string (`shell_words::join`): the words quoted as
/// [`shell_quoted`] says, separated by single spaces.
#[verifier::external_body]
pub fn posix_join(argv: &Vec<String>) -> (r: String)
    ensures
        r@ == shell_joined(views_s(argv@)),
{
    shell_words::join(argv)
}

// ---- commands -----------------------------------------------------------------------------------

/// A detached process to start: program, arguments, and whether it needs its own console window
/// (Windows `CREATE_NEW_CONSOLE`).
#[derive(Debug)]
pub struct CommandSpec {
    pub program: String,
    pub args: Vec<String>,
    pub new_console: bool,
}

pub open spec fn command_view(c: CommandSpec) -> (Seq<char>, Seq<Seq<char>>, bool) {
    (c.program@, views_s(c.args@), c.new_console)
}

pub open spec fn strs(v: Seq<&str>) -> Seq<Seq<char>> {
    v.map_values(|s: &str| s@)
}

/// The AppleScript that opens Terminal running a shell command line.
pub open spec fn terminal_script(inner: Seq<char>) -> Seq<char> {
    "tell application \"Terminal\"\nactivate\ndo script \""@ + inner + "\"\nend tell"@
}

/// The AppleScript that opens an iTerm window running a shell command line.
pub open spec fn iterm_script(inner: Seq<char>) -> Seq<char> {
    "tell application \"iTerm\"\nactivate\nset w to (create window with default profile)\ntell current session of w to write text \""@
        + inner + "\"\nend tell"@
}

/// The process a launcher starts to run `argv` (`pwsh` says whether PowerShell 7 is on `PATH`).
pub open spec fn command_for(b: Build, argv: Seq<Seq<char>>, pwsh: bool) -> (Seq<char>, Seq<Seq<char>>, bool) {
    match b {
        Build::WindowsTerminal => ("wt.exe"@, seq!["new-tab"@] + argv, false),
        Build::PowerShell => (
            if pwsh {
                "pwsh"@
            } else {
                "powershell.exe"@
            },
            seq!["-NoExit"@, "-Command"@, ps_command(argv)],
            true,
        ),
        Build::CommandPrompt => ("cmd.exe"@, seq!["/K"@] + argv, true),
        Build::MacTerminal => (
            "osascript"@,
            seq!["-e"@, terminal_script(applescript_quoted(shell_joined(argv)))],
            false,
        ),
        Build::ITerm => (
            "osascript"@,
            seq!["-e"@, iterm_script(applescript_quoted(shell_joined(argv)))],
            false,
        ),
        Build::MacGhostty => ("open"@, seq!["-na"@, "Ghostty"@, "--args"@, "-e"@] + argv, false),
        Build::Gnome => ("gnome-terminal"@, seq!["--"@] + argv, false),
        Build::Konsole => ("konsole"@, seq!["--hold"@, "-e"@] + argv, false),
        Build::Xterm => ("xterm"@, seq!["-hold"@, "-e"@] + argv, false),
        Build::Ghostty => ("ghostty"@, seq!["-e"@] + argv, false),
        Build::Alacritty => ("alacritty"@, seq!["-e"@] + argv, false),
        Build::Kitty => ("kitty"@, seq!["--hold"@] + argv, false),
        Build::WezTerm => ("wezterm"@, seq!["start"@, "--"@] + argv, false),
    }
}

fn args_then(prefix: Vec<&str>, argv: &Vec<String>) -> (r: Vec<String>)
    ensures
        views_s(r@) == strs(prefix@) + views_s(argv@),
{
    let mut out: Vec<String> = Vec::new();
    let mut i: usize = 0;
    while i < prefix.len()
        invariant
            i <= prefix.len(),
            views_s(out@) == strs(prefix@).take(i as int),
        decreases prefix.len() - i,
    {
        let s = prefix[i].to_owned();
        proof {
            assert(views_s(out@.push(s)) =~= views_s(out@).push(s@));
            assert(strs(prefix@).take(i + 1) =~= strs(prefix@).take(i as int).push(prefix@[i as int]@));
        }
        out.push(s);
        i += 1;
    }
    let mut j: usize = 0;
    while j < argv.len()
        invariant
            j <= argv.len(),
            views_s(out@) == strs(prefix@) + views_s(argv@).take(j as int),
        decreases argv.len() - j,
    {
        let s = argv[j].clone();
        proof {
            assert(views_s(out@.push(s)) =~= views_s(out@).push(s@));
            assert(strs(prefix@) + views_s(argv@).take(j + 1) =~= (strs(prefix@) + views_s(argv@).take(
                j as int,
            )).push(argv@[j as int]@));
        }
        out.push(s);
        j += 1;
    }
    assert(views_s(argv@).take(argv.len() as int) =~= views_s(argv@));
    out
}

fn spec_cmd(program: &str, args: Vec<String>, new_console: bool) -> (r: CommandSpec)
    ensures
        command_view(r) == (program@, views_s(args@), new_console),
{
    CommandSpec { program: program.to_owned(), args, new_console }
}

/// Terminal on macOS runs the argv in a new Terminal window: `osascript` is told to make the
/// application "Terminal" `do script` the shell-joined argv; iTerm is told to write it into a
/// new window's session. Neither launcher drives the other application.
pub proof fn lemma_mac_scripts(argv: Seq<Seq<char>>, pwsh: bool)
    ensures
        command_for(Build::MacTerminal, argv, pwsh) == (
            "osascript"@,
            seq![
                "-e"@,
                "tell application \"Terminal\"\nactivate\ndo script \""@ + applescript_quoted(
                    shell_joined(argv),
                ) + "\"\nend tell"@,
            ],
            false,
        ),
        command_for(Build::ITerm, argv, pwsh) == (
            "osascript"@,
            seq![
                "-e"@,
                "tell application \"iTerm\"\nactivate\nset w to (create window with default profile)\ntell current session of w to write text \""@
                    + applescript_quoted(shell_joined(argv)) + "\"\nend tell"@,
            ],
            false,
        ),
        command_for(Build::MacTerminal, argv, pwsh).1[1].take(26) == "tell application \"Terminal"@,
{
    reveal_strlit("tell application \"Terminal\"\nactivate\ndo script \"");
    reveal_strlit("tell application \"Terminal");
    let pre = "tell application \"Terminal\"\nactivate\ndo script \""@;
    let whole = command_for(Build::MacTerminal, argv, pwsh).1[1];
    assert(whole.take(26) =~= pre.take(26));
    assert(pre.take(26) =~= "tell application \"Terminal"@);
}

/// Build the detached command that opens a window running `argv`. `pwsh` says whether
/// PowerShell 7 (`pwsh`) is on `PATH`; it is only consulted for the PowerShell launcher.
pub fn build_command(b: Build, argv: &Vec<String>, pwsh: bool) -> (r: CommandSpec)
    ensures
        command_view(r) == command_for(b, views_s(argv@), pwsh),
{
    match b {
        Build::WindowsTerminal => spec_cmd("wt.exe", args_then(vec!["new-tab"], argv), false),
        Build::PowerShell => {
            let exe = if pwsh {
                "pwsh"
            } else {
                "powershell.exe"
            };
            let mut args: Vec<String> = Vec::new();
            args.push("-NoExit".to_owned());
            args.push("-Command".to_owned());
            args.push(powershell_join(argv));
            assert(views_s(args@) =~= seq!["-NoExit"@, "-Command"@, ps_command(views_s(argv@))]);
            spec_cmd(exe, args, true)
        },
        Build::CommandPrompt => spec_cmd("cmd.exe", args_then(vec!["/K"], argv), true),
        Build::MacTerminal | Build::ITerm => {
            let inner = to_chars(applescript_quote(posix_join(argv).as_str()).as_str());
            let script = if b == Build::MacTerminal {
                let mut s = lit("tell application \"Terminal\"\nactivate\ndo script \"");
                append(&mut s, &inner);
                append(&mut s, &lit("\"\nend tell"));
                s
            } else {
                let mut s = lit(
                    "tell application \"iTerm\"\nactivate\nset w to (create window with default profile)\ntell current session of w to write text \"",
                );
                append(&mut s, &inner);
                append(&mut s, &lit("\"\nend tell"));
                s
            };
            let mut args: Vec<String> = Vec::new();
            args.push("-e".to_owned());
            args.push(from_chars(&script));
            assert(views_s(args@) =~= seq!["-e"@, script@]);
            spec_cmd("osascript", args, false)
        },
        Build::MacGhostty => spec_cmd("open", args_then(vec!["-na", "Ghostty", "--args", "-e"], argv), false),
        Build::Gnome => spec_cmd("gnome-terminal", args_then(vec!["--"], argv), false),
        Build::Konsole => spec_cmd("konsole", args_then(vec!["--hold", "-e"], argv), false),
        Build::Xterm => spec_cmd("xterm", args_then(vec!["-hold", "-e"], argv), false),
        Build::Ghostty => spec_cmd("ghostty", args_then(vec!["-e"], argv), false),
        Build::Alacritty => spec_cmd("alacritty", args_then(vec!["-e"], argv), false),
        Build::Kitty => spec_cmd("kitty", args_then(vec!["--hold"], argv), false),
        Build::WezTerm => spec_cmd("wezterm", args_then(vec!["start", "--"], argv), false),
    }
}

// ---- one builder per emulator -------------------------------------------------------------------

/// Windows Terminal: a new tab running the argv.
pub fn wt(argv: &Vec<String>) -> (r: CommandSpec)
    ensures
        command_view(r) == command_for(Build::WindowsTerminal, views_s(argv@), false),
{
    build_command(Build::WindowsTerminal, argv, false)
}

/// Command Prompt in its own console, kept open after the argv exits.
pub fn cmd(argv: &Vec<String>) -> (r: CommandSpec)
    ensures
        command_view(r) == command_for(Build::CommandPrompt, views_s(argv@), false),
{
    build_command(Build::CommandPrompt, argv, false)
}

/// macOS Terminal, driven by AppleScript with the argv shell-quoted.
pub fn terminal(argv: &Vec<String>) -> (r: CommandSpec)
    ensures
        command_view(r) == command_for(Build::MacTerminal, views_s(argv@), false),
{
    build_command(Build::MacTerminal, argv, false)
}

/// iTerm, driven by AppleScript with the argv shell-quoted.
pub fn iterm(argv: &Vec<String>) -> (r: CommandSpec)
    ensures
        command_view(r) == command_for(Build::ITerm, views_s(argv@), false),
{
    build_command(Build::ITerm, argv, false)
}

/// Ghostty on macOS, started through `open`.
pub fn mac_ghostty(argv: &Vec<String>) -> (r: CommandSpec)
    ensures
        command_view(r) == command_for(Build::MacGhostty, views_s(argv@), false),
{
    build_command(Build::MacGhostty, argv, false)
}

/// GNOME Terminal.
pub fn gnome(argv: &Vec<String>) -> (r: CommandSpec)
    ensures
        command_view(r) == command_for(Build::Gnome, views_s(argv@), false),
{
    build_command(Build::Gnome, argv, false)
}

/// Konsole, kept open after the argv exits.
pub fn konsole(argv: &Vec<String>) -> (r: CommandSpec)
    ensures
        command_view(r) == command_for(Build::Konsole, views_s(argv@), false),
{
    build_command(Build::Konsole, argv, false)
}

/// xterm, kept open after the argv exits.
pub fn xterm(argv: &Vec<String>) -> (r: CommandSpec)
    ensures
        command_view(r) == command_for(Build::Xterm, views_s(argv@), false),
{
    build_command(Build::Xterm, argv, false)
}

/// Ghostty on Linux.
pub fn ghostty(argv: &Vec<String>) -> (r: CommandSpec)
    ensures
        command_view(r) == command_for(Build::Ghostty, views_s(argv@), false),
{
    build_command(Build::Ghostty, argv, false)
}

/// Alacritty.
pub fn alacritty(argv: &Vec<String>) -> (r: CommandSpec)
    ensures
        command_view(r) == command_for(Build::Alacritty, views_s(argv@), false),
{
    build_command(Build::Alacritty, argv, false)
}

/// kitty, kept open after the argv exits.
pub fn kitty(argv: &Vec<String>) -> (r: CommandSpec)
    ensures
        command_view(r) == command_for(Build::Kitty, views_s(argv@), false),
{
    build_command(Build::Kitty, argv, false)
}

/// WezTerm.
pub fn wezterm(argv: &Vec<String>) -> (r: CommandSpec)
    ensures
        command_view(r) == command_for(Build::WezTerm, views_s(argv@), false),
{
    build_command(Build::WezTerm, argv, false)
}

/// Windows PowerShell (or PowerShell 7 when `pwsh` is on `PATH`) in its own console, running the
/// argv as one quoted command line and staying open.
pub fn powershell(argv: &Vec<String>) -> (r: CommandSpec)
    ensures
        command_view(r) == command_for(Build::PowerShell, views_s(argv@), true) || command_view(r)
            == command_for(Build::PowerShell, views_s(argv@), false),
{
    let pwsh = on_path("pwsh");
    build_command(Build::PowerShell, argv, pwsh)
}

// ---- launching ----------------------------------------------------------------------------------

/// The first registry entry with this id.
pub open spec fn find_in(reg: Seq<LauncherSpec>, id: Seq<char>) -> Option<int>
    decreases reg.len(),
{
    if reg.len() == 0 {
        None
    } else if reg[0].id == id {
        Some(0)
    } else {
        match find_in(reg.drop_first(), id) {
            Some(k) => Some(k + 1),
            None => None,
        }
    }
}

/// Find the launcher with this id.
pub fn find_launcher(p: Platform, id: &str) -> (r: Option<Launcher>)
    ensures
        match find_in(registry(p), id@) {
            Some(k) => r is Some && r->0@ == registry(p)[k],
            None => r is None,
        },
{
    let v = all_launchers(p);
    let want = to_chars(id);
    let mut i: usize = 0;
    assert(registry(p).skip(0) =~= registry(p));
    while i < v.len()
        invariant
            i <= v.len(),
            launcher_views(v@) == registry(p),
            want@ == id@,
            find_in(registry(p), id@) == match find_in(registry(p).skip(i as int), id@) {
                Some(k) => Some(k + i),
                None => None,
            },
        decreases v.len() - i,
    {
        proof {
            assert(registry(p).skip(i as int).drop_first() =~= registry(p).skip(i + 1));
            assert(registry(p).skip(i as int)[0] == v@[i as int]@);
        }
        if crate::text::eq_v(&to_chars(v[i].id), &want) {
            return Some(v[i]);
        }
        i += 1;
    }
    assert(registry(p).skip(v.len() as int) =~= Seq::<LauncherSpec>::empty());
    None
}

/// `unknown terminal '<id>'`.
pub open spec fn unknown_terminal_msg(id: Seq<char>) -> Seq<char> {
    "unknown terminal '"@ + id + "'"@
}

/// `terminal '<id>' is not available`.
pub open spec fn unavailable_terminal_msg(id: Seq<char>) -> Seq<char> {
    "terminal '"@ + id + "' is not available"@
}

/// Plan launching `ssh_argv` in the terminal with the given id, given whether its emulator was
/// detected as installed and whether PowerShell 7 is on `PATH`: an unknown id or an emulator not
/// detected is an error; otherwise the command to spawn detached.
pub fn plan_launch(p: Platform, id: &str, ssh_argv: &Vec<String>, detected: bool, pwsh: bool) -> (r: Result<CommandSpec, String>)
    ensures
        match find_in(registry(p), id@) {
            None => r matches Err(e) && e@ == unknown_terminal_msg(id@),
            Some(k) => if detected {
                r matches Ok(c) && command_view(c) == command_for(registry(p)[k].build, views_s(ssh_argv@), pwsh)
            } else {
                r matches Err(e) && e@ == unavailable_terminal_msg(id@)
            },
        },
{
    let l = match find_launcher(p, id) {
        Some(l) => l,
        None => {
            let mut m = lit("unknown terminal '");
            append(&mut m, &to_chars(id));
            append(&mut m, &lit("'"));
            return Err(from_chars(&m));
        },
    };
    if !detected {
        let mut m = lit("terminal '");
        append(&mut m, &to_chars(id));
        append(&mut m, &lit("' is not available"));
        return Err(from_chars(&m));
    }
    Ok(build_command(l.build, ssh_argv, pwsh))
}

/// Plan launching `ssh_argv` in the terminal with the given id: an unknown id or an emulator
/// not detected as installed is an error; otherwise the command to spawn detached. Detection
/// runs only for a known id, and `PATH` is asked about `pwsh` only for PowerShell.
pub fn launch(p: Platform, id: &str, ssh_argv: &Vec<String>, bundles: &Vec<String>) -> (r: Result<CommandSpec, String>)
    ensures
        match find_in(registry(p), id@) {
            None => r matches Err(e) && e@ == unknown_terminal_msg(id@),
            Some(k) => {
                &&& bundle_decides(registry(p)[k].detect, views_s(bundles@)) == Some(true) ==> r is Ok
                &&& bundle_decides(registry(p)[k].detect, views_s(bundles@)) == Some(false) ==> (r matches Err(
                    e,
                ) && e@ == unavailable_terminal_msg(id@))
                &&& match r {
                    Ok(c) => if registry(p)[k].build == Build::PowerShell {
                        exists|pwsh: bool| command_view(c) == command_for(Build::PowerShell, views_s(ssh_argv@), pwsh)
                    } else {
                        command_view(c) == command_for(registry(p)[k].build, views_s(ssh_argv@), false)
                    },
                    Err(e) => e@ == unavailable_terminal_msg(id@),
                }
            },
        },
{
    let (detected, pwsh) = match find_launcher(p, id) {
        None => (false, false),
        Some(l) => {
            let d = detect(l.detect, bundles);
            let pw = if d && l.build == Build::PowerShell {
                on_path("pwsh")
            } else {
                false
            };
            (d, pw)
        },
    };
    plan_launch(p, id, ssh_argv, detected, pwsh)
}

} // verus!
