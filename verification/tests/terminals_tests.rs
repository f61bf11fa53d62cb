use homelab_utils::terminals::{
    applescript_quote, available, detect, kitty, launch, plan_launch, posix_join, powershell,
    powershell_join, wt, Detect, Platform,
};

fn argv(words: &[&str]) -> Vec<String> {
    words.iter().map(|w| w.to_string()).collect()
}

#[test]
fn available_never_panics() {
    let _ = available(Platform::Linux, &Vec::new());
    let _ = available(Platform::Windows, &Vec::new());
    let _ = available(Platform::MacOs, &Vec::new());
}

#[test]
fn unknown_terminal_is_an_error() {
    assert!(launch(Platform::Linux, "does-not-exist", &argv(&["ssh", "u@h"]), &Vec::new()).is_err());
    assert_eq!(
        launch(Platform::Linux, "does-not-exist", &argv(&["ssh", "u@h"]), &Vec::new()).unwrap_err(),
        "unknown terminal 'does-not-exist'"
    );
}

#[test]
fn wt_builds_new_tab_argv() {
    let cmd = wt(&argv(&["ssh", "u@h"]));
    assert_eq!(cmd.program, "wt.exe");
    assert_eq!(cmd.args, vec!["new-tab", "ssh", "u@h"]);
}

#[test]
fn powershell_join_neutralizes_injection() {
    let s = powershell_join(&argv(&["ssh", "-i", "C:\\k ey", "u@h; rm -rf /"]));
    assert!(s.starts_with("& 'ssh'"));
    assert!(s.contains("'C:\\k ey'"));
    assert!(s.contains("'u@h; rm -rf /'"));
}

#[test]
fn applescript_quote_escapes_quotes_and_backslashes() {
    assert_eq!(applescript_quote(r#"a"b\c"#), r#"a\"b\\c"#);
}

#[test]
fn posix_join_quotes_dangerous_tokens() {
    let s = posix_join(&argv(&["ssh", "u@h; rm -rf /"]));
    assert!(s.contains("'u@h; rm -rf /'"));
}

#[test]
fn powershell_runs_one_quoted_command_in_its_own_console() {
    let cmd = powershell(&argv(&["ssh", "it's@h"]));
    assert!(cmd.program == "pwsh" || cmd.program == "powershell.exe");
    assert_eq!(cmd.args[0], "-NoExit");
    assert_eq!(cmd.args[1], "-Command");
    assert_eq!(cmd.args[2], "& 'ssh' 'it''s@h'");
    assert!(cmd.new_console);
}

#[test]
fn kitty_holds_the_window_open() {
    let cmd = kitty(&argv(&["ssh", "u@h"]));
    assert_eq!(cmd.program, "kitty");
    assert_eq!(cmd.args, vec!["--hold", "ssh", "u@h"]);
    assert!(!cmd.new_console);
}

#[test]
fn macos_always_offers_terminal_first() {
    let found = available(Platform::MacOs, &Vec::new());
    assert_eq!(found[0].id, "macos-terminal");
    assert_eq!(found[0].display, "Terminal");
    assert!(found.iter().all(|t| t.id != "iterm2"));
    let found = available(Platform::MacOs, &argv(&["iTerm"]));
    assert_eq!(found[0].id, "macos-terminal");
    assert_eq!(found[1].id, "iterm2");
    assert_eq!(found[1].display, "iTerm2");
    let found = available(Platform::MacOs, &argv(&["Ghostty"]));
    assert_eq!(found[1].id, "ghostty");
}

#[test]
fn bundle_rules_follow_the_bundles() {
    assert!(detect(Detect::Always, &Vec::new()));
    assert!(detect(Detect::Bundle("iTerm"), &argv(&["Ghostty", "iTerm"])));
    assert!(!detect(Detect::Bundle("iTerm"), &argv(&["Ghostty"])));
    assert!(detect(Detect::BundleOrPath("Ghostty", "no-such-exe-here"), &argv(&["Ghostty"])));
}

#[test]
fn launch_follows_detection_on_macos() {
    let ssh = argv(&["ssh", "u@h"]);
    let cmd = launch(Platform::MacOs, "macos-terminal", &ssh, &Vec::new()).unwrap();
    assert_eq!(cmd.program, "osascript");
    assert_eq!(
        launch(Platform::MacOs, "iterm2", &ssh, &Vec::new()).unwrap_err(),
        "terminal 'iterm2' is not available"
    );
    let cmd = launch(Platform::MacOs, "iterm2", &ssh, &argv(&["iTerm"])).unwrap();
    assert_eq!(cmd.program, "osascript");
    assert!(cmd.args[1].contains("tell application \"iTerm\""));
    let cmd = launch(Platform::MacOs, "ghostty", &ssh, &argv(&["Ghostty"])).unwrap();
    assert_eq!(cmd.program, "open");
    assert_eq!(cmd.args, vec!["-na", "Ghostty", "--args", "-e", "ssh", "u@h"]);
}

#[test]
fn plan_launch_takes_the_detection_answer() {
    let ssh = argv(&["ssh", "u@h"]);
    assert_eq!(
        plan_launch(Platform::Linux, "nope", &ssh, true, false).unwrap_err(),
        "unknown terminal 'nope'"
    );
    assert_eq!(
        plan_launch(Platform::Linux, "kitty", &ssh, false, false).unwrap_err(),
        "terminal 'kitty' is not available"
    );
    let cmd = plan_launch(Platform::Linux, "kitty", &ssh, true, false).unwrap();
    assert_eq!(cmd.program, "kitty");
    assert_eq!(cmd.args, vec!["--hold", "ssh", "u@h"]);
    let cmd = plan_launch(Platform::Windows, "powershell", &ssh, true, true).unwrap();
    assert_eq!(cmd.program, "pwsh");
    let cmd = plan_launch(Platform::Windows, "powershell", &ssh, true, false).unwrap();
    assert_eq!(cmd.program, "powershell.exe");
    assert!(cmd.new_console);
}

#[test]
fn available_lists_each_id_once() {
    for p in [Platform::MacOs, Platform::Linux, Platform::Windows] {
        let found = available(p, &argv(&["iTerm", "Ghostty"]));
        for (i, a) in found.iter().enumerate() {
            for b in &found[i + 1..] {
                assert_ne!(a.id, b.id);
            }
        }
    }
}

#[test]
fn posix_join_quotes_as_stated() {
    assert_eq!(
        posix_join(&argv(&["ssh", "", "a b", "it's", "x\ny", "plain-word"])),
        "ssh '' 'a b' 'it'\\''s' 'x\ny' plain-word"
    );
    assert_eq!(posix_join(&argv(&[])), "");
}
