use as_r11_ultra_battery_tray::startup::{
    commands_match, quote_command, release_single_instance, startup_command_from,
    startup_entry_is_stale,
};

#[test]
fn commands_match_case_insensitive() {
    assert!(commands_match(
        r#""C:\Apps\R11UltraBattery.exe""#,
        r#""c:\apps\r11ultrabattery.exe""#
    ));
}

#[test]
fn commands_match_trims_whitespace_only() {
    assert!(commands_match("  \"a.exe\"\t\n", "\"A.EXE\""));
    assert!(commands_match("\u{3000}x\u{a0}", "X"));
    assert!(!commands_match("\"a.exe\"", "\"b.exe\""));
    assert!(!commands_match("a.exe", "a.ex"));
    assert!(!commands_match("\u{e9}", "\u{c9}"));
    assert!(commands_match("", "   "));
}

#[test]
fn launch_command_is_quoted() {
    let cmd = quote_command(r"C:\Apps\R11UltraBattery.exe");
    assert!(cmd.starts_with('"'));
    assert!(cmd.ends_with('"'));
    assert_eq!(cmd, "\"C:\\Apps\\R11UltraBattery.exe\"");
}

#[test]
fn startup_values() {
    assert_eq!(startup_command_from(None), None);
    assert_eq!(startup_command_from(Some("   ".to_string())), None);
    assert_eq!(startup_command_from(Some(" \"x.exe\" \n".to_string())), Some("\"x.exe\"".to_string()));
}

#[test]
fn stale_entries() {
    assert!(!startup_entry_is_stale(None, Some("\"a\"")));
    assert!(!startup_entry_is_stale(Some("\"a\""), None));
    assert!(!startup_entry_is_stale(Some(" \"A\" "), Some("\"a\"")));
    assert!(startup_entry_is_stale(Some("\"old\""), Some("\"new\"")));
    release_single_instance();
}

#[test]
fn matching_is_symmetric_and_registered_command_is_current() {
    let pairs = [("\"A\"", " \"a\" "), ("x", "y"), ("", "\t")];
    for (a, b) in pairs {
        assert_eq!(commands_match(a, b), commands_match(b, a));
        assert!(commands_match(a, a));
    }
    let cmd = quote_command(r"C:\Program Files\R11\R11UltraBattery.exe");
    let registered = startup_command_from(Some(cmd.clone())).unwrap();
    assert_eq!(registered, cmd);
    assert!(!startup_entry_is_stale(Some(&registered), Some(&cmd)));
}
