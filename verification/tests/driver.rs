use optique::tui::driver::{
    read_command, screen_row, settle_timeout, DriverCommand, SETTLE_DEFAULT_MS,
};
use optique::tui::keys::{bare_key, parse_key_spec, KeyCode};

/// A key and its modifiers, control first.
fn spec(s: &str) -> (KeyCode, bool, bool) {
    let key = parse_key_spec(s).unwrap_or_else(|| panic!("{s:?} must parse"));
    (key.code, key.ctrl, key.alt)
}

#[test]
fn key_specs_cover_chars_names_and_modifiers() {
    // Single characters keep their case: 'B' and 'b' are different keys.
    assert_eq!(spec("j"), (KeyCode::Char('j'), false, false));
    assert_eq!(spec("B"), (KeyCode::Char('B'), false, false));
    assert_eq!(spec("?"), (KeyCode::Char('?'), false, false));
    assert_eq!(spec("/"), (KeyCode::Char('/'), false, false));
    assert_eq!(spec("é"), (KeyCode::Char('é'), false, false));

    assert_eq!(spec("ctrl-l"), (KeyCode::Char('l'), true, false));
    assert_eq!(spec("CTRL-c"), (KeyCode::Char('c'), true, false));
    assert_eq!(spec("alt-x"), (KeyCode::Char('x'), false, true));
    assert_eq!(spec("ctrl-alt-enter"), (KeyCode::Enter, true, true));

    assert_eq!(spec("enter"), (KeyCode::Enter, false, false));
    assert_eq!(spec("esc"), (KeyCode::Esc, false, false));
    assert_eq!(spec("tab"), (KeyCode::Tab, false, false));
    assert_eq!(spec("backtab"), (KeyCode::BackTab, false, false));
    assert_eq!(spec("space"), (KeyCode::Char(' '), false, false));
    assert_eq!(spec("pgdn"), (KeyCode::PageDown, false, false));
    assert_eq!(spec("question"), (KeyCode::Char('?'), false, false));
    assert_eq!(spec("F1"), (KeyCode::F(1), false, false));
    assert_eq!(spec("f12"), (KeyCode::F(12), false, false));
}

#[test]
fn unknown_key_specs_are_rejected() {
    for bad in ["", " ", "nosuchkey", "f0", "f13", "ctrl-", "alt-", "enterr", "0x41"] {
        assert!(parse_key_spec(bad).is_none(), "{bad:?} must not parse");
    }
}

#[test]
fn commands_are_read_from_lines() {
    assert_eq!(read_command("   "), None);
    assert_eq!(read_command("dump"), Some(DriverCommand::Dump));
    assert_eq!(read_command("state"), Some(DriverCommand::State));
    assert_eq!(read_command("quit"), Some(DriverCommand::Quit));
    assert_eq!(read_command("settle"), Some(DriverCommand::Settle(SETTLE_DEFAULT_MS)));
    assert_eq!(read_command("settle 250"), Some(DriverCommand::Settle(250)));
    match read_command("key enter") {
        Some(DriverCommand::Key { key, .. }) => assert_eq!(key, bare_key(KeyCode::Enter)),
        other => panic!("{other:?}"),
    }
    match read_command("keys a b") {
        Some(DriverCommand::Keys { text, .. }) => assert_eq!(text, "a b"),
        other => panic!("{other:?}"),
    }
    match read_command("resize 80x24") {
        Some(DriverCommand::Resize { cols, rows, .. }) => assert_eq!((cols, rows), (80, 24)),
        other => panic!("{other:?}"),
    }
}

#[test]
fn sizes_are_held_to_what_can_be_drawn() {
    assert_eq!(
        read_command("resize 5x9999"),
        Some(DriverCommand::Resize { cols: 20, rows: 500, reply: "ok resize 20x500".into() })
    );
}

#[test]
fn malformed_commands_are_refused() {
    for bad in ["key", "key nosuchkey", "resize 80", "resize axb", "keys", "settle soon", "jump"] {
        assert!(
            matches!(read_command(bad), Some(DriverCommand::Refused(_))),
            "{bad:?}: {:?}",
            read_command(bad)
        );
    }
}

#[test]
fn screen_rows_lose_trailing_blanks() {
    let cells: Vec<String> =
        ["a", " ", "b", " ", " ", " ", "c", " "].iter().map(|s| s.to_string()).collect();
    assert_eq!(screen_row(&cells, 4, 0), "a b");
    assert_eq!(screen_row(&cells, 4, 1), "  c");
}

#[test]
fn a_settle_timeout_says_what_is_outstanding() {
    assert_eq!(settle_timeout(2, 1), "err settle timeout (refreshing=2 pending=1)");
}
