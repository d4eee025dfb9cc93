use toodles::session::strip_ansi;

// ── strip_ansi ───────────────────────────────────────────────────────

#[test]
fn strip_ansi_removes_color_codes() {
    assert_eq!(strip_ansi("\x1b[31mhello\x1b[0m"), "hello");
    assert_eq!(strip_ansi("plain"), "plain");
}

#[test]
fn strip_ansi_empty_string() {
    assert_eq!(strip_ansi(""), "");
}

#[test]
fn strip_ansi_only_escape_sequence() {
    assert_eq!(strip_ansi("\x1b[0m"), "");
}

#[test]
fn strip_ansi_nested_sequences() {
    assert_eq!(
        strip_ansi("\x1b[1m\x1b[31mbold red\x1b[0m normal"),
        "bold red normal"
    );
}

#[test]
fn strip_ansi_preserves_unicode() {
    assert_eq!(strip_ansi("привет \x1b[32mмир\x1b[0m 🌍"), "привет мир 🌍");
}

#[test]
fn strip_ansi_256_color() {
    // 256-color: \x1b[38;5;196m
    assert_eq!(strip_ansi("\x1b[38;5;196mred\x1b[0m"), "red");
}

#[test]
fn strip_ansi_cursor_movement() {
    assert_eq!(strip_ansi("\x1b[2Ahello"), "hello");
}

#[test]
fn strip_ansi_unfinished_sequence() {
    assert_eq!(strip_ansi("ab\x1b[31;1"), "ab");
    assert_eq!(strip_ansi("\x1b"), "");
    assert!(!strip_ansi("\x1b\x1b[0mx\x1b").contains('\x1b'));
}
