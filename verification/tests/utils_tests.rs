use snaglord::utils::{escape_debug, strip_ansi};

#[test]
fn escape_debug_spells_out_control_characters() {
    assert_eq!(escape_debug("a\x1b[0m\tb\r"), "a\\e[0m\\tb\\r");
}

#[test]
fn escape_debug_keeps_plain_text() {
    assert_eq!(escape_debug("plain text, ünïcode ✓"), "plain text, ünïcode ✓");
    assert_eq!(escape_debug(""), "");
}

#[test]
fn escape_debug_keeps_line_feeds() {
    assert_eq!(escape_debug("a\nb"), "a\nb");
}

#[test]
fn escape_debug_is_idempotent() {
    let once = escape_debug("x\ty\x1bz\r");
    let twice = escape_debug(&once);
    assert_eq!(once, twice);
}

#[test]
fn strip_ansi_removes_colour_codes() {
    assert_eq!(strip_ansi("\x1b[32mfoo\x1b[m bar"), "foo bar");
}

#[test]
fn strip_ansi_keeps_line_feeds_and_unicode() {
    assert_eq!(strip_ansi("\x1b[1mé\x1b[0m\nnext"), "é\nnext");
}

#[test]
fn strip_ansi_of_plain_text_is_the_text() {
    assert_eq!(strip_ansi("hello world"), "hello world");
}

#[test]
fn strip_ansi_leaves_no_escape_character() {
    let out = strip_ansi("\x1b[1;31mred\x1b[0m \x1b]0;title\x07 \x1b");
    assert!(!out.contains('\x1b'));
    assert_eq!(out, "red  ");
}

#[test]
fn strip_ansi_drops_other_control_characters() {
    assert_eq!(strip_ansi("a\tb\rc"), "abc");
}
