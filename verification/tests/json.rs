use gw::json::string;

#[test]
fn quotes_and_escapes() {
    assert_eq!(string("plain"), "\"plain\"");
    assert_eq!(string("a\"b\\c"), "\"a\\\"b\\\\c\"");
    assert_eq!(string("line\nbreak\ttab"), "\"line\\nbreak\\ttab\"");
    assert_eq!(string("bell\u{07}"), "\"bell\\u0007\"");
    assert_eq!(string("esc\u{1b}[0m"), "\"esc\\u001b[0m\"");
    assert_eq!(string("del\u{7f}"), "\"del\\u007f\"");
}

#[test]
fn keeps_non_ascii() {
    assert_eq!(string("café"), "\"café\"");
}

#[test]
fn empty_string_is_two_quotes() {
    assert_eq!(string(""), "\"\"");
}

#[test]
fn every_short_escape() {
    assert_eq!(string("\r"), "\"\\r\"");
    assert_eq!(string("\u{08}"), "\"\\b\"");
    assert_eq!(string("\u{0c}"), "\"\\f\"");
    assert_eq!(string("\u{00}"), "\"\\u0000\"");
    assert_eq!(string("\u{1f}"), "\"\\u001f\"");
}

#[test]
fn c1_controls_and_other_unicode_pass_through() {
    // only C0 controls and DEL are escaped; U+0080 and beyond are kept
    assert_eq!(string("\u{80}\u{2028}😀"), "\"\u{80}\u{2028}😀\"");
}

#[test]
fn escaped_output_has_no_raw_controls() {
    let out = string("a\u{1b}b\nc\u{7f}d\u{0}e");
    assert!(out.chars().all(|c| (c as u32) >= 0x20 && c != '\u{7f}'));
    assert!(out.starts_with('"') && out.ends_with('"'));
}

#[test]
fn different_texts_give_different_literals() {
    // a newline and a backslash followed by `n` must not collide
    assert_ne!(string("\n"), string("\\n"));
    assert_eq!(string("\\n"), "\"\\\\n\"");
}
