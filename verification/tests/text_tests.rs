use syber::text::{
    char_is_whitespace, chars_of, decimal_text, find_chars, string_from_chars, trim_text, unsigned_text,
};
use syber::config::ServerConfig;

/// The port a settings field gives (1 when the text is not a `u16`).
fn port_from(text: &str) -> u16 {
    let mut c = ServerConfig::default();
    c.port = 1;
    c.apply_text_fields(text, "");
    c.port
}

/// The bitrate a settings field gives (2 when the text is not a `u32`).
fn bitrate_from(text: &str) -> u32 {
    let mut c = ServerConfig::default();
    c.bitrate_kbps = 2;
    c.apply_text_fields("", text);
    c.bitrate_kbps
}

#[test]
fn decimal_text_matches_display() {
    for v in [0, 7, 10, 99, 100, -1, -10, 32767, -32768, i32::MAX, i32::MIN] {
        assert_eq!(decimal_text(v), v.to_string());
    }
}

#[test]
fn trim_removes_unicode_whitespace() {
    assert_eq!(trim_text("  a b \n"), "a b");
    assert_eq!(trim_text("\u{3000}x\u{00A0}"), "x");
    assert_eq!(trim_text("   "), "");
    assert_eq!(trim_text(""), "");
}

#[test]
fn parse_numbers_like_std() {
    assert_eq!(port_from("8080"), 8080);
    assert_eq!(port_from("+7"), 7);
    assert_eq!(port_from("0065535"), 65535);
    assert_eq!(port_from("65536"), 1);
    assert_eq!(port_from("-0"), 1);
    assert_eq!(port_from("+"), 1);
    assert_eq!(port_from(""), 1);
    assert_eq!(port_from(" 1"), 1);
    assert_eq!(port_from("22"), 22);
    assert_eq!(bitrate_from("4294967295"), u32::MAX);
    assert_eq!(bitrate_from("4294967296"), 2);
    assert_eq!(bitrate_from("15000"), 15000);
}

#[test]
fn find_first_position() {
    let s = chars_of("abcabc");
    assert_eq!(find_chars(&s, &chars_of("bc")), Some(1));
    assert_eq!(find_chars(&s, &chars_of("cb")), None);
    assert_eq!(find_chars(&s, &chars_of("")), Some(0));
    assert_eq!(find_chars(&chars_of("ab"), &chars_of("abc")), None);
    assert_eq!(string_from_chars(&s), "abcabc");
}

#[test]
fn unsigned_text_matches_display() {
    for v in [0u32, 5, 10, 65535, 1_000_000, u32::MAX] {
        assert_eq!(unsigned_text(v), v.to_string());
    }
}

#[test]
fn whitespace_matches_std() {
    for u in 0u32..0x3100 {
        if let Some(c) = char::from_u32(u) {
            assert_eq!(char_is_whitespace(c), c.is_whitespace(), "U+{u:04X}");
        }
    }
    for c in ['\u{FEFF}', '\u{10FFFF}', '\u{E000}'] {
        assert_eq!(char_is_whitespace(c), c.is_whitespace());
    }
}
