use proxy_tunnel::text::{
    contains, decimal_text, first_line, head, parse_u16, starts_with, tail, trim_end, trim_start,
};

#[test]
fn lines_end_at_a_line_feed() {
    assert_eq!(first_line(""), "");
    assert_eq!(first_line("\nx"), "");
    assert_eq!(first_line("a\r\nb"), "a");
    assert_eq!(first_line("a\r\r\nb"), "a\r");
    assert_eq!(first_line("a\r"), "a\r");
    assert_eq!(first_line("\r\n"), "");
}

#[test]
fn parts_around_a_mark() {
    assert_eq!(head("a b c", ' '), "a");
    assert_eq!(tail("a b c", ' '), "b c");
    assert_eq!(head("abc", ' '), "abc");
    assert_eq!(tail("abc", ' '), "");
    assert_eq!(tail("abc ", ' '), "");
    assert_eq!(head("\u{e9}\u{1F600} x", ' '), "\u{e9}\u{1F600}");
    assert!(contains("a:b", ':'));
    assert!(!contains("ab", ':'));
}

#[test]
fn prefixes_and_trimming() {
    assert!(starts_with("HTTP/1.1", "HTTP/1."));
    assert!(starts_with("x", ""));
    assert!(!starts_with("HTTP", "HTTP/1."));
    assert!(!starts_with("HTTP/2.0", "HTTP/1."));
    assert_eq!(trim_start("[[a[", '['), "a[");
    assert_eq!(trim_end("]a]]", ']'), "]a");
}

#[test]
fn numbers_round_trip() {
    for n in [0, 9, 10, 99, 200, 5432, 65535] {
        assert_eq!(decimal_text(n), n.to_string());
        assert_eq!(parse_u16(&decimal_text(n)), Some(n));
    }
}

#[test]
fn numbers_are_read_as_the_standard_library_reads_them() {
    for text in [
        "", "+", "-1", "+7", "++7", "007", "65535", "65536", "99999999999999999999", "1a", " 1",
        "1 ", "\u{0661}", "0",
    ] {
        assert_eq!(parse_u16(text), text.parse::<u16>().ok(), "{text:?}");
    }
}
