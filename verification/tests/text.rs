//! Taking text apart and putting it together.

use ledtransit::text;
use ledtransit::util;

#[test]
fn splits_at_every_place() {
    assert_eq!(text::split_text("a.b.c", '.'), vec!["a", "b", "c"]);
    assert_eq!(text::split_text("", '.'), vec![""]);
    assert_eq!(text::split_text(".x.", '.'), vec!["", "x", ""]);
    assert_eq!(text::split_text("häß?lich", '?'), vec!["häß", "lich"]);
}

#[test]
fn parts_make_up_the_text_again() {
    for s in ["", "a", "a.b", "..", "1.2.3", "x.", ".x"] {
        assert_eq!(text::split_text(s, '.').join("."), s);
    }
}

#[test]
fn reads_numbers_as_std_does() {
    for s in [
        "0",
        "7",
        "+7",
        "007",
        "4294967295",
        "4294967296",
        "",
        "+",
        "-1",
        "++1",
        "1 ",
        "1a",
        "99999999999999999999",
    ] {
        let expected = s.parse::<u32>().ok().map(u64::from);
        assert_eq!(text::parse_number(s, u32::MAX as u64), expected, "{:?}", s);
    }
    assert_eq!(text::parse_number("18446744073709551615", u64::MAX), Some(u64::MAX));
    assert_eq!(text::parse_number("18446744073709551616", u64::MAX), None);
}

#[test]
fn numbers_read_back() {
    for n in [0u64, 9, 10, 1370, 4096, u64::MAX] {
        let mut s = String::new();
        text::append_number(&mut s, n);
        assert_eq!(s, n.to_string());
        assert_eq!(text::parse_number(&s, u64::MAX), Some(n));
    }
}

#[test]
fn finds_words_between_white_space() {
    let s = "\t rustc  1.88.0\u{3000}(abc)\n";
    assert_eq!(text::nth_word(s, 0).as_deref(), Some("rustc"));
    assert_eq!(text::nth_word(s, 1).as_deref(), Some("1.88.0"));
    assert_eq!(text::nth_word(s, 2).as_deref(), Some("(abc)"));
    assert_eq!(text::nth_word(s, 3), None);
    assert_eq!(text::nth_word("", 0), None);
    assert_eq!(text::nth_word("   ", 0), None);
}

#[test]
fn white_space_is_that_of_std() {
    for code in 0u32..0x3100 {
        if let Some(c) = char::from_u32(code) {
            let s = format!("a{}b", c);
            let expected = s.split_whitespace().nth(1).map(|w| w.to_string());
            assert_eq!(text::nth_word(&s, 1), expected, "{:x}", code);
        }
    }
}

#[test]
fn finds_bytes_and_text() {
    assert!(text::contains_bytes(b"abc/home/me/x", b"/home/me"));
    assert!(!text::contains_bytes(b"abc/home/m", b"/home/me"));
    assert!(!text::contains_bytes(b"", b"x"));
    assert!(text::contains_bytes(b"x", b"x"));
    assert!(text::contains_text("stable-x86_64", "stable"));
    assert!(!text::contains_text("nightly", "stable"));
    assert!(text::contains_text("xüy", "ü"));
}

#[test]
fn replaces_as_std_does() {
    for (s, from, to) in [
        ("{{a}} and {{a}}", "{{a}}", "x"),
        ("aaa", "aa", "b"),
        ("aaaa", "aa", "aaa"),
        ("none", "{{a}}", "x"),
        ("", "a", "b"),
        ("ab", "abc", "x"),
        ("setup-wifi.html", ".html", "+de.html"),
    ] {
        assert_eq!(text::replace_text(s, from, to), s.replace(from, to));
    }
}

#[test]
fn text_without_the_pattern_stays() {
    assert_eq!(text::replace_text("plain text", "{{key}}", "value"), "plain text");
}

#[test]
fn bytes_as_hexadecimal_digits() {
    let mut lower = String::new();
    let mut upper = String::new();
    for byte in 0..=255u8 {
        util::append_hex_lower(&mut lower, byte);
        util::append_hex_upper(&mut upper, byte);
    }
    let all: Vec<u8> = (0..=255).collect();
    assert_eq!(lower, hex::encode(&all));
    assert_eq!(upper, hex::encode_upper(&all));
}
