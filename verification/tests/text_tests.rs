use vsd::text::{
    collapse_spaces, decimal_string, ends_with, parse_usize, remove_char, split_at_char,
    starts_with, strip_extension, trimmed,
};

#[test]
fn decimal_numerals() {
    assert_eq!(decimal_string(0), "0");
    assert_eq!(decimal_string(7), "7");
    assert_eq!(decimal_string(1234567890), "1234567890");
    assert_eq!(decimal_string(u64::MAX), "18446744073709551615");
}

#[test]
fn prefixes_and_suffixes() {
    assert!(starts_with("https://a", "http"));
    assert!(!starts_with("htt", "http"));
    assert!(starts_with("x", ""));
    assert!(ends_with("seg.mp4", ".mp4"));
    assert!(!ends_with("seg.mp4.ts", ".mp4"));
    assert!(!ends_with("mp4", ".mp4"));
}

#[test]
fn collapsing_white_space() {
    assert_eq!(collapse_spaces("  a \t b\n\nc  "), "a b c");
    assert_eq!(collapse_spaces(""), "");
    assert_eq!(collapse_spaces(" \u{3000} "), "");
    assert_eq!(collapse_spaces("one"), "one");
}

#[test]
fn trimming() {
    assert_eq!(trimmed("  1, 2 \n"), "1, 2");
    assert_eq!(trimmed("\u{a0}x\u{2028}"), "x");
    assert_eq!(trimmed("   "), "");
}

#[test]
fn parsing_numbers() {
    assert_eq!(parse_usize("5"), Some(5));
    assert_eq!(parse_usize("+5"), Some(5));
    assert_eq!(parse_usize("007"), Some(7));
    assert_eq!(parse_usize("-5"), None);
    assert_eq!(parse_usize("+"), None);
    assert_eq!(parse_usize(""), None);
    assert_eq!(parse_usize("1 2"), None);
    assert_eq!(parse_usize("x1"), None);
    assert_eq!(parse_usize("18446744073709551615"), Some(usize::MAX));
    assert_eq!(parse_usize("18446744073709551616"), None);
    assert_eq!(parse_usize("99999999999999999999x"), None);
}

#[test]
fn splitting() {
    assert_eq!(split_at_char("a,b,,c", ','), vec!["a", "b", "", "c"]);
    assert_eq!(split_at_char("", ','), vec![""]);
    assert_eq!(split_at_char(",", ','), vec!["", ""]);
}

#[test]
fn removing_characters() {
    assert_eq!(remove_char("AB-CD-12", '-'), "ABCD12");
    assert_eq!(remove_char("---", '-'), "");
    assert_eq!(remove_char("", '-'), "");
}

#[test]
fn stripping_extensions() {
    assert_eq!(strip_extension("video.m3u8"), "video");
    assert_eq!(strip_extension("a.b.c"), "a.b");
    assert_eq!(strip_extension(".hidden"), ".hidden");
    assert_eq!(strip_extension("noext"), "noext");
    assert_eq!(strip_extension("trailing."), "trailing");
    assert_eq!(strip_extension(".."), "..");
    assert_eq!(strip_extension("..a"), ".");
    assert_eq!(strip_extension(""), "");
}
