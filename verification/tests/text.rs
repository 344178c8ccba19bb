use aes67_to_ws::text::{
    append_unsigned, chars_of, contains, find_char, is_whitespace, parse_unsigned, same_text, split, starts_with,
    text_is, text_starts_with, text_unsigned, to_ascii_lower, trim_bounds,
};

fn chars(s: &str) -> Vec<char> {
    s.chars().collect()
}

fn trimmed(s: &str) -> String {
    let all = chars(s);
    let (a, b) = trim_bounds(&all);
    all[a..b].iter().collect()
}

#[test]
fn characters_in_order() {
    assert_eq!(chars_of("a=b"), vec!['a', '=', 'b']);
    assert_eq!(chars_of(""), Vec::<char>::new());
    assert_eq!(chars_of("\u{e9}t\u{e9}"), vec!['\u{e9}', 't', '\u{e9}']);
}

#[test]
fn white_space_is_what_the_standard_library_says() {
    let mut code: u32 = 0;
    while code <= 0x3100 {
        if let Some(c) = char::from_u32(code) {
            assert_eq!(is_whitespace(c), c.is_whitespace());
        }
        code += 1;
    }
    assert!(!is_whitespace('\u{feff}'));
    assert!(!is_whitespace('\u{10ffff}'));
}

#[test]
fn trimming_agrees_with_the_standard_library() {
    for text in ["", " ", "a", " a", "a ", "  a b  ", "\t\r\na=b\r\n", "\u{a0}x\u{3000}", " \u{85} ", "a\u{2003}"] {
        assert_eq!(trimmed(text), text.trim());
    }
}

#[test]
fn trim_bounds_of_blank_text() {
    assert_eq!(trim_bounds(&chars("   ")), (3, 3));
    assert_eq!(trim_bounds(&chars("")), (0, 0));
    assert_eq!(trim_bounds(&chars(" ab ")), (1, 3));
}

#[test]
fn first_position_of_a_character() {
    assert_eq!(find_char(&chars("a=b=c"), '='), 1);
    assert_eq!(find_char(&chars("=b"), '='), 0);
    assert_eq!(find_char(&chars("abc"), '='), 3);
    assert_eq!(find_char(&chars(""), '='), 0);
}

#[test]
fn splitting_agrees_with_the_standard_library() {
    for text in ["", "a", "a\nb", "a\nb\n", "\n", "\n\n", "\na\n\nb"] {
        let theirs: Vec<String> = text.split('\n').map(|piece| piece.to_owned()).collect();
        assert_eq!(split(text, '\n'), theirs);
    }
    assert_eq!(split("1.2.3.4", '.'), vec!["1", "2", "3", "4"]);
}

#[test]
fn prefixes() {
    assert!(starts_with(&chars("rtpmap:98"), &chars("rtpmap:")));
    assert!(starts_with(&chars("rtpmap:"), &chars("rtpmap:")));
    assert!(starts_with(&chars("x"), &chars("")));
    assert!(!starts_with(&chars("rtpma"), &chars("rtpmap:")));
    assert!(!starts_with(&chars("xrtpmap:"), &chars("rtpmap:")));
    assert!(text_starts_with("ptime:1", "ptime:"));
    assert!(!text_starts_with("maxptime:1", "ptime:"));
}

#[test]
fn occurrences() {
    assert!(contains(&chars("L16"), &chars("16")));
    assert!(contains(&chars("16"), &chars("16")));
    assert!(contains(&chars("abc"), &chars("")));
    assert!(contains(&chars(""), &chars("")));
    assert!(contains(&chars("1116"), &chars("16")));
    assert!(!contains(&chars("1 6"), &chars("16")));
    assert!(!contains(&chars("61"), &chars("16")));
    assert!(!contains(&chars("1"), &chars("16")));
    assert!(!contains(&chars(""), &chars("16")));
}

#[test]
fn small_letters() {
    assert_eq!(to_ascii_lower(&chars("FloAT 32 \u{c9}Z@[")), chars("float 32 \u{c9}z@["));
    assert_eq!(to_ascii_lower(&chars("")), chars(""));
}

#[test]
fn equal_texts() {
    assert!(same_text(&chars("audio"), &chars("audio")));
    assert!(same_text(&chars(""), &chars("")));
    assert!(!same_text(&chars("audio"), &chars("audi")));
    assert!(!same_text(&chars("audio"), &chars("audio ")));
    assert!(!same_text(&chars("audio"), &chars("video")));
    assert!(text_is("m", "m"));
    assert!(!text_is("m", "mm"));
    assert!(!text_is("", "m"));
}

#[test]
fn unsigned_numbers() {
    assert_eq!(parse_unsigned(&chars("0"), 65535), Some(0));
    assert_eq!(parse_unsigned(&chars("5004"), 65535), Some(5004));
    assert_eq!(parse_unsigned(&chars("65535"), 65535), Some(65535));
    assert_eq!(parse_unsigned(&chars("65536"), 65535), None);
    assert_eq!(parse_unsigned(&chars("000065535"), 65535), Some(65535));
    assert_eq!(parse_unsigned(&chars(""), 65535), None);
    assert_eq!(parse_unsigned(&chars("12a"), 65535), None);
    assert_eq!(parse_unsigned(&chars("+12"), 65535), None);
    assert_eq!(parse_unsigned(&chars("-12"), 65535), None);
    assert_eq!(parse_unsigned(&chars("1"), 0), None);
    assert_eq!(parse_unsigned(&chars("0"), 0), Some(0));
    assert_eq!(parse_unsigned(&chars("18446744073709551615"), u64::MAX), Some(u64::MAX));
    assert_eq!(parse_unsigned(&chars("18446744073709551616"), u64::MAX), None);
    assert_eq!(parse_unsigned(&chars("99999999999999999999999999"), u64::MAX), None);
    assert_eq!(parse_unsigned(&chars("99999999999999999999999999x"), u64::MAX), None);
    assert_eq!(text_unsigned("48000", 4294967295), Some(48000));
    assert_eq!(text_unsigned("4294967296", 4294967295), None);
}

#[test]
fn numbers_as_digits() {
    for (number, digits) in [
        (0u64, "0"),
        (7, "7"),
        (10, "10"),
        (5004, "5004"),
        (65535, "65535"),
        (4294967295, "4294967295"),
        (18446744073709551615, "18446744073709551615"),
    ] {
        let mut out = String::new();
        append_unsigned(&mut out, number);
        assert_eq!(out, digits);
        assert_eq!(text_unsigned(&out, u64::MAX), Some(number));
    }
    let mut out = "port ".to_owned();
    append_unsigned(&mut out, 5004);
    assert_eq!(out, "port 5004");
}
