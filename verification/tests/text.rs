use hyprresume::text::{
    after_last_of, bool_text_of, char_is_space, chars_of, contains, decimal_of, join_of,
    replace_char_in, signed_decimal_of, split_once, starts_with, str_eq, str_precedes,
    strip_all_of, strip_prefix, trim_char_of, trim_of, trim_start_of, words_of,
};

const SAMPLES: [&str; 12] = [
    "",
    " ",
    "a",
    " a ",
    "a b",
    "  a\t\nb  c ",
    "\u{a0}x\u{2003}y\u{3000}",
    "0x0x12",
    "\"\"q\"",
    "ok",
    "héllo wörld",
    "a/b//c",
];

#[test]
fn white_space_is_that_of_unicode() {
    for n in 0..=0x10ffff_u32 {
        if let Some(c) = char::from_u32(n) {
            assert_eq!(char_is_space(c), c.is_whitespace(), "{n:x}");
        }
    }
}

#[test]
fn text_functions_agree_with_the_standard_library() {
    for s in SAMPLES {
        assert_eq!(chars_of(s), s.chars().collect::<Vec<char>>());
        assert_eq!(trim_of(s), s.trim());
        assert_eq!(trim_start_of(s), s.trim_start());
        assert_eq!(words_of(s), s.split_whitespace().collect::<Vec<&str>>());
        assert_eq!(strip_all_of(s, "0x"), s.trim_start_matches("0x"));
        assert_eq!(trim_char_of(s, '"'), s.trim_matches('"'));
        assert_eq!(split_once(s, ' '), s.split_once(' '));
        assert_eq!(after_last_of(s, '/'), s.rsplit('/').next().unwrap());
        assert_eq!(replace_char_in(s, 'a', "xyz"), s.replace('a', "xyz"));
        for t in SAMPLES {
            assert_eq!(str_eq(s, t), s == t);
            assert_eq!(str_precedes(s, t), s < t);
            assert_eq!(starts_with(s, t), s.starts_with(t));
            assert_eq!(strip_prefix(s, t), s.strip_prefix(t));
            assert_eq!(contains(s, t), s.contains(t));
        }
    }
}

#[test]
fn decimals_are_those_of_the_standard_library() {
    for n in [0_u128, 1, 9, 10, 99, 100, 12345678901234567890, u128::MAX] {
        assert_eq!(decimal_of(n), n.to_string());
    }
    for n in [0_i64, 7, -7, 10, -10, i64::MAX, i64::MIN] {
        assert_eq!(signed_decimal_of(n), n.to_string());
    }
    assert_eq!(bool_text_of(true), "true");
    assert_eq!(bool_text_of(false), "false");
}

#[test]
fn words_that_are_joined_are_found_again() {
    let words = ["firefox", "1", "DP-1", "-12"].map(String::from).to_vec();
    let line = join_of(&words, " ");
    assert_eq!(line, "firefox 1 DP-1 -12");
    assert_eq!(words_of(&line), words);
    assert_eq!(join_of(&Vec::new(), " "), "");
}
