use rolling_lines::decimal::{format_decimal, parse_usize};
use rolling_lines::mode::{select_mode, Mode};
use rolling_lines::policy::ResetPolicy;
use rolling_lines::text::{
    blank_string, char_is_whitespace, chars_of, contains_text, line_is_blank, width,
};

#[test]
fn width_counts_characters_not_bytes() {
    assert_eq!(width(""), 0);
    assert_eq!(width("abc"), 3);
    assert_eq!(width("h\u{e9}llo"), 5);
    assert_eq!(width("\u{65e5}\u{672c}\u{8a9e}"), 3);
}

#[test]
fn blank_string_has_that_many_spaces() {
    assert_eq!(blank_string(0), "");
    assert_eq!(blank_string(1), " ");
    assert_eq!(blank_string(5), "     ");
}

#[test]
fn chars_of_lists_every_character() {
    assert_eq!(chars_of(""), Vec::<char>::new());
    assert_eq!(chars_of("a\u{e9}b"), vec!['a', '\u{e9}', 'b']);
}

#[test]
fn whitespace_is_what_std_calls_whitespace() {
    let mut code: u32 = 0;
    while code <= 0x10ffff {
        if let Some(c) = char::from_u32(code) {
            assert_eq!(char_is_whitespace(c), c.is_whitespace(), "code point {:x}", code);
        }
        code += 1;
    }
}

#[test]
fn blank_lines_are_empty_or_all_whitespace() {
    assert!(line_is_blank(""));
    assert!(line_is_blank(" "));
    assert!(line_is_blank(" \t \u{a0}\u{3000}"));
    assert!(!line_is_blank("a"));
    assert!(!line_is_blank("  a  "));
    assert!(!line_is_blank("   ."));
}

#[test]
fn format_decimal_writes_plain_digits() {
    assert_eq!(format_decimal(0), "0");
    assert_eq!(format_decimal(7), "7");
    assert_eq!(format_decimal(10), "10");
    assert_eq!(format_decimal(12), "12");
    assert_eq!(format_decimal(1905), "1905");
    assert_eq!(format_decimal(usize::MAX), usize::MAX.to_string());
}

#[test]
fn parse_usize_reads_digits_with_an_optional_plus() {
    assert_eq!(parse_usize("0"), Some(0));
    assert_eq!(parse_usize("7"), Some(7));
    assert_eq!(parse_usize("42"), Some(42));
    assert_eq!(parse_usize("+42"), Some(42));
    assert_eq!(parse_usize("007"), Some(7));
    assert_eq!(parse_usize(&usize::MAX.to_string()), Some(usize::MAX));
}

#[test]
fn parse_usize_rejects_everything_else() {
    assert_eq!(parse_usize(""), None);
    assert_eq!(parse_usize("+"), None);
    assert_eq!(parse_usize("-"), None);
    assert_eq!(parse_usize("-1"), None);
    assert_eq!(parse_usize("++1"), None);
    assert_eq!(parse_usize("1+"), None);
    assert_eq!(parse_usize(" 1"), None);
    assert_eq!(parse_usize("1 "), None);
    assert_eq!(parse_usize("1_000"), None);
    assert_eq!(parse_usize("12a"), None);
    assert_eq!(parse_usize("a12"), None);
    assert_eq!(parse_usize("\u{663}"), None);
}

#[test]
fn parse_usize_rejects_numbers_beyond_the_word() {
    let mut too_big = usize::MAX.to_string();
    too_big.push('0');
    assert_eq!(parse_usize(&too_big), None);
    let digits = usize::MAX.to_string();
    let (head, last) = digits.split_at(digits.len() - 1);
    let next = format!("{}{}", head, last.parse::<u8>().unwrap() + 1);
    assert_eq!(parse_usize(&next), None);
    assert_eq!(parse_usize("99999999999999999999999999999999999999999"), None);
}

#[test]
fn parse_usize_agrees_with_std() {
    let samples = [
        "", "0", "1", "+1", "-1", "+", "-", "00", "+00", "9", "10", "099", "1a", "a1", " 1", "1 ",
        "18446744073709551615", "18446744073709551616", "4294967295", "4294967296", "+-1", "1+1",
    ];
    for s in samples {
        assert_eq!(parse_usize(s), s.parse::<usize>().ok(), "text {:?}", s);
    }
}

#[test]
fn reading_back_what_was_written_gives_the_number() {
    for n in [0usize, 1, 9, 10, 11, 99, 100, 101, 65535, 1_000_000, usize::MAX] {
        assert_eq!(parse_usize(&format_decimal(n)), Some(n));
    }
}

#[test]
fn mode_is_passthrough_without_a_terminal() {
    assert_eq!(select_mode(false, 0), Mode::Passthrough);
    assert_eq!(select_mode(false, 1), Mode::Passthrough);
    assert_eq!(select_mode(false, 2), Mode::Passthrough);
    assert_eq!(select_mode(false, usize::MAX), Mode::Passthrough);
}

#[test]
fn mode_is_passthrough_for_a_window_of_no_lines() {
    assert_eq!(select_mode(true, 0), Mode::Passthrough);
}

#[test]
fn mode_follows_the_window_size_on_a_terminal() {
    assert_eq!(select_mode(true, 1), Mode::SingleLine);
    assert_eq!(select_mode(true, 2), Mode::MultiLine);
    assert_eq!(select_mode(true, 3), Mode::MultiLine);
    assert_eq!(select_mode(true, usize::MAX), Mode::MultiLine);
}

#[test]
fn marker_policy_fires_on_lines_that_contain_the_marker() {
    let policy = ResetPolicy::resolve(Some("MARK"), false);
    assert_eq!(policy, ResetPolicy::Marker(String::from("MARK")));
    assert!(policy.fires("MARK"));
    assert!(policy.fires("xxMARKyy"));
    assert!(policy.fires("at the end MARK"));
    assert!(!policy.fires("MAR"));
    assert!(!policy.fires("mark"));
    assert!(!policy.fires("M A R K"));
    assert!(!policy.fires(""));
}

#[test]
fn marker_policy_matches_whole_characters() {
    let policy = ResetPolicy::resolve(Some("\u{e9}t\u{e9}"), false);
    assert!(policy.fires("l'\u{e9}t\u{e9} 2024"));
    assert!(!policy.fires("l'ete 2024"));
}

#[test]
fn marker_takes_precedence_over_blank_lines() {
    let policy = ResetPolicy::resolve(Some("MARK"), true);
    assert_eq!(policy, ResetPolicy::Marker(String::from("MARK")));
    assert!(!policy.fires(""));
    assert!(!policy.fires("   "));
    assert!(policy.fires("MARK"));
}

#[test]
fn blank_line_policy_fires_on_blank_lines_only() {
    let policy = ResetPolicy::resolve(None, true);
    assert_eq!(policy, ResetPolicy::BlankLine);
    assert!(policy.fires(""));
    assert!(policy.fires("   "));
    assert!(policy.fires("\t"));
    assert!(!policy.fires("text"));
    assert!(!policy.fires("  text  "));
}

#[test]
fn no_policy_never_fires() {
    let policy = ResetPolicy::resolve(None, false);
    assert_eq!(policy, ResetPolicy::Never);
    assert!(!policy.fires(""));
    assert!(!policy.fires("   "));
    assert!(!policy.fires("MARK"));
}

#[test]
fn contains_text_finds_the_marker_anywhere() {
    assert!(contains_text("MARK", "MARK"));
    assert!(contains_text("MARK at the start", "MARK"));
    assert!(contains_text("in the MARK middle", "MARK"));
    assert!(contains_text("at the end MARK", "MARK"));
    assert!(contains_text("MAMARK", "MARK"));
    assert!(contains_text("aaab", "aab"));
    assert!(!contains_text("MAR", "MARK"));
    assert!(!contains_text("mark", "MARK"));
    assert!(!contains_text("MA RK", "MARK"));
    assert!(!contains_text("", "MARK"));
}

#[test]
fn contains_text_finds_the_empty_marker_everywhere() {
    assert!(contains_text("", ""));
    assert!(contains_text("abc", ""));
}

#[test]
fn contains_text_agrees_with_std() {
    let texts = [
        "", "a", "ab", "aab", "aaab", "abab", "ababab", "b", "ba", "\u{e9}", "a\u{e9}b",
        "\u{e9}\u{e9}", "x\u{65e5}\u{672c}y", "\u{672c}", " ", "a b",
    ];
    for line in texts {
        for marker in texts {
            assert_eq!(
                contains_text(line, marker),
                line.contains(marker),
                "line {:?}, marker {:?}",
                line,
                marker
            );
        }
    }
}
