use rustlog_bot::number::{parse_number, to_decimal};
use rustlog_bot::text::{
    chars_of, is_white_space, join, same, same_ignoring_case, split_words, strip_prefix, to_lower,
    to_lower_char, trim, trim_end, CharClass,
};

const SAMPLES: [&str; 9] = [
    "",
    " ",
    "word",
    "  two words\t",
    "\u{a0}\u{3000}wide\u{2003}space\u{1680}",
    "a\0b\0",
    "\u{200b}zero width\u{feff}",
    "GR\u{dc}\u{df}E Na\u{ef}ve",
    "\r\n one\u{85}two\u{b}three \n",
];

#[test]
fn white_space_and_case_agree_with_std() {
    for c in (0..=0x10ffff_u32).filter_map(char::from_u32) {
        assert_eq!(is_white_space(c), c.is_whitespace());
        assert_eq!(to_lower_char(c), c.to_ascii_lowercase());
    }
}

#[test]
fn texts_are_handled_as_by_std() {
    for s in SAMPLES {
        assert_eq!(trim(s, CharClass::Space), s.trim());
        assert_eq!(trim(s, CharClass::One('\0')), s.trim_matches('\0'));
        assert_eq!(trim_end(s, CharClass::One(' ')), s.trim_end_matches(' '));
        assert_eq!(split_words(s), s.split_whitespace().collect::<Vec<_>>());
        assert_eq!(to_lower(s), s.to_ascii_lowercase());
        assert_eq!(chars_of(s), s.chars().collect::<Vec<_>>());
        for t in SAMPLES {
            assert_eq!(same(s, t), s == t);
            assert_eq!(same_ignoring_case(s, t), s.eq_ignore_ascii_case(t));
            assert_eq!(join(s, t), format!("{s}{t}"));
            assert_eq!(strip_prefix(s, t).as_deref(), s.strip_prefix(t));
        }
    }
}

#[test]
fn words_are_split_at_white_space() {
    assert_eq!(split_words(" join  One\tTWO "), ["join", "One", "TWO"]);
    assert!(split_words(" \n").is_empty());
}

#[test]
fn prefixes_are_stripped_once() {
    assert_eq!(strip_prefix("aab", "a"), Some("ab".to_string()));
    assert_eq!(strip_prefix("aab", "ab"), None);
    assert_eq!(strip_prefix("\u{e9}x", "\u{e9}"), Some("x".to_string()));
    assert_eq!(strip_prefix("a", "aa"), None);
}

#[test]
fn lowering_twice_changes_nothing_more() {
    assert_eq!(to_lower("ChannelOne"), "channelone");
    assert_eq!(to_lower(&to_lower("ChannelOne")), "channelone");
    assert!(same_ignoring_case("JustInFan1", "justinfan1"));
    assert!(!same_ignoring_case("\u{c9}", "\u{e9}"));
}

#[test]
fn numbers_read_back() {
    for n in [0, 1, 9, 10, 25, 99, 100, 800, 4294967296, usize::MAX] {
        assert_eq!(to_decimal(n), n.to_string());
        assert_eq!(parse_number(&to_decimal(n)), Some(n));
    }
}

#[test]
fn numbers_are_read_as_by_std() {
    for s in [
        "", "+", "-", "-0", "+0", "++1", "0", "00", "12", "1 2", " 1", "1_000", "0x10", "1.0",
        "99999999999999999999", "18446744073709551615", "18446744073709551616", "\u{ff11}",
    ] {
        assert_eq!(parse_number(s), s.parse::<usize>().ok());
    }
}
