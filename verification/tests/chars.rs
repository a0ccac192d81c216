use linux_df_parser::chars::{char_is_whitespace, char_to_digit, collect_chars, CharClass};
use linux_df_parser::number::read_u64;
use linux_df_parser::scan::scan;
use linux_df_parser::tokens::next_token;

fn number(text: &str) -> Option<u64> {
    let chars = collect_chars(text);
    read_u64(&chars, 0, chars.len())
}

#[test]
fn whitespace_agrees_with_std_on_every_char() {
    for code in 0u32..=0x10FFFF {
        if let Some(c) = char::from_u32(code) {
            assert_eq!(char_is_whitespace(c), c.is_whitespace(), "U+{:04X}", code);
        }
    }
}

#[test]
fn whitespace_of_named_characters() {
    assert!(char_is_whitespace(' '));
    assert!(char_is_whitespace('\t'));
    assert!(char_is_whitespace('\n'));
    assert!(char_is_whitespace('\r'));
    assert!(char_is_whitespace('\u{a0}'));
    assert!(char_is_whitespace('\u{3000}'));
    assert!(!char_is_whitespace('a'));
    assert!(!char_is_whitespace('0'));
    assert!(!char_is_whitespace('\u{200b}'));
    assert!(!char_is_whitespace('\u{180e}'));
}

#[test]
fn classes_split_the_characters() {
    assert!(CharClass::Space.has(' '));
    assert!(!CharClass::Word.has(' '));
    assert!(CharClass::Word.has('x'));
    assert!(!CharClass::Space.has('x'));
    assert!(CharClass::Line.has(' '));
    assert!(CharClass::Line.has('\r'));
    assert!(!CharClass::Line.has('\n'));
}

#[test]
fn digits_have_their_values() {
    assert_eq!(char_to_digit('0'), Some(0));
    assert_eq!(char_to_digit('7'), Some(7));
    assert_eq!(char_to_digit('9'), Some(9));
    assert_eq!(char_to_digit('/'), None);
    assert_eq!(char_to_digit(':'), None);
    assert_eq!(char_to_digit('a'), None);
    assert_eq!(char_to_digit('\u{663}'), None);
}

#[test]
fn collect_chars_keeps_every_character() {
    assert_eq!(collect_chars(""), Vec::<char>::new());
    assert_eq!(collect_chars("a b"), vec!['a', ' ', 'b']);
    assert_eq!(collect_chars("\u{e9}\u{3000}z"), vec!['\u{e9}', '\u{3000}', 'z']);
}

#[test]
fn scan_stops_at_the_first_character_outside_the_class() {
    let chars = collect_chars("  ab \n c");
    assert_eq!(scan(&chars, 0, chars.len(), CharClass::Space), 2);
    assert_eq!(scan(&chars, 2, chars.len(), CharClass::Word), 4);
    assert_eq!(scan(&chars, 0, chars.len(), CharClass::Line), 5);
    assert_eq!(scan(&chars, 6, chars.len(), CharClass::Line), 8);
    assert_eq!(scan(&chars, 0, 1, CharClass::Space), 1);
    assert_eq!(scan(&chars, 3, 3, CharClass::Word), 3);
    assert_eq!(scan(&chars, 2, chars.len(), CharClass::Space), 2);
}

#[test]
fn next_token_gives_the_bounds_of_the_first_word() {
    let chars = collect_chars("  ab  cde ");
    assert_eq!(next_token(&chars, 0, chars.len()), Some((2, 4)));
    assert_eq!(next_token(&chars, 4, chars.len()), Some((6, 9)));
    assert_eq!(next_token(&chars, 9, chars.len()), None);
    assert_eq!(next_token(&chars, 3, chars.len()), Some((3, 4)));
    assert_eq!(next_token(&chars, 0, 2), None);
    assert_eq!(next_token(&chars, 0, 3), Some((2, 3)));
}

#[test]
fn numbers_are_read_in_base_ten() {
    assert_eq!(number("0"), Some(0));
    assert_eq!(number("7"), Some(7));
    assert_eq!(number("12294803456"), Some(12294803456));
    assert_eq!(number("007"), Some(7));
    assert_eq!(number("+5"), Some(5));
    assert_eq!(number("+0012"), Some(12));
}

#[test]
fn numbers_up_to_the_largest_are_read() {
    assert_eq!(number("18446744073709551615"), Some(u64::MAX));
    assert_eq!(number("18446744073709551614"), Some(u64::MAX - 1));
    assert_eq!(number("00018446744073709551615"), Some(u64::MAX));
}

#[test]
fn numbers_that_do_not_fit_are_not_read() {
    assert_eq!(number("18446744073709551616"), None);
    assert_eq!(number("18446744073709551620"), None);
    assert_eq!(number("99999999999999999999"), None);
    assert_eq!(number("184467440737095516150"), None);
}

#[test]
fn what_is_no_number_is_not_read() {
    assert_eq!(number(""), None);
    assert_eq!(number("+"), None);
    assert_eq!(number("-"), None);
    assert_eq!(number("-5"), None);
    assert_eq!(number("-0"), None);
    assert_eq!(number("++5"), None);
    assert_eq!(number("5+"), None);
    assert_eq!(number("12a"), None);
    assert_eq!(number("a12"), None);
    assert_eq!(number("1_000"), None);
    assert_eq!(number("1.5"), None);
    assert_eq!(number("0x10"), None);
    assert_eq!(number(" 12"), None);
    assert_eq!(number("12 "), None);
    assert_eq!(number("26%"), None);
    assert_eq!(number("1B-blocks"), None);
    assert_eq!(number("\u{661}\u{662}"), None);
}

#[test]
fn numbers_agree_with_std() {
    let samples = [
        "", "0", "1", "9", "10", "+", "+1", "-1", "+-1", "00", "0000000000000000000000001",
        "18446744073709551615", "18446744073709551616", "+18446744073709551615",
        "+18446744073709551616", "28446744073709551615", "1e3", "12,5", "\u{663}", "1 2", "1\t",
        "4294967296", "9223372036854775808", "/dev", "Used",
    ];
    for sample in samples {
        assert_eq!(number(sample), sample.parse::<u64>().ok(), "{:?}", sample);
    }
}

#[test]
fn a_number_is_read_from_the_middle_of_a_line() {
    let chars = collect_chars("udev 123 45");
    assert_eq!(read_u64(&chars, 5, 8), Some(123));
    assert_eq!(read_u64(&chars, 9, 11), Some(45));
    assert_eq!(read_u64(&chars, 5, 5), None);
    assert_eq!(read_u64(&chars, 4, 8), None);
    assert_eq!(read_u64(&chars, 0, 4), None);
}
