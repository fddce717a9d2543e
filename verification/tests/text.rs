use boxes::text::{
    chars_of, decimal_text, digit_of, number_between, parse_decimal, split, string_of,
    strip_line_ends, unlines_text, value_of, NumberError,
};

fn chars(s: &str) -> Vec<char> {
    s.chars().collect()
}

#[test]
fn chars_and_strings_convert_both_ways() {
    assert_eq!(chars_of("a-b|"), vec!['a', '-', 'b', '|']);
    assert_eq!(chars_of(""), Vec::<char>::new());
    assert_eq!(string_of(&vec!['+', ' ', '+']), "+ +");
    assert_eq!(string_of(&chars_of("A¤B")), "A¤B");
}

#[test]
fn digits_convert_both_ways() {
    assert_eq!(digit_of(0), '0');
    assert_eq!(digit_of(7), '7');
    assert_eq!(digit_of(9), '9');
    assert_eq!(value_of('0'), 0);
    assert_eq!(value_of('9'), 9);
}

#[test]
fn parse_decimal_reads_digits() {
    assert_eq!(parse_decimal(&chars("0"), 10), Ok(0));
    assert_eq!(parse_decimal(&chars("12"), 100), Ok(12));
    assert_eq!(parse_decimal(&chars("999"), 999), Ok(999));
    assert_eq!(parse_decimal(&chars("18446744073709551615"), u64::MAX), Ok(u64::MAX));
}

#[test]
fn parse_decimal_takes_a_plus_sign_and_leading_zeros() {
    assert_eq!(parse_decimal(&chars("+5"), 10), Ok(5));
    assert_eq!(parse_decimal(&chars("0007"), 10), Ok(7));
    assert_eq!(parse_decimal(&chars("+00000000000000000000000042"), 42), Ok(42));
}

#[test]
fn parse_decimal_refuses_what_is_no_number() {
    for text in ["", "+", "-1", "1 ", " 1", "1.5", "x", "1x", "++1", "1+", "٣"] {
        assert_eq!(parse_decimal(&chars(text), 1000), Err(NumberError::Malformed));
    }
}

#[test]
fn parse_decimal_tells_too_large_from_malformed() {
    assert_eq!(parse_decimal(&chars("1000"), 999), Err(NumberError::TooLarge));
    assert_eq!(parse_decimal(&chars("18446744073709551616"), u64::MAX), Err(NumberError::TooLarge));
    assert_eq!(
        parse_decimal(&chars("99999999999999999999999999999999999999999"), u64::MAX),
        Err(NumberError::TooLarge)
    );
    assert_eq!(
        parse_decimal(&chars("99999999999999999999999999999999999999999x"), 5),
        Err(NumberError::Malformed)
    );
}

#[test]
fn number_between_keeps_to_its_bounds() {
    assert_eq!(number_between("2", 2, 999), Some(2));
    assert_eq!(number_between("999", 2, 999), Some(999));
    assert_eq!(number_between("1", 2, 999), None);
    assert_eq!(number_between("1000", 2, 999), None);
    assert_eq!(number_between("two", 2, 999), None);
}

#[test]
fn decimal_text_writes_without_leading_zeros() {
    assert_eq!(decimal_text(0), vec!['0']);
    assert_eq!(decimal_text(7), vec!['7']);
    assert_eq!(decimal_text(10), vec!['1', '0']);
    assert_eq!(decimal_text(100), vec!['1', '0', '0']);
    assert_eq!(string_of(&decimal_text(u64::MAX)), "18446744073709551615");
}

#[test]
fn decimal_text_is_read_back() {
    for n in [0u64, 1, 9, 10, 99, 100, 255, 65535, 123456789] {
        assert_eq!(parse_decimal(&decimal_text(n), u64::MAX), Ok(n));
    }
}

#[test]
fn split_cuts_at_every_separator() {
    assert_eq!(split(&chars("0 0 h"), ' '), vec![chars("0"), chars("0"), chars("h")]);
    assert_eq!(split(&chars("w file.txt"), ' '), vec![chars("w"), chars("file.txt")]);
    assert_eq!(split(&chars(""), ' '), vec![chars("")]);
    assert_eq!(split(&chars("abc"), ' '), vec![chars("abc")]);
    assert_eq!(split(&chars(" "), ' '), vec![chars(""), chars("")]);
    assert_eq!(split(&chars("a  b"), ' '), vec![chars("a"), chars(""), chars("b")]);
    assert_eq!(split(&chars(" a "), ' '), vec![chars(""), chars("a"), chars("")]);
    assert_eq!(split(&chars("1,2,3"), ','), vec![chars("1"), chars("2"), chars("3")]);
}

#[test]
fn split_parts_join_to_the_text() {
    for text in ["", " ", "a b", "  a  b  ", "no-space", "w  x"] {
        let parts: Vec<String> = split(&chars(text), ' ').iter().map(string_of).collect();
        assert_eq!(parts.join(" "), text);
        assert!(parts.iter().all(|part| !part.contains(' ')));
    }
}

#[test]
fn strip_line_ends_drops_every_line_end() {
    assert_eq!(strip_line_ends(&chars("0 0 h\n")), chars("0 0 h"));
    assert_eq!(strip_line_ends(&chars("0 0 h\r\n")), chars("0 0 h"));
    assert_eq!(strip_line_ends(&chars("0\r 0\n h")), chars("0 0 h"));
    assert_eq!(strip_line_ends(&chars("\n\r")), chars(""));
    assert_eq!(strip_line_ends(&chars("abc")), chars("abc"));
}

#[test]
fn unlines_ends_every_line() {
    assert_eq!(unlines_text(&vec![]), "");
    assert_eq!(unlines_text(&vec!["1".to_string()]), "1\n");
    assert_eq!(
        unlines_text(&vec!["1".to_string(), "".to_string(), "0,0".to_string()]),
        "1\n\n0,0\n"
    );
}
