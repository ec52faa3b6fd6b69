use financial_model::parse::{
    bytes_equal, find_line_end, get_amount, get_rate, get_whole, has_keyword, is_digit_byte,
    is_keyword, is_space_byte, parse_amount, parse_rate, parse_whole, split_fields, ParseError,
};

#[test]
fn whole_numbers_are_runs_of_digits() {
    assert_eq!(parse_whole(b"0"), Some(0));
    assert_eq!(parse_whole(b"52"), Some(52));
    assert_eq!(parse_whole(b"+52"), Some(52));
    assert_eq!(parse_whole(b"007"), Some(7));
    assert_eq!(parse_whole(usize::MAX.to_string().as_bytes()), Some(usize::MAX));
    assert_eq!(parse_whole(b"18446744073709551616"), None);
    assert_eq!(parse_whole(b"99999999999999999999999999999999999999"), None);
    assert_eq!(parse_whole(b""), None);
    assert_eq!(parse_whole(b"+"), None);
    assert_eq!(parse_whole(b"++1"), None);
    assert_eq!(parse_whole(b"-1"), None);
    assert_eq!(parse_whole(b"1.0"), None);
    assert_eq!(parse_whole(b"12a"), None);
    assert_eq!(parse_whole(b" 1"), None);
}

#[test]
fn amounts_are_read_to_six_places() {
    assert_eq!(parse_amount(b"20000.0"), Some(20_000_000_000));
    assert_eq!(parse_amount(b"5.5"), Some(5_500_000));
    assert_eq!(parse_amount(b"0"), Some(0));
    assert_eq!(parse_amount(b"7"), Some(7_000_000));
    assert_eq!(parse_amount(b"7."), Some(7_000_000));
    assert_eq!(parse_amount(b".5"), Some(500_000));
    assert_eq!(parse_amount(b"+.5"), Some(500_000));
    assert_eq!(parse_amount(b"0.000001"), Some(1));
    assert_eq!(parse_amount(b"0.123456"), Some(123_456));
    assert_eq!(parse_amount(b"0.1234567"), Some(123_456));
    assert_eq!(parse_amount(b"0.9999999999999"), Some(999_999));
    assert_eq!(parse_amount(b"0.00000"), Some(0));
    assert_eq!(parse_amount(b"001.10"), Some(1_100_000));
    assert_eq!(parse_amount(b"18446744073709.551615"), Some(u64::MAX));
    assert_eq!(parse_amount(b"18446744073709.551616"), None);
    assert_eq!(parse_amount(b"18446744073710"), None);
    assert_eq!(parse_amount(b"99999999999999999999999999"), None);
    assert_eq!(parse_amount(b""), None);
    assert_eq!(parse_amount(b"."), None);
    assert_eq!(parse_amount(b"+"), None);
    assert_eq!(parse_amount(b"+."), None);
    assert_eq!(parse_amount(b"-1"), None);
    assert_eq!(parse_amount(b"1.2.3"), None);
    assert_eq!(parse_amount(b"1e3"), None);
    assert_eq!(parse_amount(b"1,5"), None);
    assert_eq!(parse_amount(b"0.12345x"), None);
    assert_eq!(parse_amount(b"0.1234567x"), None);
    assert_eq!(parse_amount(b"inf"), None);
    assert_eq!(parse_amount(b"NaN"), None);
}

#[test]
fn rates_are_read_to_six_places() {
    assert_eq!(parse_rate(b"4"), Some(4_000_000));
    assert_eq!(parse_rate(b"6.5"), Some(6_500_000));
    assert_eq!(parse_rate(b"0.000001"), Some(1));
    assert_eq!(parse_rate(b"+0.5"), Some(500_000));
    assert_eq!(parse_rate(b"2147.483647"), Some(i32::MAX));
    assert_eq!(parse_rate(b"2147.483648"), None);
    assert_eq!(parse_rate(b"4294.967295"), None);
    assert_eq!(parse_rate(b"-3"), Some(-3_000_000));
    assert_eq!(parse_rate(b"-0.5"), Some(-500_000));
    assert_eq!(parse_rate(b"-.5"), Some(-500_000));
    assert_eq!(parse_rate(b"-0"), Some(0));
    assert_eq!(parse_rate(b"-0.0000001"), Some(0));
    assert_eq!(parse_rate(b"-100"), Some(-100_000_000));
    assert_eq!(parse_rate(b"-2147.483648"), Some(i32::MIN));
    assert_eq!(parse_rate(b"-2147.483649"), None);
    assert_eq!(parse_rate(b"-"), None);
    assert_eq!(parse_rate(b"-."), None);
    assert_eq!(parse_rate(b"--1"), None);
    assert_eq!(parse_rate(b"-+1"), None);
    assert_eq!(parse_rate(b"+-1"), None);
    assert_eq!(parse_rate(b"1-"), None);
    assert_eq!(parse_rate(b""), None);
}

#[test]
fn a_line_splits_at_whitespace() {
    let none: Vec<&[u8]> = vec![];
    assert_eq!(split_fields(b""), none);
    assert_eq!(split_fields(b"  \t \r"), none);
    let expected: Vec<&[u8]> = vec![b"52", b"START", b"20000.0", b"5.5", b"4"];
    assert_eq!(split_fields(b"52 START 20000.0 5.5 4"), expected);
    assert_eq!(split_fields(b"  52\tSTART  20000.0\x0b5.5\x0c4\r"), expected);
    let one: Vec<&[u8]> = vec![b"a"];
    assert_eq!(split_fields(b"a"), one);
    assert_eq!(split_fields(b" a"), one);
    assert_eq!(split_fields(b"a "), one);
    let odd: Vec<&[u8]> = vec![b"a\x00b", b"c\xc2\xa0d"];
    assert_eq!(split_fields(b"a\x00b c\xc2\xa0d"), odd);
}

#[test]
fn bytes_are_classified() {
    for b in [b' ', b'\t', b'\n', 0x0b, 0x0c, b'\r'] {
        assert!(is_space_byte(b));
    }
    for b in [0u8, 8, 14, 31, 33, b'a', b'0', 0xa0, 0xff] {
        assert!(!is_space_byte(b));
    }
    for b in b'0'..=b'9' {
        assert!(is_digit_byte(b));
    }
    for b in [b'/', b':', b'a', b' ', 0u8, 0xff] {
        assert!(!is_digit_byte(b));
    }
}

#[test]
fn keywords_are_compared_byte_by_byte() {
    assert!(bytes_equal(b"", b""));
    assert!(bytes_equal(b"abc", b"abc"));
    assert!(!bytes_equal(b"abc", b"abd"));
    assert!(!bytes_equal(b"abc", b"ab"));
    assert!(!bytes_equal(b"ab", b"abc"));
    assert!(is_keyword(b"START", "START"));
    assert!(!is_keyword(b"start", "START"));
    assert!(!is_keyword(b"STAR", "START"));
    assert!(!is_keyword(b"STARTS", "START"));
}

#[test]
fn fields_are_read_by_position() {
    let fields: Vec<&[u8]> = vec![b"52", b"PAY", b"12.5", b"x"];
    assert_eq!(get_whole(&fields, 0), Ok(52));
    assert_eq!(get_whole(&fields, 1), Err(ParseError::InvalidNumber));
    assert_eq!(get_whole(&fields, 2), Err(ParseError::InvalidNumber));
    assert_eq!(get_whole(&fields, 4), Err(ParseError::MissingField));
    assert_eq!(get_amount(&fields, 2), Ok(12_500_000));
    assert_eq!(get_amount(&fields, 0), Ok(52_000_000));
    assert_eq!(get_amount(&fields, 3), Err(ParseError::InvalidNumber));
    assert_eq!(get_amount(&fields, 9), Err(ParseError::MissingField));
    assert_eq!(get_rate(&fields, 2), Ok(12_500_000));
    let falling: Vec<&[u8]> = vec![b"SHARES_ROR", b"-12.5"];
    assert_eq!(get_rate(&falling, 1), Ok(-12_500_000));
    assert_eq!(get_amount(&falling, 1), Err(ParseError::InvalidNumber));
    assert_eq!(get_rate(&fields, 3), Err(ParseError::InvalidNumber));
    assert_eq!(get_rate(&fields, 4), Err(ParseError::MissingField));
    assert!(has_keyword(&fields, 1, "PAY"));
    assert!(!has_keyword(&fields, 0, "PAY"));
    assert!(!has_keyword(&fields, 7, "PAY"));
}

#[test]
fn a_line_ends_at_a_line_feed() {
    assert_eq!(find_line_end(b"ab\ncd", 0), 2);
    assert_eq!(find_line_end(b"ab\ncd", 2), 2);
    assert_eq!(find_line_end(b"ab\ncd", 3), 5);
    assert_eq!(find_line_end(b"ab\ncd", 5), 5);
    assert_eq!(find_line_end(b"", 0), 0);
}
