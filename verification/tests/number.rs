use disk_write_bench::number::{parse_number, parse_usize, NumberError};

const SAMPLES: [&str; 30] = [
    "",
    "+",
    "-",
    "++1",
    "+-1",
    "-1",
    "-0",
    "0",
    "+0",
    "007",
    "+42",
    "42",
    " 42",
    "42 ",
    "4 2",
    "4_2",
    "0x10",
    "1e3",
    "1.5",
    "٣",
    "1٣",
    "18446744073709551615",
    "18446744073709551616",
    "+18446744073709551615",
    "99999999999999999999999",
    "99999999999999999999999x",
    "1x99999999999999999999999",
    "00000000000000000000000000000000000001",
    "18446744073709551610",
    "184467440737095516150",
];

#[test]
fn numbers_and_errors_agree_with_std() {
    for s in SAMPLES {
        let ours = parse_number(s, u64::MAX).map_err(|e| e.describe().to_string());
        let std = s.parse::<u64>().map_err(|e| e.to_string());
        assert_eq!(ours, std, "{s:?}");
        let ours = parse_usize(s).map_err(|e| e.describe().to_string());
        let std = s.parse::<usize>().map_err(|e| e.to_string());
        assert_eq!(ours, std, "{s:?}");
    }
}

#[test]
fn every_number_error_has_an_input() {
    assert_eq!(parse_usize(""), Err(NumberError::Empty));
    assert_eq!(parse_usize("+"), Err(NumberError::InvalidDigit));
    assert_eq!(parse_usize("12a"), Err(NumberError::InvalidDigit));
    assert_eq!(
        parse_usize("99999999999999999999"),
        Err(NumberError::TooLarge)
    );
}

#[test]
fn the_bound_is_the_callers() {
    assert_eq!(parse_number("255", 255), Ok(255));
    assert_eq!(parse_number("256", 255), Err(NumberError::TooLarge));
    assert_eq!(parse_number("0", 0), Ok(0));
    assert_eq!(parse_number("1", 0), Err(NumberError::TooLarge));
}

#[test]
fn digits_are_read_as_their_value() {
    assert_eq!(parse_number("0123", 1000), Ok(123));
    assert_eq!(parse_number("+0123", 1000), Ok(123));
}

#[test]
fn printed_numbers_are_read_back() {
    for n in [0, 7, 10, 4096, u64::MAX] {
        assert_eq!(
            parse_number(&disk_write_bench::text::decimal_text(n), u64::MAX),
            Ok(n)
        );
    }
}
