use disk_write_bench::number::NumberError;
use disk_write_bench::size::{fits, human_bytes, invalid_size_message, parse_size};

fn human_by_doubles(n: u64) -> String {
    let units = ["B", "KiB", "MiB", "GiB", "TiB"];
    let mut v = n as f64;
    let mut i = 0;
    while v >= 1024.0 && i < units.len() - 1 {
        v /= 1024.0;
        i += 1;
    }
    if i == 0 {
        format!("{n} {}", units[0])
    } else {
        format!("{v:.2} {}", units[i])
    }
}

#[test]
fn suffixes_are_binary_multiples() {
    assert_eq!(parse_size("0"), Ok(0));
    assert_eq!(parse_size("4096"), Ok(4096));
    assert_eq!(parse_size("4k"), Ok(4096));
    assert_eq!(parse_size("8m"), Ok(8 * 1024 * 1024));
    assert_eq!(parse_size("3g"), Ok(3 * 1024 * 1024 * 1024));
}

#[test]
fn suffix_case_is_ignored() {
    assert_eq!(parse_size("4K"), parse_size("4k"));
    assert_eq!(parse_size("4M"), parse_size("4m"));
    assert_eq!(parse_size("4G"), parse_size("4g"));
}

#[test]
fn space_around_a_size_is_ignored() {
    assert_eq!(parse_size("  8 m\t"), Ok(8 * 1024 * 1024));
    assert_eq!(parse_size("\u{a0}12\n"), Ok(12));
    assert_eq!(parse_size("+1k"), Ok(1024));
}

#[test]
fn texts_that_are_no_size_are_quoted() {
    assert_eq!(
        parse_size("eight"),
        Err("invalid size \"eight\": invalid digit found in string".to_string())
    );
    assert_eq!(
        parse_size("  "),
        Err("invalid size \"\": cannot parse integer from empty string".to_string())
    );
    assert_eq!(
        parse_size(" k "),
        Err("invalid size \"k\": cannot parse integer from empty string".to_string())
    );
    assert_eq!(
        parse_size("8mb"),
        Err("invalid size \"8mb\": invalid digit found in string".to_string())
    );
    assert_eq!(
        parse_size("8\u{212a}"),
        Err("invalid size \"8\u{212a}\": invalid digit found in string".to_string())
    );
    assert_eq!(
        parse_size("99999999999999999999999"),
        Err(
            "invalid size \"99999999999999999999999\": number too large to fit in target type"
                .to_string()
        )
    );
    // Escapes show that the text is quoted rather than copied.
    assert_eq!(
        parse_size("a\"\\\tb"),
        Err("invalid size \"a\\\"\\\\\\tb\": invalid digit found in string".to_string())
    );
}

#[test]
fn the_message_names_the_quoted_text() {
    assert_eq!(
        invalid_size_message("\"x\"", NumberError::InvalidDigit),
        "invalid size \"x\": invalid digit found in string"
    );
}

#[test]
fn sizes_that_cannot_be_counted_are_told_apart() {
    assert!(fits("8m"));
    assert!(fits("nonsense"));
    assert!(fits("18446744073709551615"));
    assert!(fits("99999999999999999999g"));
    assert!(!fits("18446744073709551615k"));
    assert!(fits("17179869183g"));
    assert!(!fits("17179869184g"));
    assert_eq!(parse_size("17179869183g"), Ok(17179869183 * 1024 * 1024 * 1024));
}

#[test]
fn human_sizes() {
    assert_eq!(human_bytes(0), "0 B");
    assert_eq!(human_bytes(1023), "1023 B");
    assert_eq!(human_bytes(1024), "1.00 KiB");
    assert_eq!(human_bytes(8 * 1024 * 1024), "8.00 MiB");
    assert_eq!(human_bytes(1024 * 1024 - 1), "1024.00 KiB");
    assert_eq!(human_bytes(600 * 1024 * 1024 * 1024), "600.00 GiB");
    assert_eq!(human_bytes(u64::MAX), "16777216.00 TiB");
}

#[test]
fn human_sizes_round_ties_to_even() {
    assert_eq!(human_bytes(1024 + 128), "1.12 KiB");
    assert_eq!(human_bytes(1024 + 384), "1.38 KiB");
}

#[test]
fn human_sizes_agree_with_double_arithmetic() {
    let mut x: u64 = 0x9e37_79b9_7f4a_7c15;
    for _ in 0..50_000 {
        x ^= x << 13;
        x ^= x >> 7;
        x ^= x << 17;
        for shift in [0, 3, 8, 11, 16, 24, 32, 40, 48, 54] {
            let n = x >> shift;
            assert_eq!(human_bytes(n), human_by_doubles(n), "{n}");
        }
    }
    for k in 0..64 {
        for d in 0..3000u64 {
            let n = (1u64 << k).wrapping_add(d).wrapping_sub(1500);
            assert_eq!(human_bytes(n), human_by_doubles(n), "{n}");
        }
    }
}
