use disk_write_bench::text::{chars_of, code, decimal_text, digit_text, is_white_space, same, trim};

#[test]
fn white_space_is_what_std_calls_white_space() {
    for n in 0..=0x10ffffu32 {
        if let Some(c) = char::from_u32(n) {
            assert_eq!(is_white_space(c), c.is_whitespace(), "{n:x}");
            assert_eq!(code(c), n);
        }
    }
}

#[test]
fn trim_agrees_with_std() {
    for s in [
        "",
        " ",
        "a",
        " a",
        "a ",
        "\t a b \n",
        "\u{3000}\u{a0}x\u{2009}",
        "\u{200b}x\u{200b}",
        "é ü ",
        "   \u{85}",
    ] {
        assert_eq!(trim(s), s.trim(), "{s:?}");
    }
}

#[test]
fn same_compares_characters() {
    assert!(same("", ""));
    assert!(same("--path", "--path"));
    assert!(!same("--path", "--Path"));
    assert!(!same("--path", "--pat"));
    assert!(!same("--pat", "--path"));
}

#[test]
fn chars_are_kept_in_order() {
    assert_eq!(chars_of("aéb"), vec!['a', 'é', 'b']);
    assert_eq!(chars_of(""), Vec::<char>::new());
}

#[test]
fn decimal_agrees_with_std() {
    for n in [0, 1, 9, 10, 11, 99, 100, 101, 4096, 8388608, u64::MAX - 1, u64::MAX] {
        assert_eq!(decimal_text(n), n.to_string());
    }
    for d in 0..10usize {
        assert_eq!(digit_text(d), d.to_string());
    }
}
