use disk_write_bench::args::{unknown_argument_message, Args, Parsed, ALIGN};
use disk_write_bench::mode::Mode;

fn parse(argv: &[&str]) -> Parsed {
    let argv: Vec<String> = argv.iter().map(|s| s.to_string()).collect();
    Args::parse(&argv)
}

fn default_args(path: &str) -> Args {
    Args {
        path: path.to_string(),
        block_size: 8 * 1024 * 1024,
        queue_depth: 1,
        duration: 30,
        mode: Mode::Direct,
        max_bytes: None,
        keep: false,
        fsync: false,
        no_prealloc: false,
    }
}

fn invalid(message: &str) -> Parsed {
    Parsed::Invalid(message.to_string())
}

#[test]
fn a_path_alone_runs_with_defaults() {
    assert_eq!(
        parse(&["--path", "/mnt/x"]),
        Parsed::Run(default_args("/mnt/x"))
    );
    assert_eq!(ALIGN, 4096);
}

#[test]
fn every_option_is_read() {
    assert_eq!(
        parse(&[
            "--path", "f", "--mode", "uring", "--block-size", "64k", "--queue-depth", "32",
            "--duration", "15", "--max-bytes", "1g", "--fsync", "--keep", "--no-prealloc",
        ]),
        Parsed::Run(Args {
            path: "f".to_string(),
            block_size: 65536,
            queue_depth: 32,
            duration: 15,
            mode: Mode::Uring,
            max_bytes: Some(1 << 30),
            keep: true,
            fsync: true,
            no_prealloc: true,
        })
    );
}

#[test]
fn the_last_value_of_an_option_wins() {
    assert_eq!(
        parse(&["--path", "a", "--path", "b"]),
        Parsed::Run(default_args("b"))
    );
    assert_eq!(
        parse(&["--block-size", "3", "--block-size", "8m", "--path", "a"]),
        Parsed::Run(default_args("a"))
    );
}

#[test]
fn options_can_come_in_either_order() {
    assert_eq!(
        parse(&["--path", "a", "--queue-depth", "4"]),
        parse(&["--queue-depth", "4", "--path", "a"])
    );
}

#[test]
fn option_groups_can_come_in_any_order() {
    let mut groups: Vec<Vec<&str>> = vec![
        vec!["--path", "f"],
        vec!["--keep"],
        vec!["--block-size", "64k"],
        vec!["--fsync"],
        vec!["--mode", "uring"],
        vec!["--max-bytes", "1g"],
        vec!["--no-prealloc"],
        vec!["--duration", "15"],
        vec!["--queue-depth", "32"],
    ];
    let first = parse(&groups.concat());
    assert!(matches!(first, Parsed::Run(_)));
    let mut seed: u64 = 0x9e37_79b9_7f4a_7c15;
    for _ in 0..200 {
        seed ^= seed << 13;
        seed ^= seed >> 7;
        seed ^= seed << 17;
        let n = groups.len();
        groups.swap(seed as usize % n, (seed >> 32) as usize % n);
        assert_eq!(parse(&groups.concat()), first);
    }
}

#[test]
fn help_is_answered_where_it_stands() {
    assert_eq!(parse(&["-h"]), Parsed::Help);
    assert_eq!(parse(&["--keep", "--help", "--bogus"]), Parsed::Help);
    assert_eq!(
        parse(&["--bogus", "--help"]),
        invalid("unknown argument \"--bogus\" (try --help)")
    );
    // A value is a value, whatever it looks like.
    assert_eq!(
        parse(&["--path", "--help"]),
        Parsed::Run(default_args("--help"))
    );
}

#[test]
fn a_missing_value_is_reported_with_its_option() {
    for flag in [
        "--path", "--block-size", "--queue-depth", "--duration", "--mode", "--max-bytes",
    ] {
        assert_eq!(parse(&[flag]), invalid(&format!("{flag} requires a value")));
    }
}

#[test]
fn bad_values_are_reported() {
    assert_eq!(
        parse(&["--block-size", "x"]),
        invalid("invalid size \"x\": invalid digit found in string")
    );
    assert_eq!(
        parse(&["--max-bytes", ""]),
        invalid("invalid size \"\": cannot parse integer from empty string")
    );
    assert_eq!(
        parse(&["--queue-depth", "1k"]),
        invalid("--queue-depth: invalid digit found in string")
    );
    assert_eq!(
        parse(&["--queue-depth", " 1"]),
        invalid("--queue-depth: invalid digit found in string")
    );
    assert_eq!(
        parse(&["--duration", "18446744073709551616"]),
        invalid("--duration: number too large to fit in target type")
    );
    assert_eq!(
        parse(&["--mode", "fast"]),
        invalid("unknown mode \"fast\" (expected direct, direct-sync, uring, or buffered)")
    );
}

#[test]
fn unknown_arguments_are_quoted() {
    assert_eq!(
        parse(&["a\"b"]),
        invalid("unknown argument \"a\\\"b\" (try --help)")
    );
    assert_eq!(parse(&[""]), invalid("unknown argument \"\" (try --help)"));
    assert_eq!(
        unknown_argument_message("\"x\""),
        "unknown argument \"x\" (try --help)"
    );
}

#[test]
fn settings_are_checked_at_the_end() {
    assert_eq!(
        parse(&[]),
        invalid("--path is required (a file on the target filesystem)")
    );
    assert_eq!(
        parse(&["--block-size", "0"]),
        invalid("--path is required (a file on the target filesystem)")
    );
    for size in ["0", "1", "4095", "4097", "6k"] {
        assert_eq!(
            parse(&["--path", "f", "--block-size", size, "--queue-depth", "0"]),
            invalid("--block-size must be a non-zero multiple of 4096 for O_DIRECT")
        );
    }
    assert_eq!(
        parse(&["--path", "f", "--queue-depth", "0"]),
        invalid("--queue-depth must be at least 1")
    );
}

#[test]
fn sizes_beyond_counting_are_an_outcome_of_their_own() {
    assert_eq!(
        parse(&["--max-bytes", "18446744073709551615k"]),
        Parsed::SizeOverflow
    );
    assert_eq!(
        parse(&["--block-size", "17179869184g", "--bogus"]),
        Parsed::SizeOverflow
    );
}
