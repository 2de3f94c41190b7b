use disk_write_bench::mode::{unknown_mode_message, Mode};

#[test]
fn names_of_modes() {
    assert_eq!(Mode::parse("direct"), Ok(Mode::Direct));
    assert_eq!(Mode::parse("direct-sync"), Ok(Mode::DirectSync));
    assert_eq!(Mode::parse("uring"), Ok(Mode::Uring));
    assert_eq!(Mode::parse("buffered"), Ok(Mode::Buffered));
}

#[test]
fn unknown_modes_are_quoted() {
    assert_eq!(
        Mode::parse("Direct"),
        Err(
            "unknown mode \"Direct\" (expected direct, direct-sync, uring, or buffered)"
                .to_string()
        )
    );
    assert_eq!(
        Mode::parse("a\nb"),
        Err(
            "unknown mode \"a\\nb\" (expected direct, direct-sync, uring, or buffered)"
                .to_string()
        )
    );
    assert!(Mode::parse("").is_err());
    assert!(Mode::parse(" direct").is_err());
    assert_eq!(
        unknown_mode_message("\"x\""),
        "unknown mode \"x\" (expected direct, direct-sync, uring, or buffered)"
    );
}

#[test]
fn labels_of_modes() {
    assert_eq!(Mode::Direct.label(), "O_DIRECT + io_uring");
    assert_eq!(Mode::DirectSync.label(), "O_DIRECT + write(2)");
    assert_eq!(Mode::Uring.label(), "io_uring (buffered)");
    assert_eq!(Mode::Buffered.label(), "write(2) (buffered)");
}

#[test]
fn two_choices_determine_the_mode() {
    let table = [
        (Mode::Direct, true, true),
        (Mode::DirectSync, false, true),
        (Mode::Uring, true, false),
        (Mode::Buffered, false, false),
    ];
    for (mode, ring, direct) in table {
        assert_eq!(mode.uses_uring(), ring);
        assert_eq!(mode.needs_direct_fd(), direct);
    }
}
