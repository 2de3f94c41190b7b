use disk_write_bench::args::Args;
use disk_write_bench::buffered::SyncWriter;
use disk_write_bench::mode::Mode;

fn args(block_size: usize, duration: u64, max_bytes: Option<u64>) -> Args {
    Args {
        path: "f".to_string(),
        block_size,
        queue_depth: 1,
        duration,
        mode: Mode::Buffered,
        max_bytes,
        keep: false,
        fsync: false,
        no_prealloc: false,
    }
}

#[test]
fn blocks_follow_each_other_until_time_is_up() {
    let mut w = SyncWriter::new(&args(4096, 1, None));
    for n in 0..4 {
        assert_eq!(w.next(999_999_999), Some(n * 4096));
        assert!(w.can_write());
        w.on_written();
    }
    assert_eq!(w.next(1_000_000_000), None);
    assert_eq!((w.bytes(), w.writes()), (4 * 4096, 4));
    assert_eq!(w.peak_in_flight(), 1);
}

#[test]
fn the_cap_stops_at_a_block_boundary() {
    let mut w = SyncWriter::new(&args(4096, 100, Some(5000)));
    assert_eq!(w.next(0), Some(0));
    w.on_written();
    assert_eq!(w.next(0), Some(4096));
    w.on_written();
    assert_eq!(w.next(0), None);
    assert!(!w.can_write());
    assert_eq!(w.bytes(), 8192);
}

#[test]
fn a_cap_of_nothing_writes_nothing() {
    let w = SyncWriter::new(&args(4096, 100, Some(0)));
    assert_eq!(w.next(0), None);
    assert_eq!((w.bytes(), w.writes()), (0, 0));
    assert_eq!(w.peak_in_flight(), 0);
}

#[test]
fn no_time_writes_nothing() {
    let w = SyncWriter::new(&args(4096, 0, None));
    assert_eq!(w.next(0), None);
    assert_eq!((w.bytes(), w.writes(), w.peak_in_flight()), (0, 0, 0));
}

#[test]
fn offsets_past_counting_are_told() {
    let mut w = SyncWriter::new(&args(1 << 63, 100, None));
    assert!(w.can_write());
    w.on_written();
    assert_eq!(w.next(0), Some(1 << 63));
    assert!(!w.can_write());
}
