use disk_write_bench::args::Args;
use disk_write_bench::mode::Mode;
use disk_write_bench::stats::{
    closing, finish, latency_writes, report, Closing, Figures, Flush, Stats,
};

fn args(mode: Mode, queue_depth: usize, fsync: bool) -> Args {
    Args {
        path: "f".to_string(),
        block_size: 8 << 20,
        queue_depth,
        duration: 30,
        mode,
        max_bytes: None,
        keep: false,
        fsync,
        no_prealloc: false,
    }
}

fn figures() -> Figures {
    Figures {
        elapsed: "15.001".to_string(),
        gib_s: "14.40".to_string(),
        gb_s: "15.46".to_string(),
        gbit_s: "123.70".to_string(),
        iops: "1843".to_string(),
        latency: "0.543".to_string(),
        fsync: "0.250".to_string(),
    }
}

fn stats(peak_in_flight: usize, fsync_time: Option<u128>) -> Stats {
    Stats {
        bytes: 27648 * (8 << 20),
        writes: 27648,
        elapsed: 15_001_000_000,
        fsync_time,
        peak_in_flight,
    }
}

#[test]
fn a_flush_is_inside_the_measured_window() {
    let a = args(Mode::Buffered, 1, true);
    assert_eq!(closing(&a), Closing::FlushFirst);
    let flush = Some(Flush {
        began: 100,
        ended: 160,
    });
    let s = finish(&a, 8192, 2, 1, flush, 170);
    assert_eq!(
        s,
        Stats {
            bytes: 8192,
            writes: 2,
            elapsed: 170,
            fsync_time: Some(60),
            peak_in_flight: 1
        }
    );
}

#[test]
fn without_a_flush_the_clock_just_stops() {
    let a = args(Mode::Direct, 4, false);
    assert_eq!(closing(&a), Closing::StopClock);
    let s = finish(&a, 4096, 1, 3, None, 9);
    assert_eq!(
        s,
        Stats {
            bytes: 4096,
            writes: 1,
            elapsed: 9,
            fsync_time: None,
            peak_in_flight: 3
        }
    );
}

#[test]
fn the_report_of_a_direct_run() {
    let expected = "\
results
  elapsed      : 15.001 s
  written      : 216.00 GiB (231928233984 bytes)
  writes       : 27648
  throughput   : 14.40 GiB/s  (15.46 GB/s, 123.70 Gb/s)
  IOPS         : 1843
  peak in-flgt : 32 of 32 requested
  avg latency  : 0.543 ms/write (queue depth 32)
";
    assert_eq!(
        report(&args(Mode::Direct, 32, false), &stats(32, None), &figures()),
        expected
    );
}

#[test]
fn the_report_warns_where_writes_never_overlapped() {
    let warning = "  WARNING: writes never overlapped -- submissions are serializing\n";
    let warns = |mode, depth, peak| {
        report(&args(mode, depth, true), &stats(peak, Some(1)), &figures()).contains(warning)
    };
    assert!(warns(Mode::Direct, 2, 1));
    assert!(warns(Mode::Uring, 32, 0));
    assert!(!warns(Mode::Direct, 1, 1));
    assert!(!warns(Mode::Direct, 32, 2));
    assert!(!warns(Mode::DirectSync, 32, 1));
    assert!(!warns(Mode::Buffered, 32, 1));
}

#[test]
fn the_report_of_a_flushed_run() {
    let text = report(
        &args(Mode::Buffered, 1, true),
        &stats(1, Some(250_000_000)),
        &figures(),
    );
    assert!(text.ends_with(
        "  avg latency  : 0.543 ms/write (queue depth 1)\n  fsync        : 0.250 s (included above)\n"
    ));
}

#[test]
fn the_report_notes_a_cached_run() {
    let note = "
  note: buffered mode without --fsync measures the rate of filling the
        page cache, not of reaching the device. Add --fsync to compare
        against O_DIRECT on equal terms.
";
    let notes = |mode, fsync| {
        report(&args(mode, 1, fsync), &stats(1, None), &figures()).ends_with(note)
    };
    assert!(notes(Mode::Buffered, false));
    assert!(notes(Mode::Uring, false));
    assert!(!notes(Mode::Buffered, true));
    assert!(!notes(Mode::Uring, true));
    assert!(!notes(Mode::Direct, false));
    assert!(!notes(Mode::DirectSync, false));
}

#[test]
fn latency_is_taken_over_at_least_one_write() {
    assert_eq!(latency_writes(0), 1);
    assert_eq!(latency_writes(1), 1);
    assert_eq!(latency_writes(27648), 27648);
}
