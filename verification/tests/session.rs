use disk_write_bench::args::Args;
use disk_write_bench::mode::Mode;
use disk_write_bench::session::{
    banner_text, bytes_to_reserve, can_reserve, direct_open_message, refusal_message, Action,
    Event, Session, RESERVED_PER_SEC,
};
use disk_write_bench::stats::{report, Figures, Stats};

fn args(mode: Mode) -> Args {
    Args {
        path: "/mnt/raid0/bench.dat".to_string(),
        block_size: 8 << 20,
        queue_depth: 32,
        duration: 15,
        mode,
        max_bytes: None,
        keep: false,
        fsync: false,
        no_prealloc: false,
    }
}

fn figures() -> Figures {
    Figures {
        elapsed: "1.000".to_string(),
        gib_s: "1.00".to_string(),
        gb_s: "1.07".to_string(),
        gbit_s: "8.59".to_string(),
        iops: "128".to_string(),
        latency: "7.812".to_string(),
        fsync: "".to_string(),
    }
}

fn stats() -> Stats {
    Stats {
        bytes: 1 << 30,
        writes: 128,
        elapsed: 1_000_000_000,
        fsync_time: None,
        peak_in_flight: 32,
    }
}

fn start(args: Args) -> (Session, Action<i32>) {
    Session::start(args)
}

fn done() -> Event<i32> {
    Event::Done
}

fn failed(error: i32, reason: &str) -> Event<i32> {
    Event::Failed {
        error,
        reason: reason.to_string(),
    }
}

fn wrote() -> Event<i32> {
    Event::Wrote(stats(), figures())
}

fn hint() -> Event<i32> {
    Event::Hint("xfs on /dev/md127".to_string())
}

const BANNER: &str = "\
disk write benchmark
  path         : /mnt/raid0/bench.dat
  filesystem   : xfs on /dev/md127
  mode         : O_DIRECT + io_uring
  block size   : 8.00 MiB (8388608 bytes)
  queue depth  : 32
  duration     : 15s
  fsync at end : false
";

/// A session that waits for its writes, and the action that started them.
fn up_to_writing(args: Args) -> (Session, Action<i32>) {
    let reserves = !args.no_prealloc;
    let (mut s, _) = start(args);
    s.on_event(done());
    s.on_event(done());
    let mut action = s.on_event(hint());
    if reserves {
        action = s.on_event(done());
    }
    (s, action)
}

#[test]
fn a_run_from_start_to_end() {
    let a = args(Mode::Direct);
    let (mut s, first) = start(a.clone());
    assert_eq!(first, Action::Create);
    assert_eq!(s.args(), &a);
    assert_eq!(s.on_event(done()), Action::OpenDirect);
    assert_eq!(s.on_event(done()), Action::FindFilesystem);
    assert_eq!(
        s.on_event(hint()),
        Action::Reserve {
            text: BANNER.to_string(),
            len: 300 << 30
        }
    );
    assert_eq!(
        s.on_event(done()),
        Action::Write {
            text: "  preallocate  : 300.00 GiB (fallocate)\n\n".to_string(),
            on_ring: true
        }
    );
    let text = report(&a, &stats(), &figures());
    assert_eq!(
        s.on_event(wrote()),
        Action::Remove { text }
    );
    assert_eq!(
        s.on_event(done()),
        Action::End {
            text: "".to_string()
        }
    );
}

#[test]
fn a_second_descriptor_is_opened_as_the_mode_needs() {
    for (mode, action) in [
        (Mode::Direct, Action::OpenDirect),
        (Mode::DirectSync, Action::OpenDirect),
        (Mode::Uring, Action::OpenShared),
        (Mode::Buffered, Action::OpenShared),
    ] {
        let (mut s, _) = start(args(mode));
        assert_eq!(s.on_event(done()), action);
    }
}

#[test]
fn the_mode_selects_the_loop() {
    for (mode, ring) in [
        (Mode::Direct, true),
        (Mode::DirectSync, false),
        (Mode::Uring, true),
        (Mode::Buffered, false),
    ] {
        let (_, action) = up_to_writing(args(mode));
        assert!(matches!(action, Action::Write { on_ring, .. } if on_ring == ring));
    }
}

#[test]
fn a_reservation_can_be_switched_off() {
    let mut a = args(Mode::Direct);
    a.no_prealloc = true;
    let (_, action) = up_to_writing(a);
    assert_eq!(
        action,
        Action::Write {
            text: format!(
                "{BANNER}  preallocate  : disabled  <-- appends serialize on the inode lock\n\n"
            ),
            on_ring: true
        }
    );
}

#[test]
fn a_failed_reservation_does_not_stop_the_run() {
    let (mut s, _) = start(args(Mode::Direct));
    s.on_event(done());
    s.on_event(done());
    s.on_event(hint());
    assert_eq!(
        s.on_event(failed(28, "No space left on device (os error 28)")),
        Action::Write {
            text: "  preallocate  : FAILED (No space left on device (os error 28)) -- appends will serialize\n\n"
                .to_string(),
            on_ring: true
        }
    );
}

#[test]
fn failures_end_the_run_with_their_error() {
    let (mut s, _) = start(args(Mode::Direct));
    assert_eq!(s.on_event(failed(13, "denied")), Action::Fail { error: 13 });

    let (mut s, _) = start(args(Mode::Uring));
    s.on_event(done());
    assert_eq!(
        s.on_event(failed(24, "too many files")),
        Action::Fail { error: 24 }
    );

    let (mut s, _) = up_to_writing(args(Mode::Uring));
    assert_eq!(
        s.on_event(failed(5, "short write: 1 of 2 bytes")),
        Action::Fail { error: 5 }
    );
}

#[test]
fn a_failed_direct_open_keeps_its_error_and_adds_a_message() {
    for mode in [Mode::Direct, Mode::DirectSync] {
        let (mut s, _) = start(args(mode));
        s.on_event(done());
        assert_eq!(
            s.on_event(failed(22, "Invalid argument (os error 22)")),
            Action::FailOpen {
                error: 22,
                message: "cannot open /mnt/raid0/bench.dat with O_DIRECT: \
                          Invalid argument (os error 22). \
                          The filesystem may not support it (tmpfs does not); \
                          try --mode uring or --mode buffered, or a path on a real disk."
                    .to_string()
            }
        );
    }
}

#[test]
fn blocks_that_a_request_cannot_carry_are_refused() {
    let message = "--block-size must be less than 4g with io_uring; \
                   try --mode direct-sync or --mode buffered";
    for (mode, refused) in [
        (Mode::Direct, true),
        (Mode::DirectSync, false),
        (Mode::Uring, true),
        (Mode::Buffered, false),
    ] {
        let mut a = args(mode);
        a.block_size = 1 << 32;
        let expected = if refused {
            Action::Refuse {
                message: message.to_string(),
            }
        } else {
            Action::Create
        };
        assert_eq!(start(a.clone()).1, expected);
        assert_eq!(refusal_message(&a).is_some(), refused);
        a.block_size = (1 << 32) - 4096;
        assert_eq!(start(a).1, Action::Create);
    }
}

#[test]
fn no_block_is_too_long_for_a_run_without_a_write() {
    for (duration, max_bytes) in [(0, None), (15, Some(0)), (0, Some(1))] {
        let mut a = args(Mode::Direct);
        a.block_size = 1 << 32;
        a.duration = duration;
        a.max_bytes = max_bytes;
        assert_eq!(refusal_message(&a), None);
        let (_, action) = up_to_writing(a);
        assert!(matches!(action, Action::Write { on_ring: true, .. }));
    }
    let mut a = args(Mode::Direct);
    a.block_size = 1 << 32;
    a.duration = 1;
    a.max_bytes = Some(1);
    assert!(refusal_message(&a).is_some());
}

#[test]
fn queues_that_no_ring_holds_are_refused() {
    let mut a = args(Mode::Direct);
    a.queue_depth = 1 << 31;
    assert_eq!(start(a.clone()).1, Action::Create);
    a.queue_depth += 1;
    assert_eq!(
        start(a.clone()).1,
        Action::Refuse {
            message: "--queue-depth must be at most 2147483648 with io_uring".to_string()
        }
    );
    a.mode = Mode::Buffered;
    assert_eq!(start(a.clone()).1, Action::Create);
    assert_eq!(refusal_message(&a), None);
}

#[test]
fn the_file_is_kept_on_request() {
    let mut a = args(Mode::Direct);
    a.keep = true;
    let (mut s, _) = up_to_writing(a.clone());
    let text = report(&a, &stats(), &figures());
    assert_eq!(
        s.on_event(wrote()),
        Action::End {
            text: format!("{text}\noutput file kept at /mnt/raid0/bench.dat\n")
        }
    );
}

#[test]
fn a_file_that_cannot_be_deleted_is_let_be() {
    let (mut s, _) = up_to_writing(args(Mode::Direct));
    s.on_event(wrote());
    assert_eq!(
        s.on_event(failed(2, "gone")),
        Action::End {
            text: "".to_string()
        }
    );
}

#[test]
fn the_banner_shows_a_cap() {
    let mut a = args(Mode::Buffered);
    a.max_bytes = Some(3 << 29);
    a.fsync = true;
    let expected = "\
disk write benchmark
  path         : /mnt/raid0/bench.dat
  filesystem   : unknown
  mode         : write(2) (buffered)
  block size   : 8.00 MiB (8388608 bytes)
  queue depth  : 32
  duration     : 15s
  max bytes    : 1.50 GiB
  fsync at end : true
";
    assert_eq!(banner_text(&a, "unknown"), expected);
}

#[test]
fn what_is_reserved() {
    assert_eq!(RESERVED_PER_SEC, 20 * 1024 * 1024 * 1024);
    let mut a = args(Mode::Direct);
    assert_eq!(bytes_to_reserve(&a), 15 * RESERVED_PER_SEC);
    a.duration = 0;
    assert_eq!(bytes_to_reserve(&a), RESERVED_PER_SEC);
    a.max_bytes = Some(4097);
    assert_eq!(bytes_to_reserve(&a), 4097);
}

#[test]
fn reservations_beyond_counting_are_told() {
    let mut a = args(Mode::Direct);
    a.duration = 858_993_459;
    assert!(can_reserve(&a));
    a.duration = 858_993_460;
    assert!(!can_reserve(&a));
    a.max_bytes = Some(1);
    assert!(can_reserve(&a));
    a.max_bytes = None;
    a.no_prealloc = true;
    assert!(can_reserve(&a));
}

#[test]
fn the_message_for_a_direct_open() {
    assert_eq!(
        direct_open_message("f", "e"),
        "cannot open f with O_DIRECT: e. The filesystem may not support it (tmpfs does not); \
         try --mode uring or --mode buffered, or a path on a real disk."
    );
}
