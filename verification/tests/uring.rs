use disk_write_bench::args::{Args, MAX_RING_ENTRIES};
use disk_write_bench::buffered::SyncWriter;
use disk_write_bench::mode::Mode;
use disk_write_bench::uring::{
    block_fits_ring, depth_fits_ring, ring_entries, short_write_message, Action, WriteError,
    WriteRequest, WriteRing,
};

const BLOCK: usize = 4096;

fn args(queue_depth: usize, duration: u64, max_bytes: Option<u64>) -> Args {
    Args {
        path: "f".to_string(),
        block_size: BLOCK,
        queue_depth,
        duration,
        mode: Mode::Direct,
        max_bytes,
        keep: false,
        fsync: false,
        no_prealloc: false,
    }
}

fn write(slot: usize, block: u64) -> Action {
    Action::Push(WriteRequest {
        slot,
        offset: block * BLOCK as u64,
        len: BLOCK as u32,
    })
}

#[test]
fn the_queue_is_topped_up_to_its_depth() {
    let mut ring = WriteRing::new(&args(3, 10, None));
    assert_eq!(ring.top_up(), Action::ReadClock);
    assert_eq!(ring.on_clock(0), write(0, 0));
    assert_eq!(ring.on_push(true), Action::ReadClock);
    assert_eq!(ring.on_clock(1), write(1, 1));
    assert_eq!(ring.on_push(true), Action::ReadClock);
    assert_eq!(ring.on_clock(2), write(2, 2));
    assert_eq!(ring.on_push(true), Action::SubmitAndWait);
    assert_eq!(ring.peak_in_flight(), 3);
    // The slot that completed is the one that is used again.
    let done = vec![(1u64, BLOCK as i32)];
    assert!(ring.admits(&done));
    assert_eq!(ring.on_completions(&done), Action::ReadClock);
    assert_eq!((ring.bytes(), ring.writes()), (4096, 1));
    assert_eq!(ring.on_clock(3), write(1, 3));
}

#[test]
fn depth_one_submits_one_and_waits_for_it() {
    let mut ring = WriteRing::new(&args(1, 10, None));
    for block in 0..5 {
        assert_eq!(ring.top_up(), Action::ReadClock);
        assert_eq!(ring.on_clock(0), write(0, block));
        assert_eq!(ring.on_push(true), Action::SubmitAndWait);
        assert_eq!(
            ring.on_completions(&vec![(0, BLOCK as i32)]),
            Action::ReadClock
        );
    }
    assert_eq!(ring.peak_in_flight(), 1);
    assert_eq!(ring.bytes(), 5 * 4096);
}

#[test]
fn a_full_submission_queue_is_drained_first() {
    let mut ring = WriteRing::new(&args(2, 10, None));
    assert_eq!(ring.top_up(), Action::ReadClock);
    assert_eq!(ring.on_clock(0), write(0, 0));
    assert_eq!(ring.on_push(true), Action::ReadClock);
    assert_eq!(ring.on_clock(0), write(1, 1));
    assert_eq!(ring.on_push(false), Action::SubmitAndWait);
    assert_eq!(ring.peak_in_flight(), 1);
    // The refused write is offered again, at its offset.
    assert_eq!(
        ring.on_completions(&vec![(0, BLOCK as i32)]),
        Action::ReadClock
    );
    assert_eq!(ring.on_clock(0), write(0, 1));
}

#[test]
fn a_queue_that_refuses_with_nothing_in_flight_ends_the_run() {
    let mut ring = WriteRing::new(&args(2, 10, None));
    assert_eq!(ring.top_up(), Action::ReadClock);
    assert_eq!(ring.on_clock(0), write(0, 0));
    assert_eq!(ring.on_push(false), Action::Finish);
    assert_eq!(ring.bytes(), 0);
}

#[test]
fn time_ends_the_run_once_nothing_is_in_flight() {
    let mut ring = WriteRing::new(&args(2, 1, None));
    assert_eq!(ring.top_up(), Action::ReadClock);
    assert_eq!(ring.on_clock(999_999_999), write(0, 0));
    assert_eq!(ring.on_push(true), Action::ReadClock);
    assert_eq!(ring.on_clock(1_000_000_000), Action::SubmitAndWait);
    assert_eq!(
        ring.on_completions(&vec![(0, BLOCK as i32)]),
        Action::ReadClock
    );
    assert_eq!(ring.on_clock(1_000_000_001), Action::Finish);
    assert_eq!((ring.bytes(), ring.writes(), ring.peak_in_flight()), (4096, 1, 1));
}

#[test]
fn no_time_at_all_writes_nothing() {
    let mut ring = WriteRing::new(&args(2, 0, None));
    assert_eq!(ring.top_up(), Action::ReadClock);
    assert_eq!(ring.on_clock(0), Action::Finish);
    assert_eq!((ring.bytes(), ring.writes(), ring.peak_in_flight()), (0, 0, 0));
}

#[test]
fn the_cap_stops_at_the_block_that_reaches_it() {
    // 10000 bytes take three blocks.
    let mut ring = WriteRing::new(&args(8, 10, Some(10000)));
    assert_eq!(ring.top_up(), Action::ReadClock);
    for block in 0..3 {
        assert_eq!(ring.on_clock(0), write(block as usize, block));
        assert!(ring.can_push());
        assert_eq!(ring.on_push(true), Action::ReadClock);
    }
    assert!(!ring.can_push());
    assert_eq!(ring.on_clock(0), Action::SubmitAndWait);
    let n = BLOCK as i32;
    assert_eq!(
        ring.on_completions(&vec![(2, n), (0, n), (1, n)]),
        Action::ReadClock
    );
    assert_eq!(ring.on_clock(0), Action::Finish);
    assert_eq!(ring.bytes(), 12288);
}

#[test]
fn a_failed_write_ends_the_run() {
    let mut ring = WriteRing::new(&args(2, 10, None));
    ring.top_up();
    ring.on_clock(0);
    ring.on_push(true);
    ring.on_clock(0);
    ring.on_push(true);
    let done = vec![(1, BLOCK as i32), (0, -28)];
    assert!(ring.admits(&done));
    assert_eq!(ring.on_completions(&done), Action::Fail(WriteError::Os(28)));
    assert_eq!((ring.bytes(), ring.writes()), (4096, 1));
}

#[test]
fn a_failed_run_waits_for_the_other_writes() {
    let mut ring = WriteRing::new(&args(3, 10, None));
    ring.top_up();
    for _ in 0..3 {
        ring.on_clock(0);
        ring.on_push(true);
    }
    assert_eq!(ring.on_completions(&vec![(1, -5)]), Action::SubmitAndWait);
    // A slot is free, and yet nothing more is submitted.
    assert!(!ring.can_push());
    // The first error is the one that counts.
    assert_eq!(ring.on_completions(&vec![(0, 512)]), Action::SubmitAndWait);
    assert_eq!(
        ring.on_completions(&vec![(2, BLOCK as i32)]),
        Action::Fail(WriteError::Os(5))
    );
    assert_eq!((ring.bytes(), ring.writes(), ring.peak_in_flight()), (4096, 1, 3));
}

#[test]
fn a_short_write_ends_the_run() {
    let mut ring = WriteRing::new(&args(1, 10, None));
    ring.top_up();
    ring.on_clock(0);
    ring.on_push(true);
    assert_eq!(
        ring.on_completions(&vec![(0, 512)]),
        Action::Fail(WriteError::Short {
            written: 512,
            expected: 4096
        })
    );
    assert_eq!(
        short_write_message(512, 4096),
        "short write: 512 of 4096 bytes"
    );
}

#[test]
fn completions_that_no_submission_explains_are_not_admitted() {
    let mut ring = WriteRing::new(&args(2, 10, None));
    let n = BLOCK as i32;
    assert!(ring.admits(&vec![]));
    assert!(!ring.admits(&vec![(0, n)]));
    ring.top_up();
    ring.on_clock(0);
    ring.on_push(true);
    assert!(ring.admits(&vec![(0, n)]));
    assert!(!ring.admits(&vec![(1, n)]));
    assert!(!ring.admits(&vec![(2, n)]));
    assert!(!ring.admits(&vec![(0, n), (0, n)]));
    assert!(!ring.admits(&vec![(0, i32::MIN)]));
    assert!(ring.admits(&vec![(0, -5)]));
    assert!(!ring.admits(&vec![(9, -5)]));
}

#[test]
fn the_longest_block_is_asked_for_whole() {
    let mut a = args(2, 10, None);
    a.block_size = (1 << 32) - 4096;
    assert!(block_fits_ring(&a));
    let mut ring = WriteRing::new(&a);
    ring.top_up();
    assert_eq!(
        ring.on_clock(0),
        Action::Push(WriteRequest {
            slot: 0,
            offset: 0,
            len: 4_294_963_200
        })
    );
    assert!(ring.can_push());
    ring.on_push(true);
    assert_eq!(
        ring.on_clock(0),
        Action::Push(WriteRequest {
            slot: 1,
            offset: 4_294_963_200,
            len: 4_294_963_200
        })
    );
    a.block_size = 1 << 32;
    assert!(!block_fits_ring(&a));
}

#[test]
fn a_run_without_a_write_takes_any_block() {
    for (duration, max_bytes) in [(0, None), (10, Some(0))] {
        let mut a = args(2, duration, max_bytes);
        a.block_size = 1 << 40;
        assert!(block_fits_ring(&a));
        let mut ring = WriteRing::new(&a);
        assert!(!ring.can_push());
        assert_eq!(ring.top_up(), Action::ReadClock);
        assert_eq!(ring.on_clock(0), Action::Finish);
        assert_eq!((ring.bytes(), ring.writes(), ring.peak_in_flight()), (0, 0, 0));
    }
}

#[test]
fn completions_commute() {
    let n = BLOCK as i32;
    let mut totals = Vec::new();
    for done in [vec![(0, n), (1, n)], vec![(1, n), (0, n)]] {
        let mut ring = WriteRing::new(&args(2, 10, None));
        ring.top_up();
        ring.on_clock(0);
        ring.on_push(true);
        ring.on_clock(0);
        ring.on_push(true);
        ring.on_completions(&done);
        totals.push((ring.bytes(), ring.writes(), ring.peak_in_flight()));
    }
    assert_eq!(totals[0], totals[1]);
}

/// Runs the loop against a made-up kernel, which fails one write in `failing`, if that is not
/// zero, and may refuse writes while any is in flight. Gives back how it ended.
fn simulate(a: &Args, failing: u64, refusing: bool, seed: &mut u64) -> (WriteRing, Action) {
    let depth = a.queue_depth;
    let mut ring = WriteRing::new(a);
    let mut in_flight: Vec<(usize, u64)> = Vec::new();
    let mut offsets: Vec<u64> = Vec::new();
    let mut now: u128 = 0;
    let mut peak = 0;
    let mut good = 0;
    let mut first_error = None;
    let mut action = ring.top_up();
    loop {
        *seed ^= *seed << 13;
        *seed ^= *seed >> 7;
        *seed ^= *seed << 17;
        action = match action {
            Action::ReadClock => {
                assert_eq!(first_error, None);
                now += (*seed % 5_000_000) as u128;
                ring.on_clock(now)
            }
            Action::Push(w) => {
                assert!(now < a.duration as u128 * 1_000_000_000);
                assert!(w.slot < depth);
                assert!(in_flight.iter().all(|(slot, _)| *slot != w.slot));
                assert_eq!(w.len, 4096);
                assert_eq!(w.offset % 4096, 0);
                let accepted = !refusing || in_flight.is_empty() || *seed % 7 != 0;
                if accepted {
                    in_flight.push((w.slot, w.offset));
                    offsets.push(w.offset);
                }
                ring.on_push(accepted)
            }
            Action::SubmitAndWait => {
                assert!(!in_flight.is_empty() && in_flight.len() <= depth);
                peak = peak.max(in_flight.len());
                let count = 1 + (*seed as usize) % in_flight.len();
                let mut done = Vec::new();
                for k in 0..count {
                    let at = (*seed as usize >> k) % in_flight.len();
                    let slot = in_flight.swap_remove(at).0 as u64;
                    let fails = failing != 0 && (*seed >> (k % 32)) % failing == 0;
                    if fails {
                        let code = 1 + (*seed % 100) as i32;
                        first_error = first_error.or(Some(WriteError::Os(code)));
                        done.push((slot, -code));
                    } else {
                        good += 1;
                        done.push((slot, BLOCK as i32));
                    }
                }
                assert!(ring.admits(&done));
                ring.on_completions(&done)
            }
            Action::Finish | Action::Fail(_) => break,
        };
    }
    assert!(in_flight.is_empty());
    assert_eq!(ring.peak_in_flight(), peak);
    assert_eq!(ring.writes(), good);
    assert_eq!(ring.bytes(), good * 4096);
    for (k, offset) in offsets.iter().enumerate() {
        assert_eq!(*offset, k as u64 * 4096);
    }
    match first_error {
        Some(e) => assert_eq!(action, Action::Fail(e)),
        None => {
            assert_eq!(action, Action::Finish);
            assert_eq!(good as usize, offsets.len());
            if !refusing {
                assert_eq!(peak, depth.min(offsets.len()));
            }
        }
    }
    (ring, action)
}

#[test]
fn simulated_runs_keep_buffers_apart() {
    let mut seed: u64 = 0x2545_f491_4f6c_dd1d;
    for depth in [1, 2, 3, 8, 31] {
        for cap in [None, Some(1), Some(4096), Some(100_000)] {
            for refusing in [false, true] {
                let (ring, _) = simulate(&args(depth, 1, cap), 0, refusing, &mut seed);
                if let Some(cap) = cap {
                    assert!(ring.bytes() < cap + 4096);
                }
            }
        }
    }
}

#[test]
fn simulated_failures_leave_nothing_in_flight() {
    let mut seed: u64 = 0x2545_f491_4f6c_dd1d;
    let mut failed = 0;
    for depth in [1, 2, 3, 8, 31] {
        for failing in [2, 5, 50] {
            for _ in 0..10 {
                let (_, action) = simulate(&args(depth, 1, None), failing, true, &mut seed);
                if matches!(action, Action::Fail(_)) {
                    failed += 1;
                }
            }
        }
    }
    assert!(failed > 100);
}

#[test]
fn both_loops_write_the_same_under_one_cap() {
    let mut seed: u64 = 0x2545_f491_4f6c_dd1d;
    for cap in [0, 1, 4095, 4096, 4097, 100_000, 409_600] {
        let blocks = (cap + 4095) / 4096;
        let mut sync = SyncWriter::new(&args(1, 1, Some(cap)));
        while sync.next(0).is_some() {
            sync.on_written();
        }
        assert_eq!((sync.writes(), sync.bytes()), (blocks, blocks * 4096));
        for depth in [1, 2, 7, 64] {
            for refusing in [false, true] {
                let (ring, _) = simulate(&args(depth, 1000, Some(cap)), 0, refusing, &mut seed);
                assert_eq!((ring.writes(), ring.bytes()), (sync.writes(), sync.bytes()));
            }
        }
    }
}

#[test]
fn the_peak_is_the_depth_or_all_writes() {
    let mut seed: u64 = 0x2545_f491_4f6c_dd1d;
    for (depth, cap, peak) in [(4, 12288, 3), (3, 12288, 3), (2, 12288, 2), (4, 0, 0)] {
        let (ring, _) = simulate(&args(depth, 1000, Some(cap)), 0, false, &mut seed);
        assert_eq!(ring.peak_in_flight(), peak);
    }
}

#[test]
fn ring_sizes() {
    let table = [
        (1, 2),
        (2, 2),
        (3, 4),
        (4, 4),
        (5, 8),
        (32, 32),
        (33, 64),
        ((1 << 30) + 1, 1 << 31),
        (1 << 31, 1 << 31),
    ];
    for (depth, entries) in table {
        assert!(depth_fits_ring(&args(depth, 1, None)));
        assert_eq!(ring_entries(depth), entries);
        assert_eq!(ring_entries(depth) as usize, depth.next_power_of_two().max(2));
    }
    assert_eq!(MAX_RING_ENTRIES, 1 << 31);
    assert!(!depth_fits_ring(&args((1 << 31) + 1, 1, None)));
}
