//! What a run measured, and how it is reported.

use crate::args::Args;
use crate::mode::Mode;
use crate::number::{is_digit, lemma_decimal_value};
use crate::size::{human, human_bytes};
use crate::text::{decimal, decimal_text, line, line_if};
use vstd::prelude::*;
use vstd::string::*;

verus! {

/// What a run measured. Times are in nanoseconds.
#[derive(Clone, Copy, PartialEq, Eq, Debug)]
pub struct Stats {
    pub bytes: u64,
    pub writes: u64,
    pub elapsed: u128,
    pub fsync_time: Option<u128>,
    /// Highest number of writes observed simultaneously in flight. If this stays
    /// at 1 while --queue-depth is higher, submissions are not overlapping.
    pub peak_in_flight: usize,
}

/// When a flush began and ended, in nanoseconds since the start of the run.
#[derive(Clone, Copy, PartialEq, Eq, Debug)]
pub struct Flush {
    pub began: u128,
    pub ended: u128,
}

/// What ends the measured window.
#[derive(Clone, Copy, PartialEq, Eq, Debug, Structural)]
pub enum Closing {
    /// Flush the file, then stop the clock.
    FlushFirst,
    /// Stop the clock.
    StopClock,
}

/// Whether the file is flushed before the clock stops.
#[verifier::allow_in_spec]
pub fn closing(args: &Args) -> (r: Closing)
    ensures
        r == (if args.fsync {
            Closing::FlushFirst
        } else {
            Closing::StopClock
        }),
    returns
        (if args.fsync {
            Closing::FlushFirst
        } else {
            Closing::StopClock
        }),
{
    if args.fsync {
        Closing::FlushFirst
    } else {
        Closing::StopClock
    }
}

/// Optionally fsync, then stop the clock. When `--fsync` is set the flush is
/// inside the measured window, because a buffered run that skips it is only
/// reporting the rate of filling the page cache, not of reaching the device.
///
/// The flush has been done where the run asks for it, and `now` is the clock behind it.
#[verifier::allow_in_spec]
pub fn finish(
    args: &Args,
    bytes: u64,
    writes: u64,
    peak_in_flight: usize,
    flush: Option<Flush>,
    now: u128,
) -> (r: Stats)
    requires
        flush is Some <==> args.fsync,
        flush matches Some(f) ==> f.began <= f.ended <= now,
    ensures
        r.bytes == bytes,
        r.writes == writes,
        r.peak_in_flight == peak_in_flight,
        r.elapsed == now,
        r.fsync_time is Some <==> args.fsync,
        flush matches Some(f) ==> r.fsync_time == Some((f.ended - f.began) as u128),
        r.fsync_time matches Some(t) ==> t <= r.elapsed,
    returns
        (Stats {
            bytes,
            writes,
            elapsed: now,
            fsync_time: match flush {
                Some(f) => Some((f.ended - f.began) as u128),
                None => None,
            },
            peak_in_flight,
        }),
{
    let fsync_time = match flush {
        Some(f) => Some(f.ended - f.began),
        None => None,
    };
    Stats { bytes, writes, elapsed: now, fsync_time, peak_in_flight }
}

/// The figures of a report that are computed in floating point, as they are printed.
#[derive(Clone, PartialEq, Eq, Debug)]
pub struct Figures {
    /// Seconds, to three places.
    pub elapsed: String,
    /// GiB/s, GB/s and Gb/s, to two places.
    pub gib_s: String,
    pub gb_s: String,
    pub gbit_s: String,
    /// Writes per second.
    pub iops: String,
    /// Milliseconds per write, to three places.
    pub latency: String,
    /// Seconds of the flush, to three places.
    pub fsync: String,
}

/// The writes that the average latency is taken over: at least one.
#[verifier::allow_in_spec]
pub fn latency_writes(writes: u64) -> (r: u64)
    ensures
        r == (if writes == 0 {
            1
        } else {
            writes as int
        }),
    returns
        (if writes == 0 {
            1u64
        } else {
            writes
        }),
{
    if writes == 0 {
        1
    } else {
        writes
    }
}

/// Whether the report warns that the writes never overlapped.
pub open spec fn never_overlapped(args: Args, s: Stats) -> bool {
    args.mode.on_ring() && args.queue_depth > 1 && s.peak_in_flight <= 1
}

/// Whether the report notes that the page cache was measured rather than the device.
pub open spec fn measured_cache(args: Args) -> bool {
    !args.mode.bypasses_cache() && !args.fsync
}

/// The lines up to the number of writes.
pub open spec fn totals(s: Stats, f: Figures) -> Seq<char> {
    "results\n  elapsed      : "@ + f.elapsed@ + " s\n  written      : "@ + human(s.bytes as nat)
        + " ("@ + decimal(s.bytes as nat) + " bytes)\n  writes       : "@ + decimal(
        s.writes as nat,
    ) + "\n"@
}

/// The lines on throughput.
pub open spec fn rates(f: Figures) -> Seq<char> {
    "  throughput   : "@ + f.gib_s@ + " GiB/s  ("@ + f.gb_s@ + " GB/s, "@ + f.gbit_s@
        + " Gb/s)\n  IOPS         : "@ + f.iops@ + "\n"@
}

/// The lines on concurrency and latency.
pub open spec fn overlap(args: Args, s: Stats, f: Figures) -> Seq<char> {
    "  peak in-flgt : "@ + decimal(s.peak_in_flight as nat) + " of "@ + decimal(
        args.queue_depth as nat,
    ) + " requested\n"@ + (if never_overlapped(args, s) {
        "  WARNING: writes never overlapped -- submissions are serializing\n"@
    } else {
        ""@
    }) + "  avg latency  : "@ + f.latency@ + " ms/write (queue depth "@ + decimal(
        args.queue_depth as nat,
    ) + ")\n"@
}

/// The line on the flush, where there was one.
pub open spec fn flush_line(s: Stats, f: Figures) -> Seq<char> {
    if s.fsync_time is Some {
        "  fsync        : "@ + f.fsync@ + " s (included above)\n"@
    } else {
        ""@
    }
}

/// The note on the page cache, where it was measured.
pub open spec fn cache_note(args: Args) -> Seq<char> {
    if measured_cache(args) {
        "\n  note: buffered mode without --fsync measures the rate of filling the\n        page cache, not of reaching the device. Add --fsync to compare\n        against O_DIRECT on equal terms.\n"@
    } else {
        ""@
    }
}

/// The report of a run.
pub open spec fn report_text(args: Args, s: Stats, f: Figures) -> Seq<char> {
    totals(s, f) + rates(f) + overlap(args, s, f) + flush_line(s, f) + cache_note(args)
}

fn write_totals(s: &Stats, f: &Figures) -> (r: String)
    ensures
        r@ == totals(*s, *f),
{
    let mut r = "results\n  elapsed      : ".to_owned();
    r.append(f.elapsed.as_str());
    r.append(" s\n  written      : ");
    r.append(human_bytes(s.bytes).as_str());
    r.append(" (");
    r.append(decimal_text(s.bytes).as_str());
    r.append(" bytes)\n  writes       : ");
    r.append(decimal_text(s.writes).as_str());
    r.append("\n");
    r
}

fn write_rates(f: &Figures) -> (r: String)
    ensures
        r@ == rates(*f),
{
    let mut r = "  throughput   : ".to_owned();
    r.append(f.gib_s.as_str());
    r.append(" GiB/s  (");
    r.append(f.gb_s.as_str());
    r.append(" GB/s, ");
    r.append(f.gbit_s.as_str());
    r.append(" Gb/s)\n  IOPS         : ");
    r.append(f.iops.as_str());
    r.append("\n");
    r
}

fn write_overlap(args: &Args, s: &Stats, f: &Figures) -> (r: String)
    ensures
        r@ == overlap(*args, *s, *f),
{
    let mut r = "  peak in-flgt : ".to_owned();
    r.append(decimal_text(s.peak_in_flight as u64).as_str());
    r.append(" of ");
    r.append(decimal_text(args.queue_depth as u64).as_str());
    r.append(" requested\n");
    r.append(
        if args.mode.uses_uring() && args.queue_depth > 1 && s.peak_in_flight <= 1 {
            "  WARNING: writes never overlapped -- submissions are serializing\n"
        } else {
            ""
        },
    );
    r.append("  avg latency  : ");
    r.append(f.latency.as_str());
    r.append(" ms/write (queue depth ");
    r.append(decimal_text(args.queue_depth as u64).as_str());
    r.append(")\n");
    r
}

/// The report of a run, with its figures as they are printed.
pub fn report(args: &Args, s: &Stats, f: &Figures) -> (r: String)
    ensures
        r@ == report_text(*args, *s, *f),
{
    let mut r = write_totals(s, f);
    r.append(write_rates(f).as_str());
    r.append(write_overlap(args, s, f).as_str());
    let mut flush = "".to_owned();
    if s.fsync_time.is_some() {
        flush = "  fsync        : ".to_owned();
        flush.append(f.fsync.as_str());
        flush.append(" s (included above)\n");
    }
    r.append(flush.as_str());
    r.append(
        if !args.mode.needs_direct_fd() && !args.fsync {
            "\n  note: buffered mode without --fsync measures the rate of filling the\n        page cache, not of reaching the device. Add --fsync to compare\n        against O_DIRECT on equal terms.\n"
        } else {
            ""
        },
    );
    r
}

/// The report carries the note on the page cache exactly for the modes that go through it
/// without a flush.
pub proof fn law_cache_is_noted_without_flush(args: Args)
    ensures
        cache_note(args) != ""@ <==> (args.mode == Mode::Uring || args.mode == Mode::Buffered)
            && !args.fsync,
{
    reveal_strlit("");
    reveal_strlit(
        "\n  note: buffered mode without --fsync measures the rate of filling the\n        page cache, not of reaching the device. Add --fsync to compare\n        against O_DIRECT on equal terms.\n",
    );
    if measured_cache(args) {
        assert(cache_note(args).len() > 0);
    }
}

proof fn lemma_totals_by_lines(s: Stats, f: Figures)
    ensures
        totals(s, f) == line("results"@) + line("  elapsed      : "@ + f.elapsed@ + " s"@) + line(
            "  written      : "@ + human(s.bytes as nat) + " ("@ + decimal(s.bytes as nat)
                + " bytes)"@,
        ) + line("  writes       : "@ + decimal(s.writes as nat)),
{
    reveal_strlit("results\n  elapsed      : ");
    reveal_strlit("results");
    reveal_strlit("  elapsed      : ");
    reveal_strlit(" s\n  written      : ");
    reveal_strlit(" s");
    reveal_strlit("  written      : ");
    reveal_strlit(" bytes)\n  writes       : ");
    reveal_strlit(" bytes)");
    reveal_strlit("  writes       : ");
    reveal_strlit("\n");
    assert("results\n  elapsed      : "@ =~= line("results"@) + "  elapsed      : "@);
    assert(" s\n  written      : "@ =~= line(" s"@) + "  written      : "@);
    assert(" bytes)\n  writes       : "@ =~= line(" bytes)"@) + "  writes       : "@);
    assert("\n"@ =~= seq!['\n']);
    let a = f.elapsed@;
    let h = human(s.bytes as nat);
    let b = decimal(s.bytes as nat);
    let w = decimal(s.writes as nat);
    assert(line("  elapsed      : "@ + a + " s"@) =~= "  elapsed      : "@ + a + line(" s"@));
    let written = "  written      : "@ + h + " ("@ + b;
    assert(line(written + " bytes)"@) =~= written + line(" bytes)"@));
    assert(line("  writes       : "@ + w) =~= "  writes       : "@ + w + "\n"@);
    assert(totals(s, f) =~= line("results"@) + ("  elapsed      : "@ + a + line(" s"@)) + (written
        + line(" bytes)"@)) + ("  writes       : "@ + w + "\n"@));
}

proof fn lemma_rates_by_lines(f: Figures)
    ensures
        rates(f) == line(
            "  throughput   : "@ + f.gib_s@ + " GiB/s  ("@ + f.gb_s@ + " GB/s, "@ + f.gbit_s@
                + " Gb/s)"@,
        ) + line("  IOPS         : "@ + f.iops@),
{
    reveal_strlit(" Gb/s)\n  IOPS         : ");
    reveal_strlit(" Gb/s)");
    reveal_strlit("  IOPS         : ");
    reveal_strlit("\n");
    assert(" Gb/s)\n  IOPS         : "@ =~= line(" Gb/s)"@) + "  IOPS         : "@);
    assert("\n"@ =~= seq!['\n']);
    let head = "  throughput   : "@ + f.gib_s@ + " GiB/s  ("@ + f.gb_s@ + " GB/s, "@ + f.gbit_s@;
    assert(line(head + " Gb/s)"@) =~= head + line(" Gb/s)"@));
    assert(line("  IOPS         : "@ + f.iops@) =~= "  IOPS         : "@ + f.iops@ + "\n"@);
    assert(rates(f) =~= (head + line(" Gb/s)"@)) + ("  IOPS         : "@ + f.iops@ + "\n"@));
}

proof fn lemma_overlap_by_lines(args: Args, s: Stats, f: Figures)
    ensures
        overlap(args, s, f) == line(
            "  peak in-flgt : "@ + decimal(s.peak_in_flight as nat) + " of "@ + decimal(
                args.queue_depth as nat,
            ) + " requested"@,
        ) + line_if(
            (args.mode == Mode::Direct || args.mode == Mode::Uring) && args.queue_depth > 1
                && s.peak_in_flight <= 1,
            "  WARNING: writes never overlapped -- submissions are serializing"@,
        ) + line(
            "  avg latency  : "@ + f.latency@ + " ms/write (queue depth "@ + decimal(
                args.queue_depth as nat,
            ) + ")"@,
        ),
{
    reveal_strlit("");
    reveal_strlit(" requested\n");
    reveal_strlit(" requested");
    reveal_strlit(")\n");
    reveal_strlit(")");
    reveal_strlit("  WARNING: writes never overlapped -- submissions are serializing\n");
    reveal_strlit("  WARNING: writes never overlapped -- submissions are serializing");
    assert(" requested\n"@ =~= line(" requested"@));
    assert(")\n"@ =~= line(")"@));
    assert("  WARNING: writes never overlapped -- submissions are serializing\n"@ =~= line(
        "  WARNING: writes never overlapped -- submissions are serializing"@,
    ));
    assert(""@ =~= Seq::<char>::empty());
    let q = decimal(args.queue_depth as nat);
    let peak = "  peak in-flgt : "@ + decimal(s.peak_in_flight as nat) + " of "@ + q;
    let latency = "  avg latency  : "@ + f.latency@ + " ms/write (queue depth "@ + q;
    let warning = if never_overlapped(args, s) {
        "  WARNING: writes never overlapped -- submissions are serializing\n"@
    } else {
        ""@
    };
    assert(line(peak + " requested"@) =~= peak + line(" requested"@));
    assert(line(latency + ")"@) =~= latency + line(")"@));
    assert(overlap(args, s, f) =~= (peak + line(" requested"@)) + warning + (latency + line(")"@)));
}

proof fn lemma_flush_by_lines(s: Stats, f: Figures)
    ensures
        flush_line(s, f) == line_if(
            s.fsync_time is Some,
            "  fsync        : "@ + f.fsync@ + " s (included above)"@,
        ),
{
    reveal_strlit("");
    reveal_strlit(" s (included above)\n");
    reveal_strlit(" s (included above)");
    assert(""@ =~= Seq::<char>::empty());
    assert(" s (included above)\n"@ =~= line(" s (included above)"@));
    let head = "  fsync        : "@ + f.fsync@;
    assert(line(head + " s (included above)"@) =~= head + line(" s (included above)"@));
}

/// The note on the page cache, line by line.
pub open spec fn note_lines() -> Seq<char> {
    line(Seq::<char>::empty()) + line(
        "  note: buffered mode without --fsync measures the rate of filling the"@,
    ) + line("        page cache, not of reaching the device. Add --fsync to compare"@) + line(
        "        against O_DIRECT on equal terms."@,
    )
}

proof fn lemma_note_by_lines()
    ensures
        "\n  note: buffered mode without --fsync measures the rate of filling the\n        page cache, not of reaching the device. Add --fsync to compare\n        against O_DIRECT on equal terms.\n"@
            == note_lines(),
{
    reveal_strlit(
        "\n  note: buffered mode without --fsync measures the rate of filling the\n        page cache, not of reaching the device. Add --fsync to compare\n        against O_DIRECT on equal terms.\n",
    );
    reveal_strlit("  note: buffered mode without --fsync measures the rate of filling the");
    reveal_strlit("        page cache, not of reaching the device. Add --fsync to compare");
    reveal_strlit("        against O_DIRECT on equal terms.");
    assert("\n  note: buffered mode without --fsync measures the rate of filling the\n        page cache, not of reaching the device. Add --fsync to compare\n        against O_DIRECT on equal terms.\n"@
        =~= note_lines());
}

/// The report, line by line: which figure stands where, when the writes are said never to have
/// overlapped, when the flush has a line, and when the page cache is noted.
pub proof fn law_report_line_by_line(args: Args, s: Stats, f: Figures)
    ensures
        report_text(args, s, f) == line("results"@) + line(
            "  elapsed      : "@ + f.elapsed@ + " s"@,
        ) + line(
            "  written      : "@ + human(s.bytes as nat) + " ("@ + decimal(s.bytes as nat)
                + " bytes)"@,
        ) + line("  writes       : "@ + decimal(s.writes as nat)) + line(
            "  throughput   : "@ + f.gib_s@ + " GiB/s  ("@ + f.gb_s@ + " GB/s, "@ + f.gbit_s@
                + " Gb/s)"@,
        ) + line("  IOPS         : "@ + f.iops@) + line(
            "  peak in-flgt : "@ + decimal(s.peak_in_flight as nat) + " of "@ + decimal(
                args.queue_depth as nat,
            ) + " requested"@,
        ) + line_if(
            (args.mode == Mode::Direct || args.mode == Mode::Uring) && args.queue_depth > 1
                && s.peak_in_flight <= 1,
            "  WARNING: writes never overlapped -- submissions are serializing"@,
        ) + line(
            "  avg latency  : "@ + f.latency@ + " ms/write (queue depth "@ + decimal(
                args.queue_depth as nat,
            ) + ")"@,
        ) + line_if(
            s.fsync_time is Some,
            "  fsync        : "@ + f.fsync@ + " s (included above)"@,
        ) + (if (args.mode == Mode::Uring || args.mode == Mode::Buffered) && !args.fsync {
            note_lines()
        } else {
            Seq::<char>::empty()
        }),
{
    lemma_totals_by_lines(s, f);
    lemma_rates_by_lines(f);
    lemma_overlap_by_lines(args, s, f);
    lemma_flush_by_lines(s, f);
    lemma_note_by_lines();
    reveal_strlit("");
    assert(""@ =~= Seq::<char>::empty());
    let t1 = line("results"@);
    let t2 = line("  elapsed      : "@ + f.elapsed@ + " s"@);
    let t3 = line(
        "  written      : "@ + human(s.bytes as nat) + " ("@ + decimal(s.bytes as nat) + " bytes)"@,
    );
    let t4 = line("  writes       : "@ + decimal(s.writes as nat));
    let r1 = line(
        "  throughput   : "@ + f.gib_s@ + " GiB/s  ("@ + f.gb_s@ + " GB/s, "@ + f.gbit_s@
            + " Gb/s)"@,
    );
    let r2 = line("  IOPS         : "@ + f.iops@);
    let o1 = line(
        "  peak in-flgt : "@ + decimal(s.peak_in_flight as nat) + " of "@ + decimal(
            args.queue_depth as nat,
        ) + " requested"@,
    );
    let o2 = line_if(
        (args.mode == Mode::Direct || args.mode == Mode::Uring) && args.queue_depth > 1
            && s.peak_in_flight <= 1,
        "  WARNING: writes never overlapped -- submissions are serializing"@,
    );
    let o3 = line(
        "  avg latency  : "@ + f.latency@ + " ms/write (queue depth "@ + decimal(
            args.queue_depth as nat,
        ) + ")"@,
    );
    lemma_regroup(t1 + t2 + t3 + t4, r1, r2, o1, o2, o3);
}

proof fn lemma_regroup(
    a: Seq<char>,
    b: Seq<char>,
    c: Seq<char>,
    d: Seq<char>,
    e: Seq<char>,
    g: Seq<char>,
)
    ensures
        a + (b + c) + (d + e + g) == a + b + c + d + e + g,
{
    assert(a + (b + c) =~= a + b + c);
    let x = a + b + c;
    assert(x + (d + e + g) =~= x + d + e + g);
}

proof fn lemma_number_is_read_back(x: Seq<char>, m: nat, y: Seq<char>, n: nat, z: Seq<char>)
    requires
        x + decimal(m) + y == x + decimal(n) + z,
        y.len() > 0 && !is_digit(y[0]),
        z.len() > 0 && !is_digit(z[0]),
    ensures
        m == n,
{
    let a = decimal(m);
    let b = decimal(n);
    let s = x + a + y;
    let t = x + b + z;
    lemma_decimal_value(m);
    lemma_decimal_value(n);
    assert(s[(x.len() + a.len()) as int] == y[0]);
    assert(t[(x.len() + b.len()) as int] == z[0]);
    if a.len() < b.len() {
        assert(t[(x.len() + a.len()) as int] == b[a.len() as int]);
    } else if b.len() < a.len() {
        assert(s[(x.len() + b.len()) as int] == a[b.len() as int]);
    } else {
        assert forall|i: int| 0 <= i < a.len() implies a[i] == b[i] by {
            assert(s[x.len() + i] == a[i]);
            assert(t[x.len() + i] == b[i]);
        }
        assert(a =~= b);
    }
}

/// The measured peak can be read back from the report: two reports that agree, of runs that
/// agree in all but the peak, agree in the peak too.
pub proof fn law_peak_can_be_read_back(args: Args, s: Stats, f: Figures, peak: usize)
    requires
        report_text(args, s, f) == report_text(args, (Stats { peak_in_flight: peak, ..s }), f),
    ensures
        peak == s.peak_in_flight,
{
    let t = Stats { peak_in_flight: peak, ..s };
    let x = totals(s, f) + rates(f) + "  peak in-flgt : "@;
    let y = lemma_report_around_peak(args, s, f);
    let z = lemma_report_around_peak(args, t, f);
    assert(totals(t, f) == totals(s, f));
    lemma_number_is_read_back(x, s.peak_in_flight as nat, y, peak as nat, z);
}

/// The number of writes can be read back from the report, in the same way.
pub proof fn law_writes_can_be_read_back(args: Args, s: Stats, f: Figures, writes: u64)
    requires
        report_text(args, s, f) == report_text(args, (Stats { writes, ..s }), f),
    ensures
        writes == s.writes,
{
    let u = Stats { writes, ..s };
    let x = front_of_writes(s, f);
    let y = lemma_report_around_writes(args, s, f);
    let z = lemma_report_around_writes(args, u, f);
    assert(front_of_writes(u, f) == x);
    lemma_number_is_read_back(x, s.writes as nat, y, writes as nat, z);
}

/// The report up to the number of writes.
spec fn front_of_writes(s: Stats, f: Figures) -> Seq<char> {
    "results\n  elapsed      : "@ + f.elapsed@ + " s\n  written      : "@ + human(s.bytes as nat)
        + " ("@ + decimal(s.bytes as nat) + " bytes)\n  writes       : "@
}

proof fn lemma_report_around_writes(args: Args, s: Stats, f: Figures) -> (y: Seq<char>)
    ensures
        report_text(args, s, f) == front_of_writes(s, f) + decimal(s.writes as nat) + y,
        y.len() > 0 && y[0] == '\n',
{
    reveal_strlit("\n");
    let a = front_of_writes(s, f) + decimal(s.writes as nat);
    let (b, c, d, e) = (rates(f), overlap(args, s, f), flush_line(s, f), cache_note(args));
    assert(totals(s, f) == a + "\n"@);
    lemma_regroup_behind(a, "\n"@, b, c, d, e);
    "\n"@ + b + c + d + e
}

proof fn lemma_regroup_behind(
    a: Seq<char>,
    n: Seq<char>,
    b: Seq<char>,
    c: Seq<char>,
    d: Seq<char>,
    e: Seq<char>,
)
    ensures
        (a + n) + b + c + d + e == a + (n + b + c + d + e),
{
    assert((a + n) + b + c + d + e =~= a + (n + b + c + d + e));
}

proof fn lemma_report_around_peak(args: Args, s: Stats, f: Figures) -> (y: Seq<char>)
    ensures
        report_text(args, s, f) == totals(s, f) + rates(f) + "  peak in-flgt : "@ + decimal(
            s.peak_in_flight as nat,
        ) + y,
        y.len() > 0 && y[0] == ' ',
{
    reveal_strlit(" of ");
    let head = "  peak in-flgt : "@ + decimal(s.peak_in_flight as nat);
    let rest = " of "@ + decimal(args.queue_depth as nat) + " requested\n"@ + (if never_overlapped(
        args,
        s,
    ) {
        "  WARNING: writes never overlapped -- submissions are serializing\n"@
    } else {
        ""@
    }) + "  avg latency  : "@ + f.latency@ + " ms/write (queue depth "@ + decimal(
        args.queue_depth as nat,
    ) + ")\n"@;
    assert(overlap(args, s, f) =~= head + rest);
    let y = rest + flush_line(s, f) + cache_note(args);
    let front = totals(s, f) + rates(f);
    assert(report_text(args, s, f) =~= front + "  peak in-flgt : "@ + decimal(
        s.peak_in_flight as nat,
    ) + y);
    assert(y[0] == ' ');
    y
}

/// The file is flushed exactly where that was asked for, whatever the mode, and the flush lies
/// inside the measured window: the time of the run runs to behind it, and its own time is part
/// of that. What was counted is handed on.
pub proof fn law_flush_is_inside_the_measured_window(
    args: Args,
    bytes: u64,
    writes: u64,
    peak: usize,
    flush: Option<Flush>,
    now: u128,
)
    requires
        flush is Some <==> closing(&args) is FlushFirst,
        flush matches Some(f) ==> f.began <= f.ended <= now,
    ensures
        closing(&args) is FlushFirst <==> args.fsync,
        ({
            let s = finish(&args, bytes, writes, peak, flush, now);
            &&& s.bytes == bytes && s.writes == writes && s.peak_in_flight == peak
            &&& s.elapsed == now
            &&& s.fsync_time is Some <==> args.fsync
            &&& flush matches Some(f) ==> {
                &&& s.fsync_time->0 == f.ended - f.began
                &&& s.elapsed >= f.ended
                &&& s.fsync_time->0 + f.began <= s.elapsed
            }
        }),
{
}

/// The latency is averaged over the writes, and over one where there are none.
pub proof fn law_latency_is_over_all_writes(writes: u64)
    ensures
        latency_writes(writes) >= 1,
        writes >= 1 ==> latency_writes(writes) == writes,
        writes == 0 ==> latency_writes(writes) == 1,
{
}

} // verus!
