//! A run from the first open to the last line printed: what to do next, and what to print.
//!
//! What fails outside fails with an error of some type `E`, which the run hands on as it is.

use crate::args::{Args, MAX_RING_ENTRIES};
use crate::mode::Mode;
use crate::size::{human, human_bytes};
use crate::stats::{report, report_text, Figures, Stats};
use crate::text::{decimal, decimal_text, line};
use crate::uring::{block_fits_ring, depth_fits_ring};
use vstd::prelude::*;
use vstd::string::*;

verus! {

/// Where a run stands: what it waits for.
#[derive(Clone, Copy, PartialEq, Eq, Debug, Structural)]
pub enum Phase {
    /// The file is being created.
    Creating,
    /// The descriptor to write through is being opened.
    Opening,
    /// The filesystem is being looked up.
    Hinting,
    /// The file's blocks are being reserved.
    Reserving,
    /// The blocks are being written.
    Writing,
    /// The file is being deleted.
    Removing,
    /// Nothing is left to do.
    Ended,
}

/// What the outside reports back.
pub enum Event<E> {
    /// It is done.
    Done,
    /// It failed with this error, and the error in words.
    Failed { error: E, reason: String },
    /// The filesystem, in words.
    Hint(String),
    /// The writes are complete, with these figures.
    Wrote(Stats, Figures),
}

/// What to do next. A text is printed first.
#[derive(Clone, PartialEq, Eq, Debug)]
pub enum Action<E> {
    /// Create the file, or empty it.
    Create,
    /// Open the file a second time, with `O_DIRECT`.
    OpenDirect,
    /// Write through a second handle to the descriptor that created the file.
    OpenShared,
    /// Look up the filesystem.
    FindFilesystem,
    /// Reserve `len` bytes.
    Reserve { text: String, len: u64 },
    /// Write the blocks, on a ring or one by one.
    Write { text: String, on_ring: bool },
    /// Delete the file.
    Remove { text: String },
    /// Stop.
    End { text: String },
    /// Stop, with this error.
    Fail { error: E },
    /// Stop, with an error of the same kind as `error`, and this message.
    FailOpen { error: E, message: String },
    /// Stop before anything is done, with this message.
    Refuse { message: String },
}

/// An action, with its texts as sequences of characters.
#[verifier::ext_equal]
pub enum Answer<E> {
    Create,
    OpenDirect,
    OpenShared,
    FindFilesystem,
    Reserve { text: Seq<char>, len: nat },
    Write { text: Seq<char>, on_ring: bool },
    Remove { text: Seq<char> },
    End { text: Seq<char> },
    Fail { error: E },
    FailOpen { error: E, message: Seq<char> },
    Refuse { message: Seq<char> },
}

impl<E> View for Action<E> {
    type V = Answer<E>;

    open spec fn view(&self) -> Answer<E> {
        match *self {
            Action::Create => Answer::Create,
            Action::OpenDirect => Answer::OpenDirect,
            Action::OpenShared => Answer::OpenShared,
            Action::FindFilesystem => Answer::FindFilesystem,
            Action::Reserve { text, len } => Answer::Reserve { text: text@, len: len as nat },
            Action::Write { text, on_ring } => Answer::Write { text: text@, on_ring },
            Action::Remove { text } => Answer::Remove { text: text@ },
            Action::End { text } => Answer::End { text: text@ },
            Action::Fail { error } => Answer::Fail { error },
            Action::FailOpen { error, message } => Answer::FailOpen { error, message: message@ },
            Action::Refuse { message } => Answer::Refuse { message: message@ },
        }
    }
}

/// The message for a block that an io_uring request cannot carry.
pub open spec fn block_refusal() -> Seq<char> {
    "--block-size must be less than 4g with io_uring; try --mode direct-sync or --mode buffered"@
}

/// The message for a queue that no ring can hold.
pub open spec fn depth_refusal() -> Seq<char> {
    "--queue-depth must be at most 2147483648 with io_uring"@
}

/// Why a run is refused, if it is: the settings ask io_uring for what it cannot do.
pub open spec fn refusal(args: Args) -> Option<Seq<char>> {
    if args.mode.on_ring() && !args.block_fits_ring() {
        Some(block_refusal())
    } else if args.mode.on_ring() && !args.fits_ring() {
        Some(depth_refusal())
    } else {
        None
    }
}

/// The message for a file that cannot be opened with `O_DIRECT`.
pub open spec fn direct_open_failure(path: Seq<char>, reason: Seq<char>) -> Seq<char> {
    "cannot open "@ + path + " with O_DIRECT: "@ + reason
        + ". The filesystem may not support it (tmpfs does not); try --mode uring or --mode buffered, or a path on a real disk."@
}

/// `true` or `false`.
pub open spec fn bool_word(b: bool) -> Seq<char> {
    if b {
        "true"@
    } else {
        "false"@
    }
}

/// The lines on what is written where.
pub open spec fn target_lines(args: Args, filesystem: Seq<char>) -> Seq<char> {
    "disk write benchmark\n  path         : "@ + args.path@ + "\n  filesystem   : "@ + filesystem
        + "\n  mode         : "@ + args.mode.words() + "\n  block size   : "@ + human(
        args.block_size as nat,
    ) + " ("@ + decimal(args.block_size as nat) + " bytes)\n"@
}

/// The lines on how much is written.
pub open spec fn extent_lines(args: Args) -> Seq<char> {
    "  queue depth  : "@ + decimal(args.queue_depth as nat) + "\n  duration     : "@ + decimal(
        args.duration as nat,
    ) + "s\n"@ + cap_line(args) + "  fsync at end : "@ + bool_word(args.fsync) + "\n"@
}

/// The line on the cap, where there is one.
pub open spec fn cap_line(args: Args) -> Seq<char> {
    match args.max_bytes {
        Some(cap) => "  max bytes    : "@ + human(cap as nat) + "\n"@,
        None => ""@,
    }
}

/// The settings, as they are printed before a run.
pub open spec fn banner(args: Args, filesystem: Seq<char>) -> Seq<char> {
    target_lines(args, filesystem) + extent_lines(args)
}

/// The bytes per second to reserve for where no cap is given: 20 GiB, an optimistic rate.
pub const RESERVED_PER_SEC: u64 = 0x5_0000_0000;

/// How many bytes to reserve: the cap, or else what an optimistic rate would fill in the
/// time, at least a second's worth, so that the writes stay inside what is reserved.
pub open spec fn reservation(args: Args) -> nat {
    match args.max_bytes {
        Some(cap) => cap as nat,
        None => (if args.duration < 1 {
            1
        } else {
            args.duration as nat
        }) * (RESERVED_PER_SEC as nat),
    }
}

/// Whether the bytes to reserve can be counted, where any are to be reserved.
pub open spec fn reservation_fits(args: Args) -> bool {
    args.no_prealloc || reservation(args) <= u64::MAX
}

/// The line on a reservation that is not made.
pub open spec fn no_reservation_line() -> Seq<char> {
    "  preallocate  : disabled  <-- appends serialize on the inode lock\n"@
}

/// The line on a reservation that was made.
pub open spec fn reserved_line(len: nat) -> Seq<char> {
    "  preallocate  : "@ + human(len) + " (fallocate)\n"@
}

/// The line on a reservation that failed.
pub open spec fn unreserved_line(reason: Seq<char>) -> Seq<char> {
    "  preallocate  : FAILED ("@ + reason + ") -- appends will serialize\n"@
}

/// The line that says where the file was left.
pub open spec fn kept_line(path: Seq<char>) -> Seq<char> {
    "\noutput file kept at "@ + path + "\n"@
}

/// Whether `e` can answer what a run waits for in the phase `p`.
pub open spec fn expected<E>(p: Phase, e: Event<E>) -> bool {
    match p {
        Phase::Creating | Phase::Opening | Phase::Reserving | Phase::Removing => e is Done
            || e is Failed,
        Phase::Hinting => e is Hint,
        Phase::Writing => e is Wrote || e is Failed,
        Phase::Ended => false,
    }
}

/// How a run begins: by creating the file, unless it is refused.
pub open spec fn opening<E>(args: Args) -> (Phase, Answer<E>) {
    match refusal(args) {
        Some(message) => (Phase::Ended, Answer::Refuse { message }),
        None => (Phase::Creating, Answer::Create),
    }
}

/// How a run goes on after `e`.
pub open spec fn response<E>(args: Args, p: Phase, e: Event<E>) -> (Phase, Answer<E>) {
    match (p, e) {
        (Phase::Creating, Event::Done) => (
            Phase::Opening,
            if args.mode.bypasses_cache() {
                Answer::OpenDirect
            } else {
                Answer::OpenShared
            },
        ),
        (Phase::Opening, Event::Done) => (Phase::Hinting, Answer::FindFilesystem),
        (Phase::Opening, Event::Failed { error, reason }) => (
            Phase::Ended,
            if args.mode.bypasses_cache() {
                Answer::FailOpen { error, message: direct_open_failure(args.path@, reason@) }
            } else {
                Answer::Fail { error }
            },
        ),
        (Phase::Hinting, Event::Hint(filesystem)) => if args.no_prealloc {
            (
                Phase::Writing,
                Answer::Write {
                    text: banner(args, filesystem@) + no_reservation_line() + "\n"@,
                    on_ring: args.mode.on_ring(),
                },
            )
        } else {
            (
                Phase::Reserving,
                Answer::Reserve { text: banner(args, filesystem@), len: reservation(args) },
            )
        },
        (Phase::Reserving, Event::Done) => (
            Phase::Writing,
            Answer::Write {
                text: reserved_line(reservation(args)) + "\n"@,
                on_ring: args.mode.on_ring(),
            },
        ),
        (Phase::Reserving, Event::Failed { reason, .. }) => (
            Phase::Writing,
            Answer::Write {
                text: unreserved_line(reason@) + "\n"@,
                on_ring: args.mode.on_ring(),
            },
        ),
        (Phase::Writing, Event::Wrote(stats, figures)) => if args.keep {
            (
                Phase::Ended,
                Answer::End { text: report_text(args, stats, figures) + kept_line(args.path@) },
            )
        } else {
            (Phase::Removing, Answer::Remove { text: report_text(args, stats, figures) })
        },
        (Phase::Removing, _) => (Phase::Ended, Answer::End { text: ""@ }),
        (_, Event::Failed { error, .. }) => (Phase::Ended, Answer::Fail { error }),
        _ => (Phase::Ended, Answer::End { text: ""@ }),
    }
}

fn bool_text(b: bool) -> (r: &'static str)
    ensures
        r@ == bool_word(b),
{
    if b {
        "true"
    } else {
        "false"
    }
}

fn write_target_lines(args: &Args, filesystem: &str) -> (r: String)
    ensures
        r@ == target_lines(*args, filesystem@),
{
    let mut r = "disk write benchmark\n  path         : ".to_owned();
    r.append(args.path.as_str());
    r.append("\n  filesystem   : ");
    r.append(filesystem);
    r.append("\n  mode         : ");
    r.append(args.mode.label());
    r.append("\n  block size   : ");
    r.append(human_bytes(args.block_size as u64).as_str());
    r.append(" (");
    r.append(decimal_text(args.block_size as u64).as_str());
    r.append(" bytes)\n");
    r
}

fn write_extent_lines(args: &Args) -> (r: String)
    ensures
        r@ == extent_lines(*args),
{
    let mut cap = "".to_owned();
    if let Some(n) = args.max_bytes {
        cap = "  max bytes    : ".to_owned();
        cap.append(human_bytes(n).as_str());
        cap.append("\n");
    }
    let mut r = "  queue depth  : ".to_owned();
    r.append(decimal_text(args.queue_depth as u64).as_str());
    r.append("\n  duration     : ");
    r.append(decimal_text(args.duration).as_str());
    r.append("s\n");
    r.append(cap.as_str());
    r.append("  fsync at end : ");
    r.append(bool_text(args.fsync));
    r.append("\n");
    r
}

/// The settings, as they are printed before a run.
pub fn banner_text(args: &Args, filesystem: &str) -> (r: String)
    ensures
        r@ == banner(*args, filesystem@),
{
    let mut r = write_target_lines(args, filesystem);
    r.append(write_extent_lines(args).as_str());
    r
}

/// The message for a file that cannot be opened with `O_DIRECT`.
pub fn direct_open_message(path: &str, reason: &str) -> (r: String)
    ensures
        r@ == direct_open_failure(path@, reason@),
{
    let mut r = "cannot open ".to_owned();
    r.append(path);
    r.append(" with O_DIRECT: ");
    r.append(reason);
    r.append(
        ". The filesystem may not support it (tmpfs does not); try --mode uring or --mode buffered, or a path on a real disk.",
    );
    r
}

/// Why a run with these settings is refused, if it is.
pub fn refusal_message(args: &Args) -> (r: Option<String>)
    ensures
        match r {
            Some(message) => refusal(*args) == Some(message@),
            None => refusal(*args) is None,
        },
{
    if !args.mode.uses_uring() {
        None
    } else if !block_fits_ring(args) {
        Some(
            "--block-size must be less than 4g with io_uring; try --mode direct-sync or --mode buffered".to_owned(),
        )
    } else if !depth_fits_ring(args) {
        Some("--queue-depth must be at most 2147483648 with io_uring".to_owned())
    } else {
        None
    }
}

/// Whether the bytes to reserve can be counted, where any are to be reserved.
pub fn can_reserve(args: &Args) -> (r: bool)
    ensures
        r == reservation_fits(*args),
{
    if args.no_prealloc {
        return true;
    }
    match args.max_bytes {
        Some(_) => true,
        None => {
            let secs: u64 = if args.duration < 1 {
                1
            } else {
                args.duration
            };
            match secs.checked_mul(RESERVED_PER_SEC) {
                Some(_) => true,
                None => false,
            }
        },
    }
}

/// How many bytes to reserve before the writes.
pub fn bytes_to_reserve(args: &Args) -> (r: u64)
    requires
        reservation(*args) <= u64::MAX,
    ensures
        r == reservation(*args),
{
    match args.max_bytes {
        Some(cap) => cap,
        None => {
            let secs: u64 = if args.duration < 1 {
                1
            } else {
                args.duration
            };
            secs * RESERVED_PER_SEC
        },
    }
}

/// A run with its settings.
pub struct Session {
    args: Args,
    phase: Phase,
}

/// The settings of a run, and where it stands.
pub struct SessionView {
    pub args: Args,
    pub phase: Phase,
}

impl SessionView {
    /// What holds of every run: it goes on only where it is not refused, and reserves only
    /// what it was asked to, and can count.
    pub open spec fn inv(self) -> bool {
        &&& self.phase is Ended || refusal(self.args) is None
        &&& self.phase is Reserving ==> !self.args.no_prealloc && reservation_fits(self.args)
    }

    /// The run in the phase `p`.
    pub open spec fn at(self, p: Phase) -> SessionView {
        SessionView { phase: p, ..self }
    }
}

impl View for Session {
    type V = SessionView;

    closed spec fn view(&self) -> SessionView {
        SessionView { args: self.args, phase: self.phase }
    }
}

impl Session {
    /// Starts a run, which begins by creating the file, or is refused.
    pub fn start<E>(args: Args) -> (r: (Session, Action<E>))
        ensures
            r.0@ == (SessionView { args, phase: opening::<E>(args).0 }),
            r.0@.inv(),
            r.1@ == opening::<E>(args).1,
    {
        match refusal_message(&args) {
            Some(message) => (Session { args, phase: Phase::Ended }, Action::Refuse { message }),
            None => (Session { args, phase: Phase::Creating }, Action::Create),
        }
    }

    /// The settings of the run.
    pub fn args(&self) -> (r: &Args)
        ensures
            *r == self@.args,
    {
        &self.args
    }

    /// Goes on after `e`. Blocks are written on a ring only where a ring can carry them.
    pub fn on_event<E>(&mut self, e: Event<E>) -> (a: Action<E>)
        requires
            old(self)@.inv(),
            expected(old(self)@.phase, e),
            old(self)@.phase is Hinting ==> reservation_fits(old(self)@.args),
        ensures
            final(self)@.inv(),
            final(self)@ == old(self)@.at(response(old(self)@.args, old(self)@.phase, e).0),
            a@ == response(old(self)@.args, old(self)@.phase, e).1,
            a@ matches Answer::Write { on_ring, .. } ==> (on_ring
                ==> final(self)@.args.fits_ring()),
    {
        match self.phase {
            Phase::Creating => match e {
                Event::Failed { error, .. } => self.fail(error),
                _ => {
                    self.phase = Phase::Opening;
                    if self.args.mode.needs_direct_fd() {
                        Action::OpenDirect
                    } else {
                        Action::OpenShared
                    }
                },
            },
            Phase::Opening => match e {
                Event::Failed { error, reason } => {
                    if self.args.mode.needs_direct_fd() {
                        let message = direct_open_message(self.args.path.as_str(), reason.as_str());
                        self.phase = Phase::Ended;
                        Action::FailOpen { error, message }
                    } else {
                        self.fail(error)
                    }
                },
                _ => {
                    self.phase = Phase::Hinting;
                    Action::FindFilesystem
                },
            },
            Phase::Hinting => match e {
                Event::Hint(filesystem) => self.after_hint(filesystem),
                _ => self.end(),
            },
            Phase::Reserving => {
                let mut text = match e {
                    Event::Failed { reason, .. } => {
                        let mut t = "  preallocate  : FAILED (".to_owned();
                        t.append(reason.as_str());
                        t.append(") -- appends will serialize\n");
                        t
                    },
                    _ => {
                        let mut t = "  preallocate  : ".to_owned();
                        t.append(human_bytes(bytes_to_reserve(&self.args)).as_str());
                        t.append(" (fallocate)\n");
                        t
                    },
                };
                text.append("\n");
                self.phase = Phase::Writing;
                Action::Write { text, on_ring: self.args.mode.uses_uring() }
            },
            Phase::Writing => match e {
                Event::Failed { error, .. } => self.fail(error),
                Event::Wrote(stats, figures) => {
                    let mut text = report(&self.args, &stats, &figures);
                    if self.args.keep {
                        let mut kept = "\noutput file kept at ".to_owned();
                        kept.append(self.args.path.as_str());
                        kept.append("\n");
                        text.append(kept.as_str());
                        self.phase = Phase::Ended;
                        Action::End { text }
                    } else {
                        self.phase = Phase::Removing;
                        Action::Remove { text }
                    }
                },
                _ => self.end(),
            },
            Phase::Removing => self.end(),
            Phase::Ended => self.end(),
        }
    }

    fn fail<E>(&mut self, error: E) -> (a: Action<E>)
        ensures
            final(self)@ == old(self)@.at(Phase::Ended),
            a@ == (Answer::Fail { error }),
    {
        self.phase = Phase::Ended;
        Action::Fail { error }
    }

    fn end<E>(&mut self) -> (a: Action<E>)
        ensures
            final(self)@ == old(self)@.at(Phase::Ended),
            a@ == (Answer::<E>::End { text: ""@ }),
    {
        self.phase = Phase::Ended;
        Action::End { text: "".to_owned() }
    }

    fn after_hint<E>(&mut self, filesystem: String) -> (a: Action<E>)
        requires
            refusal(old(self)@.args) is None,
            reservation_fits(old(self)@.args),
        ensures
            ({
                let (p, answer) = response::<E>(
                    old(self)@.args,
                    Phase::Hinting,
                    Event::Hint(filesystem),
                );
                final(self)@ == old(self)@.at(p) && a@ == answer
            }),
            final(self)@.inv(),
    {
        let mut text = banner_text(&self.args, filesystem.as_str());
        if self.args.no_prealloc {
            text.append("  preallocate  : disabled  <-- appends serialize on the inode lock\n");
            text.append("\n");
            self.phase = Phase::Writing;
            Action::Write { text, on_ring: self.args.mode.uses_uring() }
        } else {
            self.phase = Phase::Reserving;
            Action::Reserve { text, len: bytes_to_reserve(&self.args) }
        }
    }
}

/// How far a run has come.
pub open spec fn progress(p: Phase) -> nat {
    match p {
        Phase::Creating => 0,
        Phase::Opening => 1,
        Phase::Hinting => 2,
        Phase::Reserving => 3,
        Phase::Writing => 4,
        Phase::Removing => 5,
        Phase::Ended => 6,
    }
}

/// A run always moves forward, so it ends after at most six answers; it ends exactly when it
/// stops or fails.
pub proof fn law_a_run_moves_forward<E>(args: Args, p: Phase, e: Event<E>)
    requires
        expected(p, e),
    ensures
        progress(response(args, p, e).0) > progress(p),
        response(args, p, e).0 == Phase::Ended <==> {
            let answer = response(args, p, e).1;
            answer is End || answer is Fail || answer is FailOpen
        },
        !(response(args, p, e).1 is Refuse),
{
}

/// A run is refused exactly where it would ask io_uring for a block or a queue that it cannot
/// take, and then nothing is created; settings for `write(2)` are never refused, and no block
/// is too long for a run without a write.
pub proof fn law_only_what_a_ring_cannot_do_is_refused<E>(args: Args)
    ensures
        opening::<E>(args).1 is Refuse <==> args.mode.on_ring() && !args.fits_ring(),
        opening::<E>(args).1 is Create <==> (args.mode.on_ring() ==> args.fits_ring()),
        !args.asks_for_writes() && args.queue_depth <= MAX_RING_ENTRIES ==> opening::<E>(
            args,
        ).1 is Create,
{
}

/// A second descriptor is opened with `O_DIRECT` exactly for the modes that bypass the page
/// cache.
pub proof fn law_direct_descriptor_is_opened_when_needed<E>(args: Args)
    ensures
        response(args, Phase::Creating, Event::<E>::Done).1 is OpenDirect
            <==> args.mode.bypasses_cache(),
        response(args, Phase::Creating, Event::<E>::Done).1 is OpenShared
            <==> !args.mode.bypasses_cache(),
{
}

/// Blocks are reserved before the writes unless that is switched off, and the run writes in
/// the same way whether the reservation was made, failed or was switched off.
pub proof fn law_reservation_never_stops_a_run<E>(
    args: Args,
    filesystem: String,
    error: E,
    reason: String,
)
    ensures
        response(args, Phase::Hinting, Event::<E>::Hint(filesystem)).1 is Reserve
            <==> !args.no_prealloc,
        args.no_prealloc ==> (response(
            args,
            Phase::Hinting,
            Event::<E>::Hint(filesystem),
        ).1 matches Answer::Write { on_ring, .. } && on_ring == args.mode.on_ring()),
        response(args, Phase::Reserving, Event::<E>::Done).1 matches Answer::Write { on_ring, .. }
            && on_ring == args.mode.on_ring(),
        response(args, Phase::Reserving, (Event::Failed { error, reason })).1 matches Answer::Write {
            on_ring,
            ..
        } && on_ring == args.mode.on_ring(),
{
}

/// The file is deleted exactly after a run that wrote to the end and was not told to keep it.
pub proof fn law_file_is_deleted_unless_kept<E>(args: Args, p: Phase, e: Event<E>)
    requires
        expected(p, e),
    ensures
        response(args, p, e).1 is Remove <==> p == Phase::Writing && e is Wrote && !args.keep,
{
}

/// Every failure but those of the reservation and of the deletion fails the run, and the run
/// hands on the error that was reported. Only for a second descriptor with `O_DIRECT` does it
/// add a message to it.
pub proof fn law_other_failures_fail_the_run<E>(args: Args, p: Phase, e: Event<E>)
    requires
        expected(p, e),
    ensures
        ({
            let answer = response(args, p, e).1;
            &&& (answer is Fail || answer is FailOpen) <==> (e is Failed && p != Phase::Reserving
                && p != Phase::Removing)
            &&& answer matches Answer::Fail { error } ==> e->error == error
            &&& answer matches Answer::FailOpen { error, message } ==> {
                &&& e->error == error
                &&& message == direct_open_failure(args.path@, e->reason@)
            }
            &&& answer is FailOpen <==> (e is Failed && p == Phase::Opening
                && args.mode.bypasses_cache())
        }),
{
}

/// Without a cap, the reservation covers what the optimistic rate writes in the time, and at least
/// a second of it; with one, it is the cap.
pub proof fn law_reservation_covers_the_run(args: Args)
    ensures
        args.max_bytes is None ==> reservation(args) >= args.duration * RESERVED_PER_SEC,
        args.max_bytes is None ==> reservation(args) >= RESERVED_PER_SEC,
        args.max_bytes matches Some(cap) ==> reservation(args) == cap,
{
}

proof fn lemma_target_by_lines(args: Args, filesystem: Seq<char>)
    ensures
        target_lines(args, filesystem) == line("disk write benchmark"@) + line(
            "  path         : "@ + args.path@,
        ) + line("  filesystem   : "@ + filesystem) + line("  mode         : "@ + args.mode.words())
            + line(
            "  block size   : "@ + human(args.block_size as nat) + " ("@ + decimal(
                args.block_size as nat,
            ) + " bytes)"@,
        ),
{
    reveal_strlit("disk write benchmark\n  path         : ");
    reveal_strlit("disk write benchmark");
    reveal_strlit("  path         : ");
    reveal_strlit("\n  filesystem   : ");
    reveal_strlit("  filesystem   : ");
    reveal_strlit("\n  mode         : ");
    reveal_strlit("  mode         : ");
    reveal_strlit("\n  block size   : ");
    reveal_strlit("  block size   : ");
    reveal_strlit(" bytes)\n");
    reveal_strlit(" bytes)");
    assert("disk write benchmark\n  path         : "@ =~= line("disk write benchmark"@)
        + "  path         : "@);
    assert("\n  filesystem   : "@ =~= seq!['\n'] + "  filesystem   : "@);
    assert("\n  mode         : "@ =~= seq!['\n'] + "  mode         : "@);
    assert("\n  block size   : "@ =~= seq!['\n'] + "  block size   : "@);
    assert(" bytes)\n"@ =~= line(" bytes)"@));
    let nl = seq!['\n'];
    let first = line("disk write benchmark"@);
    let path = "  path         : "@ + args.path@;
    let fs = "  filesystem   : "@ + filesystem;
    let mode = "  mode         : "@ + args.mode.words();
    let block = "  block size   : "@ + human(args.block_size as nat) + " ("@ + decimal(
        args.block_size as nat,
    );
    assert(line(path) =~= path + nl);
    assert(line(fs) =~= fs + nl);
    assert(line(mode) =~= mode + nl);
    assert(line(block + " bytes)"@) =~= block + line(" bytes)"@));
    let head = first + (path + nl);
    assert(first + "  path         : "@ + args.path@ + (nl + "  filesystem   : "@) =~= head
        + "  filesystem   : "@);
    let next = head + (fs + nl);
    assert(head + "  filesystem   : "@ + filesystem + (nl + "  mode         : "@) =~= next
        + "  mode         : "@);
    let third = next + (mode + nl);
    assert(next + "  mode         : "@ + args.mode.words() + (nl + "  block size   : "@) =~= third
        + "  block size   : "@);
    assert(third + "  block size   : "@ + human(args.block_size as nat) + " ("@ + decimal(
        args.block_size as nat,
    ) + line(" bytes)"@) =~= third + (block + line(" bytes)"@)));
}

proof fn lemma_extent_by_lines(args: Args)
    ensures
        extent_lines(args) == line("  queue depth  : "@ + decimal(args.queue_depth as nat)) + line(
            "  duration     : "@ + decimal(args.duration as nat) + "s"@,
        ) + (match args.max_bytes {
            Some(cap) => line("  max bytes    : "@ + human(cap as nat)),
            None => Seq::<char>::empty(),
        }) + line("  fsync at end : "@ + (if args.fsync {
            "true"@
        } else {
            "false"@
        })),
{
    reveal_strlit("");
    reveal_strlit("\n");
    reveal_strlit("\n  duration     : ");
    reveal_strlit("  duration     : ");
    reveal_strlit("s\n");
    reveal_strlit("s");
    assert(""@ =~= Seq::<char>::empty());
    assert("\n"@ =~= seq!['\n']);
    assert("\n  duration     : "@ =~= seq!['\n'] + "  duration     : "@);
    assert("s\n"@ =~= line("s"@));
    let nl = seq!['\n'];
    let depth = "  queue depth  : "@ + decimal(args.queue_depth as nat);
    let time = "  duration     : "@ + decimal(args.duration as nat);
    let fsync = "  fsync at end : "@ + bool_word(args.fsync);
    assert(line(depth) =~= depth + nl);
    assert(line(time + "s"@) =~= time + line("s"@));
    assert(line(fsync) =~= fsync + nl);
    if let Some(cap) = args.max_bytes {
        let t = "  max bytes    : "@ + human(cap as nat);
        assert(line(t) =~= t + nl);
    }
    let head = line(depth) + line(time + "s"@);
    assert(depth + (nl + "  duration     : "@) + decimal(args.duration as nat) + line("s"@)
        =~= head);
    assert(head + cap_line(args) + "  fsync at end : "@ + bool_word(args.fsync) + nl =~= head
        + cap_line(args) + line(fsync));
}

/// The settings as they are printed, line by line: which setting stands where, and that the cap
/// has a line exactly where there is one.
pub proof fn law_banner_line_by_line(args: Args, filesystem: Seq<char>)
    ensures
        banner(args, filesystem) == line("disk write benchmark"@) + line(
            "  path         : "@ + args.path@,
        ) + line("  filesystem   : "@ + filesystem) + line("  mode         : "@ + args.mode.words())
            + line(
            "  block size   : "@ + human(args.block_size as nat) + " ("@ + decimal(
                args.block_size as nat,
            ) + " bytes)"@,
        ) + line("  queue depth  : "@ + decimal(args.queue_depth as nat)) + line(
            "  duration     : "@ + decimal(args.duration as nat) + "s"@,
        ) + (match args.max_bytes {
            Some(cap) => line("  max bytes    : "@ + human(cap as nat)),
            None => Seq::<char>::empty(),
        }) + line("  fsync at end : "@ + (if args.fsync {
            "true"@
        } else {
            "false"@
        })),
{
    lemma_target_by_lines(args, filesystem);
    lemma_extent_by_lines(args);
    let target = target_lines(args, filesystem);
    let a = line("  queue depth  : "@ + decimal(args.queue_depth as nat));
    let b = line("  duration     : "@ + decimal(args.duration as nat) + "s"@);
    let c = match args.max_bytes {
        Some(cap) => line("  max bytes    : "@ + human(cap as nat)),
        None => Seq::<char>::empty(),
    };
    let d = line("  fsync at end : "@ + (if args.fsync {
        "true"@
    } else {
        "false"@
    }));
    assert(target + (a + b + c + d) =~= target + a + b + c + d);
}

/// What the settings ask to be reserved: the cap where there is one, however long the run; else
/// 20 GiB for each second, and for one second at least. It can be counted unless it passes what
/// a `u64` holds.
pub proof fn law_what_is_reserved(args: Args)
    ensures
        args.max_bytes matches Some(cap) ==> reservation(args) == cap,
        args.max_bytes is None && args.duration >= 1 ==> reservation(args) == args.duration
            * 21_474_836_480,
        args.max_bytes is None && args.duration == 0 ==> reservation(args) == 21_474_836_480,
        reservation_fits(args) <==> args.no_prealloc || args.max_bytes is Some || args.duration
            * 21_474_836_480 <= u64::MAX,
{
}

/// How a run begins: with the creation of the file, unless io_uring cannot do what it asks for,
/// which is then told.
pub proof fn law_how_a_run_begins<E>(args: Args)
    ensures
        ({
            let ring = args.mode == Mode::Direct || args.mode == Mode::Uring;
            let long = args.block_size > u32::MAX && args.duration > 0 && args.max_bytes != Some(
                0u64,
            );
            let deep = args.queue_depth > 2_147_483_648;
            &&& opening::<E>(args) == if ring && long {
                (
                    Phase::Ended,
                    Answer::<E>::Refuse {
                        message:
                            "--block-size must be less than 4g with io_uring; try --mode direct-sync or --mode buffered"@,
                    },
                )
            } else if ring && deep {
                (
                    Phase::Ended,
                    Answer::<E>::Refuse {
                        message: "--queue-depth must be at most 2147483648 with io_uring"@,
                    },
                )
            } else {
                (Phase::Creating, Answer::<E>::Create)
            }
        }),
{
}

/// What follows the creation of the file, and the opening of the descriptor to write through.
/// An error is handed on as it is; only a descriptor with `O_DIRECT` that cannot be opened gets
/// a message, with the path and the reason.
pub proof fn law_what_follows_the_opens<E>(args: Args, error: E, reason: String)
    ensures
        ({
            let direct = args.mode == Mode::Direct || args.mode == Mode::DirectSync;
            let failed = Event::Failed { error, reason };
            &&& response(args, Phase::Creating, Event::<E>::Done) == (
                Phase::Opening,
                if direct {
                    Answer::<E>::OpenDirect
                } else {
                    Answer::OpenShared
                },
            )
            &&& response(args, Phase::Creating, failed) == (Phase::Ended, Answer::Fail { error })
            &&& response(args, Phase::Opening, Event::<E>::Done) == (
                Phase::Hinting,
                Answer::<E>::FindFilesystem,
            )
            &&& response(args, Phase::Opening, failed) == (
                Phase::Ended,
                if direct {
                    Answer::FailOpen {
                        error,
                        message: "cannot open "@ + args.path@ + " with O_DIRECT: "@ + reason@
                            + ". The filesystem may not support it (tmpfs does not); try --mode uring or --mode buffered, or a path on a real disk."@,
                    }
                } else {
                    Answer::Fail { error }
                },
            )
        }),
{
}

/// What follows the filesystem hint: the settings are printed, with the hint, and then just
/// what `law_what_is_reserved` tells is to be reserved. Where reserving is switched off, that
/// is printed too, and the writes begin.
pub proof fn law_what_follows_the_hint<E>(args: Args, filesystem: String)
    ensures
        ({
            let (p, answer) = response(args, Phase::Hinting, Event::<E>::Hint(filesystem));
            &&& !args.no_prealloc ==> p == Phase::Reserving && (answer matches Answer::Reserve {
                text,
                len,
            } && text == banner(args, filesystem@) && (args.max_bytes matches Some(cap) ==> len
                == cap) && (args.max_bytes is None ==> len == (if args.duration < 1 {
                1
            } else {
                args.duration as int
            }) * 21_474_836_480))
            &&& args.no_prealloc ==> p == Phase::Writing && (answer matches Answer::Write {
                text,
                on_ring,
            } && text == banner(args, filesystem@) + line(
                "  preallocate  : disabled  <-- appends serialize on the inode lock"@,
            ) + line(Seq::<char>::empty()) && (on_ring <==> args.mode == Mode::Direct || args.mode
                == Mode::Uring))
        }),
{
    reveal_strlit("\n");
    reveal_strlit("  preallocate  : disabled  <-- appends serialize on the inode lock\n");
    reveal_strlit("  preallocate  : disabled  <-- appends serialize on the inode lock");
    assert("\n"@ =~= line(Seq::<char>::empty()));
    assert("  preallocate  : disabled  <-- appends serialize on the inode lock\n"@ =~= line(
        "  preallocate  : disabled  <-- appends serialize on the inode lock"@,
    ));
}

/// What follows the reservation: a line that tells how many bytes were reserved, or why they
/// were not, an empty line, and the writes.
pub proof fn law_what_follows_the_reservation<E>(args: Args, error: E, reason: String)
    ensures
        ({
            let (p, answer) = response(args, Phase::Reserving, Event::<E>::Done);
            let bytes = match args.max_bytes {
                Some(cap) => cap as nat,
                None => ((if args.duration < 1 {
                    1
                } else {
                    args.duration as int
                }) * 21_474_836_480) as nat,
            };
            &&& p == Phase::Writing
            &&& answer matches Answer::Write { text, on_ring } && text == line(
                "  preallocate  : "@ + human(bytes) + " (fallocate)"@,
            ) + line(Seq::<char>::empty()) && (on_ring <==> args.mode == Mode::Direct || args.mode
                == Mode::Uring)
        }),
        ({
            let (p, answer) = response(args, Phase::Reserving, (Event::Failed { error, reason }));
            &&& p == Phase::Writing
            &&& answer matches Answer::Write { text, on_ring } && text == line(
                "  preallocate  : FAILED ("@ + reason@ + ") -- appends will serialize"@,
            ) + line(Seq::<char>::empty()) && (on_ring <==> args.mode == Mode::Direct || args.mode
                == Mode::Uring)
        }),
{
    reveal_strlit("\n");
    reveal_strlit(" (fallocate)\n");
    reveal_strlit(" (fallocate)");
    reveal_strlit(") -- appends will serialize\n");
    reveal_strlit(") -- appends will serialize");
    assert("\n"@ =~= line(Seq::<char>::empty()));
    assert(" (fallocate)\n"@ =~= line(" (fallocate)"@));
    assert(") -- appends will serialize\n"@ =~= line(") -- appends will serialize"@));
    let made = "  preallocate  : "@ + human(reservation(args));
    assert(line(made + " (fallocate)"@) =~= made + line(" (fallocate)"@));
    let failed = "  preallocate  : FAILED ("@ + reason@;
    assert(line(failed + ") -- appends will serialize"@) =~= failed + line(
        ") -- appends will serialize"@,
    ));
}

/// What follows the writes: an error is handed on as it is. Else the report is printed, and the
/// file is deleted, or is kept and its path printed behind an empty line. Whether it can be
/// deleted makes no difference: the run then ends, with nothing more printed.
pub proof fn law_what_follows_the_writes<E>(
    args: Args,
    stats: Stats,
    figures: Figures,
    error: E,
    reason: String,
)
    ensures
        response(args, Phase::Writing, (Event::Failed { error, reason })) == (
            Phase::Ended,
            Answer::Fail { error },
        ),
        ({
            let (p, answer) = response(args, Phase::Writing, Event::<E>::Wrote(stats, figures));
            &&& args.keep ==> p == Phase::Ended && (answer matches Answer::End { text } && text
                == report_text(args, stats, figures) + (line(Seq::<char>::empty()) + line(
                "output file kept at "@ + args.path@,
            )))
            &&& !args.keep ==> p == Phase::Removing && (answer matches Answer::Remove { text }
                && text == report_text(args, stats, figures))
        }),
        response(args, Phase::Removing, Event::<E>::Done).0 == Phase::Ended,
        response(args, Phase::Removing, Event::<E>::Done).1 matches Answer::End { text }
            && text.len() == 0,
        response(args, Phase::Removing, (Event::Failed { error, reason })).0 == Phase::Ended,
        response(args, Phase::Removing, (Event::Failed { error, reason })).1 matches Answer::End {
            text,
        } && text.len() == 0,
{
    reveal_strlit("");
    reveal_strlit("\n");
    reveal_strlit("\noutput file kept at ");
    reveal_strlit("output file kept at ");
    assert("\n"@ =~= seq!['\n']);
    assert("\noutput file kept at "@ =~= line(Seq::<char>::empty()) + "output file kept at "@);
    assert(kept_line(args.path@) =~= line(Seq::<char>::empty()) + line(
        "output file kept at "@ + args.path@,
    ));
}

/// Which events can come in which phase, and that a run keeps its settings from phase to phase.
pub proof fn law_what_can_happen_when<E>(e: Event<E>, v: SessionView, p: Phase)
    ensures
        expected(Phase::Creating, e) <==> e is Done || e is Failed,
        expected(Phase::Opening, e) <==> e is Done || e is Failed,
        expected(Phase::Hinting, e) <==> e is Hint,
        expected(Phase::Reserving, e) <==> e is Done || e is Failed,
        expected(Phase::Writing, e) <==> e is Wrote || e is Failed,
        expected(Phase::Removing, e) <==> e is Done || e is Failed,
        !expected(Phase::Ended, e),
        v.at(p).args == v.args,
        v.at(p).phase == p,
{
}

} // verus!
