//! The settings of a run.

use crate::mode::{mode_named, unknown_mode, Mode};
use crate::number::{number, parse_number, parse_usize, NumberError};
use crate::size::{fits, invalid_size, parse_size, size};
use crate::text::{debug_quoted, quote, same, trimmed};
use vstd::prelude::*;
use vstd::string::*;

verus! {

/// O_DIRECT requires the file position, the length, and the buffer address to
/// be aligned to the device's logical block size. 4096 covers 512e and 4Kn
/// devices and matches the page size on the platforms of interest.
pub const ALIGN: usize = 4096;

/// The most entries that a ring can be asked for: the largest power of two in 32 bits.
pub const MAX_RING_ENTRIES: u32 = 0x8000_0000;

/// The settings of a run.
#[derive(Clone, PartialEq, Eq, Debug)]
pub struct Args {
    /// The output file.
    pub path: String,
    /// Bytes per write.
    pub block_size: usize,
    /// Writes kept in flight.
    pub queue_depth: usize,
    /// How long to write, in seconds.
    pub duration: u64,
    /// How the writes reach the file.
    pub mode: Mode,
    /// Stop after this many bytes.
    pub max_bytes: Option<u64>,
    /// Do not delete the output file at the end.
    pub keep: bool,
    /// Flush the file at the end, inside the measured window.
    pub fsync: bool,
    /// Do not reserve the file's blocks up front.
    pub no_prealloc: bool,
}

impl Args {
    /// What every parsed command line guarantees: blocks that `O_DIRECT` accepts, and room for
    /// a write in flight.
    pub open spec fn valid(self) -> bool {
        &&& self.block_size > 0
        &&& self.block_size % ALIGN == 0
        &&& self.queue_depth >= 1
    }

    /// Whether the settings leave room for a write: some time, and a cap that is not zero.
    pub open spec fn asks_for_writes(self) -> bool {
        self.duration > 0 && self.max_bytes != Some(0u64)
    }

    /// Whether an io_uring request, whose length is a 32-bit field, can carry a block, where
    /// any is to be written.
    pub open spec fn block_fits_ring(self) -> bool {
        self.asks_for_writes() ==> self.block_size <= u32::MAX
    }

    /// Whether io_uring can do what the settings ask for: a request can carry a block, and a
    /// ring, whose size is a 32-bit power of two, can hold the queue.
    pub open spec fn fits_ring(self) -> bool {
        &&& self.block_fits_ring()
        &&& self.queue_depth <= MAX_RING_ENTRIES
    }
}

/// The settings read from a command line, as far as it has been read.
#[verifier::ext_equal]
pub struct Draft {
    pub path: Option<Seq<char>>,
    pub block_size: nat,
    pub queue_depth: nat,
    pub duration: nat,
    pub mode: Mode,
    pub max_bytes: Option<nat>,
    pub keep: bool,
    pub fsync: bool,
    pub no_prealloc: bool,
}

/// The settings where the command line says nothing: 8 MiB blocks, one write in flight,
/// thirty seconds, `O_DIRECT` and io_uring.
pub open spec fn defaults() -> Draft {
    Draft {
        path: None,
        block_size: 8 * 1024 * 1024,
        queue_depth: 1,
        duration: 30,
        mode: Mode::Direct,
        max_bytes: None,
        keep: false,
        fsync: false,
        no_prealloc: false,
    }
}

/// What a command line comes to.
pub enum Outcome {
    /// A run with these settings.
    Run(Draft),
    /// A request for the usage text.
    Help,
    /// A mistake, with its message.
    Invalid(Seq<char>),
    /// A size whose bytes cannot be counted in a `usize`.
    SizeOverflow,
}

/// Whether the option `arg` is followed by a value.
pub open spec fn takes_value(arg: Seq<char>) -> bool {
    ||| arg == "--path"@
    ||| arg == "--block-size"@
    ||| arg == "--queue-depth"@
    ||| arg == "--duration"@
    ||| arg == "--mode"@
    ||| arg == "--max-bytes"@
}

/// The byte count that the value `v` of an option writes.
pub open spec fn size_option(v: Seq<char>) -> Result<nat, Outcome> {
    match size(v) {
        Ok(n) => if n <= usize::MAX {
            Ok(n)
        } else {
            Err(Outcome::SizeOverflow)
        },
        Err(e) => Err(Outcome::Invalid(invalid_size(debug_quoted(trimmed(v)), e))),
    }
}

/// The number, at most `max`, that the value `v` of the option `arg` writes.
pub open spec fn number_option(arg: Seq<char>, v: Seq<char>, max: nat) -> Result<nat, Outcome> {
    match number(v, max) {
        Ok(n) => Ok(n),
        Err(e) => Err(Outcome::Invalid(arg + ": "@ + e.description())),
    }
}

/// `d` with the option `arg` set to the value `v`.
pub open spec fn with_value(d: Draft, arg: Seq<char>, v: Seq<char>) -> Result<Draft, Outcome> {
    if arg == "--path"@ {
        Ok(Draft { path: Some(v), ..d })
    } else if arg == "--block-size"@ {
        match size_option(v) {
            Ok(n) => Ok(Draft { block_size: n, ..d }),
            Err(o) => Err(o),
        }
    } else if arg == "--queue-depth"@ {
        match number_option(arg, v, usize::MAX as nat) {
            Ok(n) => Ok(Draft { queue_depth: n, ..d }),
            Err(o) => Err(o),
        }
    } else if arg == "--duration"@ {
        match number_option(arg, v, u64::MAX as nat) {
            Ok(n) => Ok(Draft { duration: n, ..d }),
            Err(o) => Err(o),
        }
    } else if arg == "--mode"@ {
        match mode_named(v) {
            Some(m) => Ok(Draft { mode: m, ..d }),
            None => Err(Outcome::Invalid(unknown_mode(debug_quoted(v)))),
        }
    } else {
        match size_option(v) {
            Ok(n) => Ok(Draft { max_bytes: Some(n), ..d }),
            Err(o) => Err(o),
        }
    }
}

/// The message for an option without its value.
pub open spec fn value_missing(arg: Seq<char>) -> Seq<char> {
    arg + " requires a value"@
}

/// The message for an argument, given in quotes, that is unknown.
pub open spec fn unknown_argument(quoted: Seq<char>) -> Seq<char> {
    "unknown argument "@ + quoted + " (try --help)"@
}

/// What the settings come to at the end of the command line.
pub open spec fn finished(d: Draft) -> Outcome {
    if d.path is None {
        Outcome::Invalid("--path is required (a file on the target filesystem)"@)
    } else if d.block_size == 0 || d.block_size % (ALIGN as nat) != 0 {
        Outcome::Invalid("--block-size must be a non-zero multiple of 4096 for O_DIRECT"@)
    } else if d.queue_depth == 0 {
        Outcome::Invalid("--queue-depth must be at least 1"@)
    } else {
        Outcome::Run(d)
    }
}

/// What the arguments from the `i`th on come to, with the settings `d` read before them.
pub open spec fn read_from(argv: Seq<Seq<char>>, i: int, d: Draft) -> Outcome
    decreases argv.len() - i,
{
    if i < 0 || i >= argv.len() {
        finished(d)
    } else {
        let arg = argv[i];
        if arg == "-h"@ || arg == "--help"@ {
            Outcome::Help
        } else if takes_value(arg) {
            if i + 1 >= argv.len() {
                Outcome::Invalid(value_missing(arg))
            } else {
                match with_value(d, arg, argv[i + 1]) {
                    Ok(next) => read_from(argv, i + 2, next),
                    Err(o) => o,
                }
            }
        } else if arg == "--keep"@ {
            read_from(argv, i + 1, Draft { keep: true, ..d })
        } else if arg == "--fsync"@ {
            read_from(argv, i + 1, Draft { fsync: true, ..d })
        } else if arg == "--no-prealloc"@ {
            read_from(argv, i + 1, Draft { no_prealloc: true, ..d })
        } else {
            Outcome::Invalid(unknown_argument(debug_quoted(arg)))
        }
    }
}

/// The arguments as texts.
pub open spec fn texts(argv: Seq<String>) -> Seq<Seq<char>> {
    Seq::new(argv.len(), |i: int| argv[i]@)
}

/// What the command line `argv` (without the program's name) comes to.
pub open spec fn command_line(argv: Seq<Seq<char>>) -> Outcome {
    read_from(argv, 0, defaults())
}

/// What a command line comes to.
#[derive(Clone, PartialEq, Eq, Debug)]
pub enum Parsed {
    /// A run with these settings.
    Run(Args),
    /// A request for the usage text.
    Help,
    /// A mistake, with its message.
    Invalid(String),
    /// A size whose bytes cannot be counted.
    SizeOverflow,
}

impl Parsed {
    /// What the command line came to.
    pub open spec fn outcome(self) -> Outcome {
        match self {
            Parsed::Run(a) => Outcome::Run(a.draft()),
            Parsed::Help => Outcome::Help,
            Parsed::Invalid(m) => Outcome::Invalid(m@),
            Parsed::SizeOverflow => Outcome::SizeOverflow,
        }
    }
}

/// The message for an argument, given in quotes, that is unknown.
pub fn unknown_argument_message(quoted: &str) -> (r: String)
    ensures
        r@ == unknown_argument(quoted@),
{
    let mut r = "unknown argument ".to_owned();
    r.append(quoted);
    r.append(" (try --help)");
    r
}

/// The settings while the command line is read.
struct Settings {
    path: Option<String>,
    block_size: usize,
    queue_depth: usize,
    duration: u64,
    mode: Mode,
    max_bytes: Option<u64>,
    keep: bool,
    fsync: bool,
    no_prealloc: bool,
}

impl Settings {
    spec fn draft(self) -> Draft {
        Draft {
            path: match self.path {
                Some(p) => Some(p@),
                None => None,
            },
            block_size: self.block_size as nat,
            queue_depth: self.queue_depth as nat,
            duration: self.duration as nat,
            mode: self.mode,
            max_bytes: match self.max_bytes {
                Some(n) => Some(n as nat),
                None => None,
            },
            keep: self.keep,
            fsync: self.fsync,
            no_prealloc: self.no_prealloc,
        }
    }

    /// Sets the option `arg`, one of those that take a value, to `v`.
    fn set(&mut self, arg: &str, v: &str) -> (r: Result<(), Parsed>)
        requires
            takes_value(arg@),
        ensures
            match r {
                Ok(()) => with_value(old(self).draft(), arg@, v@) == Ok::<Draft, Outcome>(
                    final(self).draft(),
                ),
                Err(p) => with_value(old(self).draft(), arg@, v@) == Err::<Draft, Outcome>(
                    p.outcome(),
                ),
            },
    {
        if same(arg, "--path") {
            self.path = Some(v.to_owned());
        } else if same(arg, "--block-size") {
            match Self::size_value(v) {
                Ok(n) => {
                    self.block_size = n;
                },
                Err(p) => {
                    return Err(p);
                },
            }
        } else if same(arg, "--queue-depth") {
            match parse_usize(v) {
                Ok(n) => {
                    self.queue_depth = n;
                },
                Err(e) => {
                    return Err(Self::bad_number(arg, e));
                },
            }
        } else if same(arg, "--duration") {
            match parse_number(v, u64::MAX) {
                Ok(n) => {
                    self.duration = n;
                },
                Err(e) => {
                    return Err(Self::bad_number(arg, e));
                },
            }
        } else if same(arg, "--mode") {
            match Mode::parse(v) {
                Ok(m) => {
                    self.mode = m;
                },
                Err(m) => {
                    return Err(Parsed::Invalid(m));
                },
            }
        } else {
            match Self::size_value(v) {
                Ok(n) => {
                    self.max_bytes = Some(n as u64);
                },
                Err(p) => {
                    return Err(p);
                },
            }
        }
        Ok(())
    }

    fn size_value(v: &str) -> (r: Result<usize, Parsed>)
        ensures
            match r {
                Ok(n) => size_option(v@) == Ok::<nat, Outcome>(n as nat),
                Err(p) => size_option(v@) == Err::<nat, Outcome>(p.outcome()),
            },
    {
        if !fits(v) {
            return Err(Parsed::SizeOverflow);
        }
        match parse_size(v) {
            Ok(n) => Ok(n),
            Err(m) => Err(Parsed::Invalid(m)),
        }
    }

    fn bad_number(arg: &str, e: NumberError) -> (p: Parsed)
        ensures
            p.outcome() == Outcome::Invalid(arg@ + ": "@ + e.description()),
    {
        let mut m = arg.to_owned();
        m.append(": ");
        m.append(e.describe());
        Parsed::Invalid(m)
    }

    /// Checks the settings at the end of the command line.
    fn finish(self) -> (p: Parsed)
        ensures
            p.outcome() == finished(self.draft()),
            p matches Parsed::Run(a) ==> a.valid(),
    {
        let path = match self.path {
            Some(path) => path,
            None => {
                return Parsed::Invalid(
                    "--path is required (a file on the target filesystem)".to_owned(),
                );
            },
        };
        if self.block_size == 0 || self.block_size % ALIGN != 0 {
            return Parsed::Invalid(
                "--block-size must be a non-zero multiple of 4096 for O_DIRECT".to_owned(),
            );
        }
        if self.queue_depth == 0 {
            return Parsed::Invalid("--queue-depth must be at least 1".to_owned());
        }
        Parsed::Run(
            Args {
                path,
                block_size: self.block_size,
                queue_depth: self.queue_depth,
                duration: self.duration,
                mode: self.mode,
                max_bytes: self.max_bytes,
                keep: self.keep,
                fsync: self.fsync,
                no_prealloc: self.no_prealloc,
            },
        )
    }
}

impl Args {
    /// The settings as a command line sets them.
    pub open spec fn draft(self) -> Draft {
        Draft {
            path: Some(self.path@),
            block_size: self.block_size as nat,
            queue_depth: self.queue_depth as nat,
            duration: self.duration as nat,
            mode: self.mode,
            max_bytes: match self.max_bytes {
                Some(n) => Some(n as nat),
                None => None,
            },
            keep: self.keep,
            fsync: self.fsync,
            no_prealloc: self.no_prealloc,
        }
    }

    /// Reads the command line `argv`, which starts behind the program's name.
    pub fn parse(argv: &Vec<String>) -> (p: Parsed)
        ensures
            p.outcome() == command_line(texts(argv@)),
            p matches Parsed::Run(a) ==> a.valid(),
    {
        let mut d = Settings {
            path: None,
            block_size: 8 * 1024 * 1024,
            queue_depth: 1,
            duration: 30,
            mode: Mode::Direct,
            max_bytes: None,
            keep: false,
            fsync: false,
            no_prealloc: false,
        };
        let ghost all = texts(argv@);
        let mut i: usize = 0;
        assert(d.draft() =~= defaults());
        while i < argv.len()
            invariant
                i <= argv.len(),
                all == texts(argv@),
                command_line(all) == read_from(all, i as int, d.draft()),
            decreases argv.len() - i,
        {
            let arg = argv[i].as_str();
            assert(all[i as int] == arg@);
            let ghost before = d.draft();
            if same(arg, "-h") || same(arg, "--help") {
                return Parsed::Help;
            }
            let wants_value = same(arg, "--path") || same(arg, "--block-size") || same(
                arg,
                "--queue-depth",
            ) || same(arg, "--duration") || same(arg, "--mode") || same(arg, "--max-bytes");
            if wants_value {
                i += 1;
                if i >= argv.len() {
                    let mut m = arg.to_owned();
                    m.append(" requires a value");
                    return Parsed::Invalid(m);
                }
                let v = argv[i].as_str();
                assert(all[i as int] == v@);
                match d.set(arg, v) {
                    Ok(()) => {},
                    Err(p) => {
                        return p;
                    },
                }
            } else if same(arg, "--keep") {
                d.keep = true;
                assert(d.draft() =~= (Draft { keep: true, ..before }));
            } else if same(arg, "--fsync") {
                d.fsync = true;
                assert(d.draft() =~= (Draft { fsync: true, ..before }));
            } else if same(arg, "--no-prealloc") {
                d.no_prealloc = true;
                assert(d.draft() =~= (Draft { no_prealloc: true, ..before }));
            } else {
                return Parsed::Invalid(unknown_argument_message(quote(arg).as_str()));
            }
            i += 1;
        }
        d.finish()
    }
}

/// A path alone is enough: everything else has a default.
pub proof fn law_path_alone_runs_with_defaults(path: Seq<char>)
    ensures
        command_line(seq!["--path"@, path]) == Outcome::Run(
            Draft { path: Some(path), ..defaults() },
        ),
{
    let argv = seq!["--path"@, path];
    reveal_strlit("--path");
    reveal_strlit("-h");
    reveal_strlit("--help");
    assert("--path"@[2] != "--help"@[2]);
    let d = Draft { path: Some(path), ..defaults() };
    assert(with_value(defaults(), argv[0], argv[1]) == Ok::<Draft, Outcome>(d));
    assert(read_from(argv, 2, d) == finished(d));
    assert(read_from(argv, 0, defaults()) == read_from(argv, 2, d));
}

/// An option that is given again replaces what it set before.
pub proof fn law_last_value_of_an_option_wins(
    d: Draft,
    arg: Seq<char>,
    first: Seq<char>,
    second: Seq<char>,
)
    requires
        takes_value(arg),
        with_value(d, arg, first) is Ok,
    ensures
        with_value(with_value(d, arg, first)->Ok_0, arg, second) == with_value(d, arg, second),
{
}

/// Whatever the command line, a run has a path, blocks that are a non-zero multiple of the
/// alignment, and at least one write in flight.
pub proof fn law_every_run_has_usable_settings(argv: Seq<Seq<char>>, i: int, d: Draft)
    ensures
        read_from(argv, i, d) matches Outcome::Run(r) ==> {
            &&& r.path is Some
            &&& r.block_size > 0
            &&& r.block_size % (ALIGN as nat) == 0
            &&& r.queue_depth >= 1
        },
    decreases argv.len() - i,
{
    if 0 <= i < argv.len() {
        let arg = argv[i];
        if arg == "-h"@ || arg == "--help"@ {
        } else if takes_value(arg) {
            if i + 1 < argv.len() && with_value(d, arg, argv[i + 1]) is Ok {
                law_every_run_has_usable_settings(
                    argv,
                    i + 2,
                    with_value(d, arg, argv[i + 1])->Ok_0,
                );
            }
        } else if arg == "--keep"@ {
            law_every_run_has_usable_settings(argv, i + 1, Draft { keep: true, ..d });
        } else if arg == "--fsync"@ {
            law_every_run_has_usable_settings(argv, i + 1, Draft { fsync: true, ..d });
        } else if arg == "--no-prealloc"@ {
            law_every_run_has_usable_settings(argv, i + 1, Draft { no_prealloc: true, ..d });
        }
    }
}

/// What the settings of a run must satisfy, and what io_uring can do of them.
pub proof fn law_what_settings_are_usable(a: Args)
    ensures
        a.valid() <==> a.block_size > 0 && a.block_size % 4096 == 0 && a.queue_depth >= 1,
        a.fits_ring() <==> a.queue_depth <= 0x8000_0000 && (a.block_size <= 0xffff_ffff
            || a.duration == 0 || a.max_bytes == Some(0u64)),
        a.block_fits_ring() <==> a.block_size <= 0xffff_ffff || a.duration == 0 || a.max_bytes
            == Some(0u64),
{
}

/// Every argument is read, and as it stands.
pub proof fn law_every_argument_is_read(argv: Seq<String>, i: int)
    ensures
        texts(argv).len() == argv.len(),
        0 <= i < argv.len() ==> texts(argv)[i] == argv[i]@,
{
}

/// Nothing of what a command line comes to is lost or changed on the way to the settings.
pub proof fn law_settings_are_those_read(p: Parsed, d: Draft)
    ensures
        p.outcome() == Outcome::Run(d) ==> {
            &&& p matches Parsed::Run(a)
            &&& d.path == Some(a.path@) && d.block_size == a.block_size
            &&& d.queue_depth == a.queue_depth && d.duration == a.duration && d.mode == a.mode
            &&& d.max_bytes is Some <==> a.max_bytes is Some
            &&& d.max_bytes matches Some(n) ==> a.max_bytes->0 == n
            &&& d.keep == a.keep && d.fsync == a.fsync && d.no_prealloc == a.no_prealloc
        },
        p.outcome() is Run <==> p is Run,
        p.outcome() is Help <==> p is Help,
        p.outcome() is SizeOverflow <==> p is SizeOverflow,
        p.outcome() matches Outcome::Invalid(m) ==> (p matches Parsed::Invalid(t) && t@ == m),
{
}

/// A command line is read from its first argument on, onto the defaults: 8 MiB blocks, one
/// write in flight, thirty seconds, the mode `direct`, no cap, and no switch set.
pub proof fn law_what_the_defaults_are(argv: Seq<Seq<char>>)
    ensures
        command_line(argv) == read_from(
            argv,
            0,
            (Draft {
                path: None,
                block_size: 8_388_608,
                queue_depth: 1,
                duration: 30,
                mode: Mode::Direct,
                max_bytes: None,
                keep: false,
                fsync: false,
                no_prealloc: false,
            }),
        ),
{
}

/// Where the next argument of a command line stands, which is `word`.
pub open spec fn stands_at(argv: Seq<Seq<char>>, i: int, word: Seq<char>) -> bool {
    0 <= i < argv.len() && argv[i] == word
}

proof fn lemma_options_differ()
    ensures
        forall|w: Seq<char>| #[trigger]
            takes_value(w) ==> w.len() != 2 && w != "--help"@ && w != "--keep"@ && w != "--fsync"@
                && w != "--no-prealloc"@,
        "-h"@.len() == 2,
        "--path"@ != "--block-size"@ && "--path"@ != "--queue-depth"@ && "--path"@ != "--duration"@
            && "--path"@ != "--mode"@ && "--path"@ != "--max-bytes"@,
        "--block-size"@ != "--queue-depth"@ && "--block-size"@ != "--duration"@ && "--block-size"@
            != "--mode"@ && "--block-size"@ != "--max-bytes"@,
        "--queue-depth"@ != "--duration"@ && "--queue-depth"@ != "--mode"@ && "--queue-depth"@
            != "--max-bytes"@,
        "--duration"@ != "--mode"@ && "--duration"@ != "--max-bytes"@,
        "--mode"@ != "--max-bytes"@,
        "--help"@ != "--keep"@ && "--help"@ != "--fsync"@ && "--help"@ != "--no-prealloc"@,
        "--keep"@ != "--fsync"@ && "--keep"@ != "--no-prealloc"@,
        "--fsync"@ != "--no-prealloc"@,
        "--keep"@.len() != 2 && "--fsync"@.len() != 2 && "--no-prealloc"@.len() != 2,
{
    reveal_strlit("-h");
    reveal_strlit("--help");
    reveal_strlit("--path");
    reveal_strlit("--block-size");
    reveal_strlit("--queue-depth");
    reveal_strlit("--duration");
    reveal_strlit("--mode");
    reveal_strlit("--max-bytes");
    reveal_strlit("--keep");
    reveal_strlit("--fsync");
    reveal_strlit("--no-prealloc");
    assert("--path"@[2] == 'p');
    assert("--block-size"@[2] == 'b');
    assert("--queue-depth"@[2] == 'q');
    assert("--duration"@[2] == 'd');
    assert("--mode"@[2] == 'm' && "--mode"@.len() == 6);
    assert("--max-bytes"@[2] == 'm' && "--max-bytes"@.len() == 11);
    assert("--help"@[2] == 'h');
    assert("--keep"@[2] == 'k');
    assert("--fsync"@[2] == 'f');
    assert("--no-prealloc"@[2] == 'n');
}

/// `-h` and `--help` anywhere ask for the usage text, and each switch sets its own setting.
pub proof fn law_what_the_switches_do(argv: Seq<Seq<char>>, i: int, d: Draft)
    ensures
        stands_at(argv, i, "-h"@) || stands_at(argv, i, "--help"@) ==> read_from(argv, i, d)
            == Outcome::Help,
        stands_at(argv, i, "--keep"@) ==> read_from(argv, i, d) == read_from(
            argv,
            i + 1,
            (Draft { keep: true, ..d }),
        ),
        stands_at(argv, i, "--fsync"@) ==> read_from(argv, i, d) == read_from(
            argv,
            i + 1,
            (Draft { fsync: true, ..d }),
        ),
        stands_at(argv, i, "--no-prealloc"@) ==> read_from(argv, i, d) == read_from(
            argv,
            i + 1,
            (Draft { no_prealloc: true, ..d }),
        ),
{
    lemma_options_differ();
}

/// The path is the argument behind `--path`, and the mode is the one that the argument behind
/// `--mode` names.
pub proof fn law_how_path_and_mode_are_read(argv: Seq<Seq<char>>, i: int, d: Draft)
    requires
        i + 1 < argv.len(),
    ensures
        stands_at(argv, i, "--path"@) ==> read_from(argv, i, d) == read_from(
            argv,
            i + 2,
            (Draft { path: Some(argv[i + 1]), ..d }),
        ),
        stands_at(argv, i, "--mode"@) ==> match mode_named(argv[i + 1]) {
            Some(m) => read_from(argv, i, d) == read_from(argv, i + 2, (Draft { mode: m, ..d })),
            None => read_from(argv, i, d) == Outcome::Invalid(
                unknown_mode(debug_quoted(argv[i + 1])),
            ),
        },
{
    lemma_options_differ();
    if stands_at(argv, i, "--path"@) || stands_at(argv, i, "--mode"@) {
        assert(takes_value(argv[i]));
    }
}

/// The queue depth and the duration are the numbers behind their options, at most what a
/// `usize` and a `u64` hold; the reason why one is no number is told with its option.
pub proof fn law_how_depth_and_duration_are_read(argv: Seq<Seq<char>>, i: int, d: Draft)
    requires
        i + 1 < argv.len(),
    ensures
        stands_at(argv, i, "--queue-depth"@) ==> match number(argv[i + 1], usize::MAX as nat) {
            Ok(n) => read_from(argv, i, d) == read_from(
                argv,
                i + 2,
                (Draft { queue_depth: n, ..d }),
            ),
            Err(e) => read_from(argv, i, d) == Outcome::Invalid(
                "--queue-depth"@ + ": "@ + e.description(),
            ),
        },
        stands_at(argv, i, "--duration"@) ==> match number(argv[i + 1], u64::MAX as nat) {
            Ok(n) => read_from(argv, i, d) == read_from(argv, i + 2, (Draft { duration: n, ..d })),
            Err(e) => read_from(argv, i, d) == Outcome::Invalid(
                "--duration"@ + ": "@ + e.description(),
            ),
        },
{
    lemma_options_differ();
    if stands_at(argv, i, "--queue-depth"@) {
        assert(takes_value(argv[i]));
        assert(with_value(d, argv[i], argv[i + 1]) == match number(
            argv[i + 1],
            usize::MAX as nat,
        ) {
            Ok(n) => Ok::<Draft, Outcome>(Draft { queue_depth: n, ..d }),
            Err(e) => Err(Outcome::Invalid(argv[i] + ": "@ + e.description())),
        });
    }
    if stands_at(argv, i, "--duration"@) {
        assert(takes_value(argv[i]));
        assert(with_value(d, argv[i], argv[i + 1]) == match number(argv[i + 1], u64::MAX as nat) {
            Ok(n) => Ok::<Draft, Outcome>(Draft { duration: n, ..d }),
            Err(e) => Err(Outcome::Invalid(argv[i] + ": "@ + e.description())),
        });
    }
}

/// The block size and the cap are the sizes behind their options. A size beyond a `usize` is an
/// outcome of its own, and a text that is no size is quoted without the white space around it.
pub proof fn law_how_block_size_and_cap_are_read(argv: Seq<Seq<char>>, i: int, d: Draft)
    requires
        i + 1 < argv.len(),
        stands_at(argv, i, "--block-size"@) || stands_at(argv, i, "--max-bytes"@),
    ensures
        match size(argv[i + 1]) {
            Ok(n) => if n > usize::MAX {
                read_from(argv, i, d) == Outcome::SizeOverflow
            } else if argv[i] == "--block-size"@ {
                read_from(argv, i, d) == read_from(argv, i + 2, (Draft { block_size: n, ..d }))
            } else {
                read_from(argv, i, d) == read_from(
                    argv,
                    i + 2,
                    (Draft { max_bytes: Some(n), ..d }),
                )
            },
            Err(e) => read_from(argv, i, d) == Outcome::Invalid(
                invalid_size(debug_quoted(trimmed(argv[i + 1])), e),
            ),
        },
{
    lemma_options_differ();
    let v = argv[i + 1];
    assert(takes_value(argv[i]));
    if argv[i] == "--block-size"@ {
        assert(with_value(d, argv[i], v) == match size_option(v) {
            Ok(n) => Ok::<Draft, Outcome>(Draft { block_size: n, ..d }),
            Err(o) => Err(o),
        });
    } else {
        assert(with_value(d, argv[i], v) == match size_option(v) {
            Ok(n) => Ok::<Draft, Outcome>(Draft { max_bytes: Some(n), ..d }),
            Err(o) => Err(o),
        });
    }
}

/// An option whose value is missing is named, and an argument that is no option is quoted.
pub proof fn law_what_other_arguments_come_to(argv: Seq<Seq<char>>, i: int, d: Draft)
    requires
        0 <= i < argv.len(),
    ensures
        i + 1 == argv.len() && (argv[i] == "--path"@ || argv[i] == "--block-size"@ || argv[i]
            == "--queue-depth"@ || argv[i] == "--duration"@ || argv[i] == "--mode"@ || argv[i]
            == "--max-bytes"@) ==> read_from(argv, i, d) == Outcome::Invalid(
            argv[i] + " requires a value"@,
        ),
        argv[i] != "-h"@ && argv[i] != "--help"@ && argv[i] != "--path"@ && argv[i]
            != "--block-size"@ && argv[i] != "--queue-depth"@ && argv[i] != "--duration"@ && argv[i]
            != "--mode"@ && argv[i] != "--max-bytes"@ && argv[i] != "--keep"@ && argv[i]
            != "--fsync"@ && argv[i] != "--no-prealloc"@ ==> read_from(argv, i, d)
            == Outcome::Invalid("unknown argument "@ + debug_quoted(argv[i]) + " (try --help)"@),
{
    lemma_options_differ();
    assert(takes_value(argv[i]) <==> (argv[i] == "--path"@ || argv[i] == "--block-size"@ || argv[i]
        == "--queue-depth"@ || argv[i] == "--duration"@ || argv[i] == "--mode"@ || argv[i]
        == "--max-bytes"@));
}

/// At the end of the command line there is a run exactly where a path was given, the block size
/// is a multiple of 4096 and not zero, and the queue depth is not zero; and the first of these
/// that fails is told.
pub proof fn law_what_is_checked_at_the_end(argv: Seq<Seq<char>>, i: int, d: Draft)
    requires
        i >= argv.len(),
    ensures
        read_from(argv, i, d) is Run <==> d.path is Some && d.block_size > 0 && d.block_size % 4096
            == 0 && d.queue_depth > 0,
        read_from(argv, i, d) is Run ==> read_from(argv, i, d) == Outcome::Run(d),
        d.path is None ==> read_from(argv, i, d) == Outcome::Invalid(
            "--path is required (a file on the target filesystem)"@,
        ),
        d.path is Some && (d.block_size == 0 || d.block_size % 4096 != 0) ==> read_from(argv, i, d)
            == Outcome::Invalid(
            "--block-size must be a non-zero multiple of 4096 for O_DIRECT"@,
        ),
        d.path is Some && d.block_size > 0 && d.block_size % 4096 == 0 && d.queue_depth == 0
            ==> read_from(argv, i, d) == Outcome::Invalid("--queue-depth must be at least 1"@),
        read_from(argv, i, d) is Run || read_from(argv, i, d) is Invalid,
{
}

/// The message for an unknown argument holds it as it was quoted.
pub proof fn law_unknown_argument_is_quoted(quoted: Seq<char>)
    ensures
        unknown_argument(quoted) == "unknown argument "@ + quoted + " (try --help)"@,
{
}

} // verus!
