//! The four write paths.

use crate::text::{debug_quoted, quote, same};
use vstd::prelude::*;
use vstd::string::*;

verus! {

/// How the writes reach the file.
#[derive(Clone, Copy, PartialEq, Eq, Debug, Structural)]
pub enum Mode {
    /// `O_DIRECT` and io_uring: no page cache, no syscall per write.
    Direct,
    /// `O_DIRECT` and `write(2)`: no page cache, one write at a time.
    DirectSync,
    /// io_uring through the page cache.
    Uring,
    /// `write(2)` through the page cache.
    Buffered,
}

/// The message for a mode name, given in quotes, that is unknown.
pub open spec fn unknown_mode(quoted: Seq<char>) -> Seq<char> {
    "unknown mode "@ + quoted + " (expected direct, direct-sync, uring, or buffered)"@
}

/// The message for a mode name, given in quotes, that is unknown.
pub fn unknown_mode_message(quoted: &str) -> (r: String)
    ensures
        r@ == unknown_mode(quoted@),
{
    let mut r = "unknown mode ".to_owned();
    r.append(quoted);
    r.append(" (expected direct, direct-sync, uring, or buffered)");
    r
}

/// The mode that `s` names.
pub open spec fn mode_named(s: Seq<char>) -> Option<Mode> {
    if s == "direct"@ {
        Some(Mode::Direct)
    } else if s == "direct-sync"@ {
        Some(Mode::DirectSync)
    } else if s == "uring"@ {
        Some(Mode::Uring)
    } else if s == "buffered"@ {
        Some(Mode::Buffered)
    } else {
        None
    }
}

impl Mode {
    /// The mode that `s` names, or the message that it names none.
    pub fn parse(s: &str) -> (r: Result<Self, String>)
        ensures
            match r {
                Ok(m) => mode_named(s@) == Some(m),
                Err(e) => mode_named(s@) is None && e@ == unknown_mode(debug_quoted(s@)),
            },
    {
        if same(s, "direct") {
            Ok(Mode::Direct)
        } else if same(s, "direct-sync") {
            Ok(Mode::DirectSync)
        } else if same(s, "uring") {
            Ok(Mode::Uring)
        } else if same(s, "buffered") {
            Ok(Mode::Buffered)
        } else {
            Err(unknown_mode_message(quote(s).as_str()))
        }
    }

    /// The name that the command line uses for the mode.
    pub open spec fn name(self) -> Seq<char> {
        match self {
            Mode::Direct => "direct"@,
            Mode::DirectSync => "direct-sync"@,
            Mode::Uring => "uring"@,
            Mode::Buffered => "buffered"@,
        }
    }

    /// The mode in words.
    pub open spec fn words(self) -> Seq<char> {
        match self {
            Mode::Direct => "O_DIRECT + io_uring"@,
            Mode::DirectSync => "O_DIRECT + write(2)"@,
            Mode::Uring => "io_uring (buffered)"@,
            Mode::Buffered => "write(2) (buffered)"@,
        }
    }

    /// The mode in words.
    pub fn label(self) -> (r: &'static str)
        ensures
            r@ == self.words(),
    {
        match self {
            Mode::Direct => "O_DIRECT + io_uring",
            Mode::DirectSync => "O_DIRECT + write(2)",
            Mode::Uring => "io_uring (buffered)",
            Mode::Buffered => "write(2) (buffered)",
        }
    }

    /// Whether writes go through io_uring, several in flight, rather than `write(2)`, one at a
    /// time.
    pub open spec fn on_ring(self) -> bool {
        self == Mode::Direct || self == Mode::Uring
    }

    /// Whether writes go through io_uring.
    pub fn uses_uring(self) -> (r: bool)
        ensures
            r == self.on_ring(),
    {
        matches!(self, Mode::Direct | Mode::Uring)
    }

    /// Whether the page cache is bypassed.
    pub open spec fn bypasses_cache(self) -> bool {
        self == Mode::Direct || self == Mode::DirectSync
    }

    /// Whether the output file needs a descriptor opened with `O_DIRECT`.
    pub fn needs_direct_fd(self) -> (r: bool)
        ensures
            r == self.bypasses_cache(),
    {
        matches!(self, Mode::Direct | Mode::DirectSync)
    }
}

/// Every mode is named by its own name, and by no other text.
pub proof fn law_modes_and_names_correspond(s: Seq<char>, m: Mode)
    ensures
        mode_named(s) == Some(m) <==> s == m.name(),
{
    reveal_strlit("direct");
    reveal_strlit("direct-sync");
    reveal_strlit("uring");
    reveal_strlit("buffered");
    assert("direct"@.len() != "direct-sync"@.len());
    assert("direct"@.len() != "uring"@.len());
    assert("direct"@.len() != "buffered"@.len());
    assert("direct-sync"@.len() != "uring"@.len());
    assert("direct-sync"@.len() != "buffered"@.len());
    assert("uring"@.len() != "buffered"@.len());
}

/// Bypassing the page cache and writing on the ring are independent choices, which together
/// determine the mode.
pub proof fn law_two_choices_determine_the_mode(a: Mode, b: Mode)
    requires
        a.on_ring() == b.on_ring(),
        a.bypasses_cache() == b.bypasses_cache(),
    ensures
        a == b,
{
}

/// The message for an unknown mode holds the name as it was quoted, and all modes.
pub proof fn law_unknown_mode_is_quoted(quoted: Seq<char>)
    ensures
        unknown_mode(quoted) == "unknown mode "@ + quoted
            + " (expected direct, direct-sync, uring, or buffered)"@,
{
}

/// What the modes are called, which of them are on the ring, and which bypass the page cache.
pub proof fn law_what_the_modes_are(m: Mode)
    ensures
        m.name() == match m {
            Mode::Direct => "direct"@,
            Mode::DirectSync => "direct-sync"@,
            Mode::Uring => "uring"@,
            Mode::Buffered => "buffered"@,
        },
        m.words() == match m {
            Mode::Direct => "O_DIRECT + io_uring"@,
            Mode::DirectSync => "O_DIRECT + write(2)"@,
            Mode::Uring => "io_uring (buffered)"@,
            Mode::Buffered => "write(2) (buffered)"@,
        },
        m.on_ring() <==> m is Direct || m is Uring,
        m.bypasses_cache() <==> m is Direct || m is DirectSync,
{
}

} // verus!
