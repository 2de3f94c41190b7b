//! The `write(2)` loop: one block after another, one syscall per write.

use crate::args::Args;
use vstd::prelude::*;

verus! {

/// The state of the loop.
#[verifier::ext_equal]
pub struct SyncView {
    /// Bytes per write.
    pub block: nat,
    /// How long to write, in seconds.
    pub limit: nat,
    /// Stop once this many bytes are written.
    pub cap: Option<nat>,
    /// Where the next write goes.
    pub offset: nat,
    /// Bytes and writes completed.
    pub bytes: nat,
    pub writes: nat,
}

impl SyncView {
    /// Whether all bytes that may be written are written.
    pub open spec fn cap_reached(self) -> bool {
        self.cap matches Some(cap) && self.offset >= cap
    }

    /// Whether another block is to be written, `elapsed` nanoseconds after the start.
    pub open spec fn goes_on(self, elapsed: nat) -> bool {
        elapsed < self.limit * 1_000_000_000 && !self.cap_reached()
    }

    /// What holds at every point of the loop: the blocks written so far fill the file up to
    /// `offset`, which passes the cap by less than a block.
    pub open spec fn inv(self) -> bool {
        &&& self.block >= 1
        &&& self.offset == self.writes * self.block
        &&& self.bytes == self.offset
        &&& self.offset > 0 ==> (self.cap matches Some(cap) ==> self.offset - self.block < cap)
    }

    /// A block is written.
    pub open spec fn written(self) -> SyncView {
        SyncView {
            offset: self.offset + self.block,
            bytes: self.bytes + self.block,
            writes: self.writes + 1,
            ..self
        }
    }
}

/// The loop before its first write.
pub open spec fn fresh_sync(args: Args) -> SyncView {
    SyncView {
        block: args.block_size as nat,
        limit: args.duration as nat,
        cap: match args.max_bytes {
            Some(cap) => Some(cap as nat),
            None => None,
        },
        offset: 0,
        bytes: 0,
        writes: 0,
    }
}

/// The write loop's state.
pub struct SyncWriter {
    block: u64,
    limit: u64,
    cap: Option<u64>,
    offset: u64,
    bytes: u64,
    writes: u64,
}

impl View for SyncWriter {
    type V = SyncView;

    closed spec fn view(&self) -> SyncView {
        SyncView {
            block: self.block as nat,
            limit: self.limit as nat,
            cap: match self.cap {
                Some(cap) => Some(cap as nat),
                None => None,
            },
            offset: self.offset as nat,
            bytes: self.bytes as nat,
            writes: self.writes as nat,
        }
    }
}

proof fn lemma_written_keeps_inv(s: SyncView)
    requires
        s.inv(),
        !s.cap_reached(),
    ensures
        s.written().inv(),
        s.writes <= s.offset,
{
    assert((s.writes + 1) * s.block == s.writes * s.block + s.block) by (nonlinear_arith);
    assert(s.writes <= s.writes * s.block) by (nonlinear_arith)
        requires
            s.block >= 1,
    ;
}

impl SyncWriter {
    /// The loop before its first write.
    pub fn new(args: &Args) -> (r: SyncWriter)
        requires
            args.valid(),
        ensures
            r@ == fresh_sync(*args),
            r@.inv(),
    {
        SyncWriter {
            block: args.block_size as u64,
            limit: args.duration,
            cap: args.max_bytes,
            offset: 0,
            bytes: 0,
            writes: 0,
        }
    }

    /// Where to write the next block, `elapsed` nanoseconds after the start, or `None` when
    /// the loop is to stop.
    pub fn next(&self, elapsed: u128) -> (r: Option<u64>)
        ensures
            match r {
                Some(offset) => self@.goes_on(elapsed as nat) && offset == self@.offset,
                None => !self@.goes_on(elapsed as nat),
            },
    {
        if elapsed < (self.limit as u128) * 1_000_000_000 && !(match self.cap {
            Some(cap) => self.offset >= cap,
            None => false,
        }) {
            Some(self.offset)
        } else {
            None
        }
    }

    /// Whether another block is allowed, and the offset behind it can be counted.
    pub fn can_write(&self) -> (r: bool)
        ensures
            r == (!self@.cap_reached() && self@.offset + self@.block <= u64::MAX),
    {
        (match self.cap {
            Some(cap) => self.offset < cap,
            None => true,
        }) && self.block <= u64::MAX - self.offset
    }

    /// The block at `offset` has been written.
    pub fn on_written(&mut self)
        requires
            old(self)@.inv(),
            !old(self)@.cap_reached(),
            old(self)@.offset + old(self)@.block <= u64::MAX,
        ensures
            final(self)@ == old(self)@.written(),
            final(self)@.inv(),
    {
        proof {
            lemma_written_keeps_inv(self@);
        }
        self.offset = self.offset + self.block;
        self.bytes = self.bytes + self.block;
        self.writes = self.writes + 1;
    }

    /// Bytes written so far.
    pub fn bytes(&self) -> (r: u64)
        ensures
            r == self@.bytes,
    {
        self.bytes
    }

    /// Writes done so far.
    pub fn writes(&self) -> (r: u64)
        ensures
            r == self@.writes,
    {
        self.writes
    }

    /// The most writes that were in flight at once: one, unless none was made.
    #[verifier::allow_in_spec]
    pub fn peak_in_flight(&self) -> (r: usize)
        ensures
            r == (if self@.writes == 0 {
                0int
            } else {
                1
            }),
        returns
            (if self@.writes == 0 {
                0usize
            } else {
                1usize
            }),
    {
        if self.writes == 0 {
            0
        } else {
            1
        }
    }
}

/// Where the loop stands after `n` writes.
pub open spec fn after_writes(args: Args, n: nat) -> SyncView
    decreases n,
{
    if n == 0 {
        fresh_sync(args)
    } else {
        after_writes(args, (n - 1) as nat).written()
    }
}

/// Each write appends one block: after `n` writes the loop has written `n` blocks from offset
/// zero, and the next goes behind them.
pub proof fn law_blocks_are_written_in_sequence(args: Args, n: nat)
    ensures
        after_writes(args, n).offset == n * args.block_size,
        after_writes(args, n).bytes == n * args.block_size,
        after_writes(args, n).writes == n,
        after_writes(args, n).block == args.block_size,
        after_writes(args, n).limit == args.duration,
        after_writes(args, n).cap == fresh_sync(args).cap,
    decreases n,
{
    let block = args.block_size as int;
    if n == 0 {
        assert(0 * block == 0);
    } else {
        law_blocks_are_written_in_sequence(args, (n - 1) as nat);
        assert((n - 1) * block + block == n * block) by (nonlinear_arith);
    }
}

/// With a cap, the loop stops at the first block boundary that reaches it, however much time
/// is left.
pub proof fn law_cap_stops_at_a_block_boundary(args: Args, n: nat, elapsed: nat)
    requires
        elapsed < args.duration * 1_000_000_000,
        args.max_bytes is Some,
    ensures
        after_writes(args, n).goes_on(elapsed) <==> n * args.block_size < args.max_bytes->0,
{
    law_blocks_are_written_in_sequence(args, n);
}

/// Whether a run in which the clock shows `clock`, one reading before each write and one at
/// the end, is a whole run: it goes on at every reading but the last, and stops there.
pub open spec fn whole_run(args: Args, clock: Seq<nat>) -> bool {
    &&& clock.len() > 0
    &&& forall|i: int|
        0 <= i < clock.len() - 1 ==> after_writes(args, i as nat).goes_on(#[trigger] clock[i])
    &&& !after_writes(args, (clock.len() - 1) as nat).goes_on(clock.last())
}

/// How many blocks reach `cap`: the quotient, rounded up.
pub open spec fn blocks_to_reach(cap: nat, block: nat) -> nat {
    (cap + block - 1) as nat / block
}

/// A number of blocks that reaches the cap, where one block fewer does not, is the one that
/// `blocks_to_reach` gives.
pub(crate) proof fn lemma_blocks_to_reach(cap: nat, block: nat, n: nat)
    requires
        block >= 1,
        n * block >= cap,
        n > 0 ==> (n - 1) * block < cap,
    ensures
        n == blocks_to_reach(cap, block),
{
    let a = (cap + block - 1) as int;
    let r = a - n * block;
    assert(0 <= r < block) by {
        if n > 0 {
            assert((n - 1) * block == n * block - block) by (nonlinear_arith);
        } else {
            assert(0 * block == 0);
        }
    }
    vstd::arithmetic::div_mod::lemma_fundamental_div_mod_converse(a, block as int, n as int, r);
}

/// With a cap, and with time left throughout, a whole run writes exactly the blocks that it
/// takes to reach the cap.
pub proof fn law_cap_fixes_the_writes(args: Args, clock: Seq<nat>)
    requires
        args.valid(),
        args.max_bytes is Some,
        whole_run(args, clock),
        forall|i: int|
            0 <= i < clock.len() ==> #[trigger] clock[i] < args.duration * 1_000_000_000,
    ensures
        clock.len() - 1 == blocks_to_reach(
            args.max_bytes->0 as nat,
            args.block_size as nat,
        ),
{
    let n = (clock.len() - 1) as nat;
    assert(clock[n as int] < args.duration * 1_000_000_000);
    law_cap_stops_at_a_block_boundary(args, n, clock.last());
    if n > 0 {
        let k = (n - 1) as nat;
        assert(after_writes(args, k).goes_on(clock[k as int]));
        law_cap_stops_at_a_block_boundary(args, k, clock[k as int]);
    }
    lemma_blocks_to_reach(args.max_bytes->0 as nat, args.block_size as nat, n);
}

/// The loop starts with nothing written, and each write adds one to the writes and one block to
/// the bytes and to the offset; the settings stay.
pub proof fn law_each_write_adds_one_block(args: Args, s: SyncView)
    ensures
        ({
            let f = fresh_sync(args);
            &&& f.offset == 0 && f.bytes == 0 && f.writes == 0
            &&& f.block == args.block_size && f.limit == args.duration
            &&& f.cap is Some <==> args.max_bytes is Some
            &&& args.max_bytes matches Some(cap) ==> f.cap == Some(cap as nat)
        }),
        s.written().offset == s.offset + s.block,
        s.written().bytes == s.bytes + s.block,
        s.written().writes == s.writes + 1,
        s.written().block == s.block && s.written().limit == s.limit && s.written().cap == s.cap,
{
}

/// In any state, another block is written exactly while the time is not up and the offset is
/// short of the cap, where there is one: neither makes up for the other.
pub proof fn law_time_and_cap_both_stop_the_loop(s: SyncView, elapsed: nat)
    ensures
        s.goes_on(elapsed) <==> elapsed < s.limit * 1_000_000_000 && (s.cap matches Some(cap)
            ==> s.offset < cap),
        s.cap_reached() <==> (s.cap matches Some(cap) && s.offset >= cap),
{
}

/// After `n` writes the loop goes on exactly while less than the duration has passed and, where
/// there is a cap, the `n` blocks do not reach it.
pub proof fn law_when_the_loop_goes_on(args: Args, n: nat, elapsed: nat)
    ensures
        after_writes(args, n).goes_on(elapsed) <==> elapsed < args.duration * 1_000_000_000 && (
        args.max_bytes matches Some(cap) ==> n * args.block_size < cap),
{
    law_blocks_are_written_in_sequence(args, n);
}

/// No write of a run is started once the time is up, with a cap or without. A run stops because
/// the time is up, or because its blocks reach the cap.
pub proof fn law_no_write_is_started_after_time(args: Args, clock: Seq<nat>, i: int)
    requires
        whole_run(args, clock),
    ensures
        0 <= i < clock.len() - 1 ==> clock[i] < args.duration * 1_000_000_000,
        clock.last() >= args.duration * 1_000_000_000 || (args.max_bytes matches Some(cap) && (
        clock.len() - 1) * args.block_size >= cap),
{
    law_when_the_loop_goes_on(args, (clock.len() - 1) as nat, clock.last());
    if 0 <= i < clock.len() - 1 {
        law_when_the_loop_goes_on(args, i as nat, clock[i]);
        assert(after_writes(args, i as nat).goes_on(clock[i]));
    }
}

/// With `write(2)` the peak is one as soon as a write was made, and zero before.
pub proof fn law_one_write_at_a_time(w: SyncWriter)
    ensures
        w.peak_in_flight() <= 1,
        w.peak_in_flight() == 1 <==> w@.writes > 0,
{
}

} // verus!
