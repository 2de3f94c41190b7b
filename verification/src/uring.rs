//! The io_uring write loop: which write to submit next, when to wait, when to stop.
//!
//! The loop keeps up to `queue_depth` writes in flight. It tops up the submission queue from a
//! pool of free staging buffers (slots), waits, and reaps completions as they arrive, in any
//! order. A slot carries its index through the kernel, and is free again once the completion
//! that names it has been reaped. Where a write does not succeed, nothing more is submitted, and
//! the loop fails once nothing is in flight.

use crate::args::{Args, MAX_RING_ENTRIES};
use crate::text::{decimal, decimal_text};
use vstd::arithmetic::power2::{
    lemma2_to64, lemma_pow2_pos, lemma_pow2_unfold, pow2,
};
use vstd::prelude::*;
use vstd::string::*;

verus! {

/// A write to submit: the block in `slot`, at `offset`, with the length field `len`.
#[derive(Clone, Copy, PartialEq, Eq, Debug, Structural)]
pub struct WriteRequest {
    pub slot: usize,
    pub offset: u64,
    pub len: u32,
}

/// Why a write did not succeed.
#[derive(Clone, Copy, PartialEq, Eq, Debug, Structural)]
pub enum WriteError {
    /// The write failed with this error number.
    Os(i32),
    /// The write stored fewer bytes than a block.
    Short { written: u64, expected: u64 },
}

/// What the loop does next.
#[derive(Clone, Copy, PartialEq, Eq, Debug, Structural)]
pub enum Action {
    /// Read the clock.
    ReadClock,
    /// Put the request on the submission queue.
    Push(WriteRequest),
    /// Submit what is queued, and wait for at least one completion.
    SubmitAndWait,
    /// Stop: nothing is in flight and nothing more is to be written.
    Finish,
    /// Stop with an error: a write did not succeed, and nothing is in flight any more.
    Fail(WriteError),
}

/// The state of the loop.
#[verifier::ext_equal]
pub struct RingView {
    /// How many slots there are.
    pub depth: nat,
    /// Bytes per write.
    pub block: nat,
    /// How long to write, in seconds.
    pub limit: nat,
    /// Stop once this many bytes are submitted.
    pub cap: Option<nat>,
    /// The slots that the kernel does not own; the last is used next.
    pub free: Seq<usize>,
    /// Where the next write goes.
    pub offset: nat,
    /// Bytes and writes that were completed with success.
    pub bytes: nat,
    pub writes: nat,
    /// Writes that were completed without success.
    pub lost: nat,
    /// The error of the first of them.
    pub error: Option<WriteError>,
    /// The most writes that were in flight at a wait.
    pub peak: nat,
}

impl RingView {
    /// How many writes are in flight.
    pub open spec fn in_flight(self) -> nat {
        (self.depth - self.free.len()) as nat
    }

    /// Whether the kernel owns `slot`.
    pub open spec fn owned_by_kernel(self, slot: int) -> bool {
        0 <= slot < self.depth && forall|i: int|
            0 <= i < self.free.len() ==> #[trigger] self.free[i] != slot
    }

    /// How many writes were ever submitted.
    pub open spec fn submitted(self) -> nat {
        self.writes + self.lost + self.in_flight()
    }

    /// Whether all bytes that may be written are submitted.
    pub open spec fn cap_reached(self) -> bool {
        self.cap matches Some(cap) && self.offset >= cap
    }

    /// Whether no further write is to be submitted, `elapsed` nanoseconds after the start.
    pub open spec fn deadline_reached(self, elapsed: nat) -> bool {
        elapsed >= self.limit * 1_000_000_000 || self.cap_reached()
    }

    /// Whether no write is ever submitted: no time is given, or no byte.
    pub open spec fn idle(self) -> bool {
        self.limit == 0 || self.cap == Some(0nat)
    }

    /// Whether a write may be submitted.
    pub open spec fn may_push(self) -> bool {
        self.free.len() > 0 && self.limit > 0 && !self.cap_reached() && self.error is None
    }

    /// Whether the offset behind the next write can be counted.
    pub open spec fn has_room(self) -> bool {
        self.offset + self.block <= u64::MAX
    }

    /// The next write: one block from the slot that is used next.
    pub open spec fn request(self) -> WriteRequest {
        WriteRequest {
            slot: self.free.last(),
            offset: self.offset as u64,
            len: self.block as u32,
        }
    }

    /// What holds at every point of the loop.
    pub open spec fn inv(self) -> bool {
        &&& 1 <= self.depth <= usize::MAX
        &&& self.block >= 1
        &&& self.idle() || self.block <= u32::MAX
        &&& self.free.no_duplicates()
        &&& forall|i: int| 0 <= i < self.free.len() ==> #[trigger] self.free[i] < self.depth
        &&& self.free.len() <= self.depth
        &&& self.offset == self.submitted() * self.block
        &&& self.offset <= u64::MAX
        &&& self.bytes == self.writes * self.block
        &&& self.error is Some <==> self.lost > 0
        &&& self.peak <= self.depth
        &&& self.offset > 0 ==> (self.cap matches Some(cap) ==> self.offset - self.block < cap)
    }

    /// Nothing is submitted now: wait while writes are in flight, and else stop, with the
    /// first error if there was one.
    pub open spec fn settled(self) -> (RingView, Action) {
        if self.in_flight() == 0 {
            (
                self,
                match self.error {
                    Some(e) => Action::Fail(e),
                    None => Action::Finish,
                },
            )
        } else {
            (
                RingView {
                    peak: if self.peak < self.in_flight() {
                        self.in_flight()
                    } else {
                        self.peak
                    },
                    ..self
                },
                Action::SubmitAndWait,
            )
        }
    }

    /// A slot may be free for another write, unless one did not succeed.
    pub open spec fn topping_up(self) -> (RingView, Action) {
        if self.free.len() > 0 && self.error is None {
            (self, Action::ReadClock)
        } else {
            self.settled()
        }
    }

    /// The clock says that `elapsed` nanoseconds have passed, and a slot is free.
    pub open spec fn timed(self, elapsed: nat) -> (RingView, Action) {
        if self.deadline_reached(elapsed) {
            self.settled()
        } else {
            (self, Action::Push(self.request()))
        }
    }

    /// The kernel takes the next write.
    pub open spec fn submit(self) -> RingView {
        RingView { free: self.free.drop_last(), offset: self.offset + self.block, ..self }
    }

    /// The submission queue took the next write, or was full.
    pub open spec fn pushed(self, accepted: bool) -> (RingView, Action) {
        if accepted {
            self.submit().topping_up()
        } else {
            self.settled()
        }
    }

    /// What a completion with the result `res` says against the write.
    pub open spec fn verdict(self, res: i32) -> Option<WriteError> {
        if res < 0 {
            Some(WriteError::Os((-res) as i32))
        } else if res != self.block {
            Some(WriteError::Short { written: res as u64, expected: self.block as u64 })
        } else {
            None
        }
    }

    /// A completion: its slot is free again, and its write is counted or lost.
    pub open spec fn complete(self, slot: usize, res: i32) -> RingView {
        match self.verdict(res) {
            None => RingView {
                free: self.free.push(slot),
                bytes: self.bytes + self.block,
                writes: self.writes + 1,
                ..self
            },
            Some(e) => RingView {
                free: self.free.push(slot),
                lost: self.lost + 1,
                error: if self.error is None {
                    Some(e)
                } else {
                    self.error
                },
                ..self
            },
        }
    }

    /// Reaps completions in order.
    pub open spec fn reaped(self, done: Seq<(u64, i32)>) -> RingView
        decreases done.len(),
    {
        if done.len() == 0 {
            self
        } else {
            self.complete(done[0].0 as usize, done[0].1).reaped(done.drop_first())
        }
    }

    /// Whether each completion names a slot that the kernel owns at that point, and an error
    /// number can be told from its negative.
    pub open spec fn admissible(self, done: Seq<(u64, i32)>) -> bool
        decreases done.len(),
    {
        if done.len() == 0 {
            true
        } else {
            &&& self.owned_by_kernel(done[0].0 as int)
            &&& done[0].1 > i32::MIN
            &&& self.complete(done[0].0 as usize, done[0].1).admissible(done.drop_first())
        }
    }
}

/// The write loop's state.
pub struct WriteRing {
    depth: usize,
    block: u64,
    limit: u64,
    cap: Option<u64>,
    free: Vec<usize>,
    offset: u64,
    bytes: u64,
    writes: u64,
    lost: u64,
    error: Option<WriteError>,
    peak: usize,
}

impl View for WriteRing {
    type V = RingView;

    closed spec fn view(&self) -> RingView {
        RingView {
            depth: self.depth as nat,
            block: self.block as nat,
            limit: self.limit as nat,
            cap: match self.cap {
                Some(cap) => Some(cap as nat),
                None => None,
            },
            free: self.free@,
            offset: self.offset as nat,
            bytes: self.bytes as nat,
            writes: self.writes as nat,
            lost: self.lost as nat,
            error: self.error,
            peak: self.peak as nat,
        }
    }
}

/// The loop before its first write: every slot is free, and slot 0 is used first.
pub open spec fn fresh_ring(args: Args) -> RingView {
    RingView {
        depth: args.queue_depth as nat,
        block: args.block_size as nat,
        limit: args.duration as nat,
        cap: match args.max_bytes {
            Some(cap) => Some(cap as nat),
            None => None,
        },
        free: Seq::new(
            args.queue_depth as nat,
            |i: int| (args.queue_depth - 1 - i) as usize,
        ),
        offset: 0,
        bytes: 0,
        writes: 0,
        lost: 0,
        error: None,
        peak: 0,
    }
}

proof fn lemma_distinct_below(s: Seq<usize>, n: nat)
    requires
        s.no_duplicates(),
        forall|i: int| 0 <= i < s.len() ==> #[trigger] s[i] < n,
    ensures
        s.len() <= n,
{
    let t = s.map_values(|x: usize| x as int);
    assert(t.no_duplicates());
    t.unique_seq_to_set();
    let all = vstd::set_lib::set_int_range(0, n as int);
    vstd::set_lib::lemma_int_range(0, n as int);
    assert forall|x: int| t.to_set().contains(x) implies all.contains(x) by {
        let i = choose|i: int| 0 <= i < t.len() && t[i] == x;
        assert(s[i] < n);
    }
    vstd::set_lib::lemma_len_subset(t.to_set(), all);
}

pub(crate) proof fn lemma_complete_keeps_inv(s: RingView, slot: usize, res: i32)
    requires
        s.inv(),
        s.owned_by_kernel(slot as int),
    ensures
        s.complete(slot, res).inv(),
        s.bytes + s.block <= s.offset,
        s.writes + 1 <= s.offset,
        s.lost + 1 <= s.offset,
{
    let t = s.complete(slot, res);
    assert(t.free.no_duplicates());
    lemma_distinct_below(t.free, t.depth);
    assert(t.submitted() == s.submitted());
    assert(s.bytes + s.block == (s.writes + 1) * s.block) by (nonlinear_arith)
        requires
            s.bytes == s.writes * s.block,
    ;
    let n = s.submitted();
    assert((s.writes + 1) * s.block <= n * s.block) by (nonlinear_arith)
        requires
            s.writes + 1 <= n,
    ;
    assert(n <= n * s.block) by (nonlinear_arith)
        requires
            s.block >= 1,
    ;
}

pub(crate) proof fn lemma_submit_keeps_inv(s: RingView)
    requires
        s.inv(),
        s.may_push(),
        s.has_room(),
    ensures
        s.submit().inv(),
{
    let t = s.submit();
    assert(t.submitted() == s.submitted() + 1);
    assert(t.offset == t.submitted() * t.block) by (nonlinear_arith)
        requires
            s.offset == s.submitted() * s.block,
            t.offset == s.offset + s.block,
            t.submitted() == s.submitted() + 1,
            t.block == s.block,
    ;
}

pub(crate) proof fn lemma_fresh_inv(args: Args)
    requires
        args.valid(),
        args.fits_ring(),
    ensures
        fresh_ring(args).inv(),
{
    let s = fresh_ring(args);
    assert(s.free.no_duplicates());
    assert(s.submitted() == 0);
    assert(0 * s.block == 0);
    assert(forall|i: int| 0 <= i < s.free.len() ==> #[trigger] s.free[i] < s.depth);
}

impl WriteRing {
    /// The loop before its first write.
    pub fn new(args: &Args) -> (r: WriteRing)
        requires
            args.valid(),
            args.fits_ring(),
        ensures
            r@ == fresh_ring(*args),
            r@.inv(),
    {
        proof {
            lemma_fresh_inv(*args);
        }
        let depth: usize = args.queue_depth;
        let mut free: Vec<usize> = Vec::new();
        let mut left: usize = depth;
        while left > 0
            invariant
                left <= depth,
                free@ == Seq::new((depth - left) as nat, |i: int| (depth - 1 - i) as usize),
            decreases left,
        {
            left -= 1;
            free.push(left);
        }
        WriteRing {
            depth,
            block: args.block_size as u64,
            limit: args.duration,
            cap: args.max_bytes,
            free,
            offset: 0,
            bytes: 0,
            writes: 0,
            lost: 0,
            error: None,
            peak: 0,
        }
    }

    fn settle(&mut self) -> (a: Action)
        requires
            old(self)@.inv(),
        ensures
            (final(self)@, a) == old(self)@.settled(),
            final(self)@.inv(),
    {
        let in_flight: usize = self.depth - self.free.len();
        if in_flight == 0 {
            return match self.error {
                Some(e) => Action::Fail(e),
                None => Action::Finish,
            };
        }
        if self.peak < in_flight {
            self.peak = in_flight;
        }
        Action::SubmitAndWait
    }

    /// Starts a round: tops up the submission queue from the free slots.
    pub fn top_up(&mut self) -> (a: Action)
        requires
            old(self)@.inv(),
        ensures
            (final(self)@, a) == old(self)@.topping_up(),
            final(self)@.inv(),
    {
        if self.free.len() > 0 && self.error.is_none() {
            Action::ReadClock
        } else {
            self.settle()
        }
    }

    fn past_deadline(&self, elapsed: u128) -> (r: bool)
        ensures
            r == self@.deadline_reached(elapsed as nat),
    {
        elapsed >= (self.limit as u128) * 1_000_000_000 || match self.cap {
            Some(cap) => self.offset >= cap,
            None => false,
        }
    }

    /// The clock has been read: `elapsed` nanoseconds since the start.
    pub fn on_clock(&mut self, elapsed: u128) -> (a: Action)
        requires
            old(self)@.inv(),
            old(self)@.free.len() > 0,
            old(self)@.error is None,
        ensures
            (final(self)@, a) == old(self)@.timed(elapsed as nat),
            final(self)@.inv(),
            a matches Action::Push(w) ==> {
                &&& old(self)@.may_push()
                &&& w.len == old(self)@.block
                &&& w.offset == old(self)@.offset
            },
    {
        if self.past_deadline(elapsed) {
            self.settle()
        } else {
            let slot: usize = self.free[self.free.len() - 1];
            Action::Push(WriteRequest { slot, offset: self.offset, len: self.block as u32 })
        }
    }

    /// Whether a write may be submitted, and the offset behind it can be counted.
    pub fn can_push(&self) -> (r: bool)
        ensures
            r == (self@.may_push() && self@.has_room()),
    {
        self.free.len() > 0 && self.limit > 0 && (match self.cap {
            Some(cap) => self.offset < cap,
            None => true,
        }) && self.error.is_none() && self.block <= u64::MAX - self.offset
    }

    /// The request has been offered to the submission queue, which took it or was full.
    pub fn on_push(&mut self, accepted: bool) -> (a: Action)
        requires
            old(self)@.inv(),
            accepted ==> old(self)@.may_push() && old(self)@.has_room(),
        ensures
            (final(self)@, a) == old(self)@.pushed(accepted),
            final(self)@.inv(),
    {
        if !accepted {
            // Submission queue full: drain completions before retrying.
            return self.settle();
        }
        proof {
            lemma_submit_keeps_inv(self@);
        }
        let ghost before = self@;
        self.free.pop();
        self.offset = self.offset + self.block;
        assert(self@ =~= before.submit());
        self.top_up()
    }

    /// Whether the kernel owns `slot`, given the slots that are free.
    fn is_owned(free: &Vec<usize>, depth: usize, slot: u64) -> (r: bool)
        ensures
            r == (slot < depth && forall|i: int| 0 <= i < free.len() ==> #[trigger] free[i] != slot),
    {
        if slot >= depth as u64 {
            return false;
        }
        let mut i: usize = 0;
        while i < free.len()
            invariant
                i <= free.len(),
                forall|j: int| 0 <= j < i ==> #[trigger] free[j] != slot,
            decreases free.len() - i,
        {
            if free[i] as u64 == slot {
                return false;
            }
            i += 1;
        }
        true
    }

    fn check(&self, res: i32) -> (r: Option<WriteError>)
        requires
            res > i32::MIN,
        ensures
            r == self@.verdict(res),
    {
        if res < 0 {
            return Some(WriteError::Os(-res));
        }
        let written: u64 = res as u64;
        if written != self.block {
            return Some(WriteError::Short { written, expected: self.block });
        }
        None
    }

    /// Whether the completions `done` can follow from what was submitted.
    pub fn admits(&self, done: &Vec<(u64, i32)>) -> (r: bool)
        ensures
            r == self@.admissible(done@),
    {
        let mut free: Vec<usize> = Vec::new();
        let mut k: usize = 0;
        while k < self.free.len()
            invariant
                k <= self.free.len(),
                free@ == self.free@.take(k as int),
            decreases self.free.len() - k,
        {
            free.push(self.free[k]);
            k += 1;
        }
        let mut i: usize = 0;
        let ghost mut now = self@;
        assert(done@.skip(0) =~= done@);
        while i < done.len()
            invariant
                i <= done.len(),
                now.free == free@,
                now.depth == self.depth,
                self@.admissible(done@) == now.admissible(done@.skip(i as int)),
            decreases done.len() - i,
        {
            let (slot, res) = done[i];
            assert(done@.skip(i as int).drop_first() =~= done@.skip(i + 1));
            if res == i32::MIN || !Self::is_owned(&free, self.depth, slot) {
                return false;
            }
            free.push(slot as usize);
            proof {
                now = now.complete(slot as usize, res);
            }
            i += 1;
        }
        true
    }

    /// Reaps completions, each with the slot and the result that the kernel reports. A failed
    /// or short write ends the run: nothing more is submitted, the loop waits for the writes
    /// that are still in flight, and then it fails with the first error.
    pub fn on_completions(&mut self, done: &Vec<(u64, i32)>) -> (a: Action)
        requires
            old(self)@.inv(),
            old(self)@.admissible(done@),
        ensures
            final(self)@.inv(),
            (final(self)@, a) == old(self)@.reaped(done@).topping_up(),
    {
        let mut i: usize = 0;
        assert(done@.skip(0) =~= done@);
        while i < done.len()
            invariant
                i <= done.len(),
                self@.inv(),
                self@.admissible(done@.skip(i as int)),
                old(self)@.reaped(done@) == self@.reaped(done@.skip(i as int)),
            decreases done.len() - i,
        {
            let (slot, res) = done[i];
            let ghost before = self@;
            assert(done@.skip(i as int)[0] == (slot, res));
            assert(done@.skip(i as int).drop_first() =~= done@.skip(i + 1));
            proof {
                lemma_complete_keeps_inv(before, slot as usize, res);
            }
            match self.check(res) {
                None => {
                    self.bytes = self.bytes + self.block;
                    self.writes = self.writes + 1;
                },
                Some(e) => {
                    self.lost = self.lost + 1;
                    if self.error.is_none() {
                        self.error = Some(e);
                    }
                },
            }
            self.free.push(slot as usize);
            assert(self@ =~= before.complete(slot as usize, res));
            i += 1;
        }
        self.top_up()
    }

    /// Bytes completed so far.
    pub fn bytes(&self) -> (r: u64)
        ensures
            r == self@.bytes,
    {
        self.bytes
    }

    /// Writes completed so far.
    pub fn writes(&self) -> (r: u64)
        ensures
            r == self@.writes,
    {
        self.writes
    }

    /// The most writes that were in flight at a wait.
    pub fn peak_in_flight(&self) -> (r: usize)
        ensures
            r == self@.peak,
    {
        self.peak
    }
}

/// The message for a short write.
pub open spec fn short_write(written: nat, expected: nat) -> Seq<char> {
    "short write: "@ + decimal(written) + " of "@ + decimal(expected) + " bytes"@
}

/// The message for a write that stored `written` of `expected` bytes.
pub fn short_write_message(written: u64, expected: u64) -> (r: String)
    ensures
        r@ == short_write(written as nat, expected as nat),
{
    let mut r = "short write: ".to_owned();
    r.append(decimal_text(written).as_str());
    r.append(" of ");
    r.append(decimal_text(expected).as_str());
    r.append(" bytes");
    r
}

/// The smallest power of two that is at least `n`.
pub open spec fn power_of_two_at_least(n: nat) -> nat
    decreases n,
{
    if n <= 1 {
        1
    } else {
        2 * power_of_two_at_least((n + 1) / 2)
    }
}

/// How many entries the ring is asked for: the power of two that holds the queue, at least
/// two.
pub open spec fn entries_for(queue_depth: nat) -> nat {
    let p = power_of_two_at_least(queue_depth);
    if p < 2 {
        2
    } else {
        p
    }
}

pub(crate) proof fn lemma_power_covers(n: nat)
    ensures
        power_of_two_at_least(n) >= n,
    decreases n,
{
    if n > 1 {
        lemma_power_covers((n + 1) / 2);
    }
}

proof fn lemma_power_at_least_one(n: nat)
    ensures
        power_of_two_at_least(n) >= 1,
    decreases n,
{
    if n > 1 {
        lemma_power_at_least_one((n + 1) / 2);
    }
}

pub(crate) proof fn lemma_power_between(n: nat, k: nat)
    ensures
        n <= pow2(k) ==> power_of_two_at_least(n) <= pow2(k),
        n > pow2(k) ==> power_of_two_at_least(n) >= 2 * pow2(k),
    decreases k,
{
    lemma_pow2_pos(k);
    if n > 1 {
        let m = (n + 1) / 2;
        lemma_power_at_least_one(m);
        if k == 0 {
            lemma2_to64();
        } else {
            lemma_pow2_unfold(k);
            lemma_power_between(m, (k - 1) as nat);
        }
    }
}

fn next_power_of_two(n: u32) -> (r: u32)
    requires
        power_of_two_at_least(n as nat) <= u32::MAX,
    ensures
        r == power_of_two_at_least(n as nat),
    decreases n,
{
    if n <= 1 {
        1
    } else {
        let half: u32 = n / 2 + n % 2;
        assert(half == (n + 1) / 2);
        2 * next_power_of_two(half)
    }
}

/// Whether an io_uring request can carry a block of this size, where any is to be written.
pub fn block_fits_ring(args: &Args) -> (r: bool)
    ensures
        r == args.block_fits_ring(),
{
    let asks_for_writes = args.duration > 0 && match args.max_bytes {
        Some(cap) => cap > 0,
        None => true,
    };
    !asks_for_writes || args.block_size as u64 <= u32::MAX as u64
}

/// Whether a ring can hold a queue of this depth.
pub fn depth_fits_ring(args: &Args) -> (r: bool)
    ensures
        r == (args.queue_depth <= MAX_RING_ENTRIES),
{
    args.queue_depth as u64 <= MAX_RING_ENTRIES as u64
}

/// How many entries to ask the ring for.
pub fn ring_entries(queue_depth: usize) -> (r: u32)
    requires
        queue_depth <= MAX_RING_ENTRIES,
    ensures
        r == entries_for(queue_depth as nat),
        r >= queue_depth,
{
    proof {
        lemma2_to64();
        lemma_power_between(queue_depth as nat, 31);
        lemma_power_covers(queue_depth as nat);
    }
    // Ring must be at least the queue depth; io_uring rounds to a power of two.
    let p: u32 = next_power_of_two(queue_depth as u32);
    if p < 2 {
        2
    } else {
        p
    }
}

} // verus!
