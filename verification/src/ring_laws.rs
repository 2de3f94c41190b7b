//! What holds of the io_uring write loop as a whole.

use crate::args::{Args, ALIGN};
use crate::buffered::{
    after_writes, blocks_to_reach, law_blocks_are_written_in_sequence, law_cap_fixes_the_writes,
    lemma_blocks_to_reach, whole_run,
};
use crate::stats::{never_overlapped, Stats};
use crate::text::decimal;
use crate::uring::{
    entries_for, fresh_ring, lemma_complete_keeps_inv, lemma_fresh_inv, lemma_power_between,
    lemma_power_covers, lemma_submit_keeps_inv, power_of_two_at_least, short_write, Action,
    RingView, WriteError,
};
use vstd::arithmetic::power2::{lemma2_to64, pow2};
use vstd::prelude::*;

verus! {

/// A buffer that is handed to the kernel is one of the `queue_depth` buffers, which the kernel
/// does not own; from then on the kernel owns it. No other buffer changes hands.
pub proof fn law_submission_takes_a_free_buffer(s: RingView)
    requires
        s.inv(),
        s.may_push(),
    ensures
        s.request().slot < s.depth,
        !s.owned_by_kernel(s.request().slot as int),
        forall|x: int| #[trigger]
            s.submit().owned_by_kernel(x) <==> s.owned_by_kernel(x) || x == s.request().slot,
        s.has_room() ==> s.submit().inv(),
{
    let t = s.submit();
    let slot = s.free.last();
    let last = s.free.len() - 1;
    assert(s.free[last] == slot);
    assert forall|x: int| #[trigger] t.owned_by_kernel(x) <==> s.owned_by_kernel(x) || x
        == slot by {
        if s.owned_by_kernel(x) {
            assert forall|i: int| 0 <= i < t.free.len() implies #[trigger] t.free[i] != x by {
                assert(s.free[i] != x);
            }
        }
        if x == slot {
            assert forall|i: int| 0 <= i < t.free.len() implies #[trigger] t.free[i] != x by {
                assert(s.free[i] != s.free[last]);
            }
        }
        if t.owned_by_kernel(x) && x != slot {
            assert forall|i: int| 0 <= i < s.free.len() implies #[trigger] s.free[i] != x by {
                if i < last {
                    assert(t.free[i] != x);
                }
            }
        }
    }
    if s.has_room() {
        lemma_submit_keeps_inv(s);
    }
}

/// A completion, of whatever result, gives back the buffer that it names, and no other.
pub proof fn law_completion_returns_its_buffer(s: RingView, slot: usize, res: i32)
    requires
        s.inv(),
        s.owned_by_kernel(slot as int),
    ensures
        forall|x: int| #[trigger]
            s.complete(slot, res).owned_by_kernel(x) <==> s.owned_by_kernel(x) && x != slot,
        s.complete(slot, res).inv(),
{
    let t = s.complete(slot, res);
    let last = s.free.len() as int;
    assert(t.free[last] == slot);
    assert forall|x: int| #[trigger] t.owned_by_kernel(x) <==> s.owned_by_kernel(x) && x
        != slot by {
        if t.owned_by_kernel(x) {
            assert forall|i: int| 0 <= i < s.free.len() implies #[trigger] s.free[i] != x by {
                assert(t.free[i] != x);
            }
        }
        if s.owned_by_kernel(x) && x != slot {
            assert forall|i: int| 0 <= i < t.free.len() implies #[trigger] t.free[i] != x by {
                if i < last {
                    assert(s.free[i] != x);
                }
            }
        }
    }
    lemma_complete_keeps_inv(s, slot, res);
}

/// The writes in flight are exactly the buffers that the kernel owns, at most `queue_depth`
/// of them.
pub proof fn law_in_flight_counts_owned_buffers(s: RingView)
    requires
        s.inv(),
    ensures
        Set::new(|x: int| s.owned_by_kernel(x)).finite(),
        Set::new(|x: int| s.owned_by_kernel(x)).len() == s.in_flight(),
        s.in_flight() <= s.depth,
{
    let owned = Set::new(|x: int| s.owned_by_kernel(x));
    let all = vstd::set_lib::set_int_range(0, s.depth as int);
    let t = s.free.map_values(|x: usize| x as int);
    vstd::set_lib::lemma_int_range(0, s.depth as int);
    assert(t.no_duplicates());
    t.unique_seq_to_set();
    let free = t.to_set();
    assert forall|x: int| all.contains(x) <==> owned.contains(x) || free.contains(x) by {
        if free.contains(x) {
            let i = choose|i: int| 0 <= i < t.len() && t[i] == x;
            assert(s.free[i] < s.depth);
        }
        if all.contains(x) && !owned.contains(x) {
            let i = choose|i: int| 0 <= i < s.free.len() && #[trigger] s.free[i] == x;
            assert(t[i] == x);
        }
    }
    assert forall|x: int| !(owned.contains(x) && free.contains(x)) by {
        if free.contains(x) {
            let i = choose|i: int| 0 <= i < t.len() && t[i] == x;
            assert(s.free[i] == x);
        }
    }
    assert(owned =~= all.difference(free));
    assert(owned.subset_of(all));
    vstd::set_lib::lemma_len_subset(owned, all);
    assert(owned.disjoint(free));
    assert(owned + free =~= all);
    vstd::set_lib::lemma_set_disjoint_lens(owned, free);
}

/// At depth one each write is submitted and waited on by itself.
pub proof fn law_depth_one_waits_for_each_write(s: RingView)
    requires
        s.inv(),
        s.depth == 1,
        s.may_push(),
    ensures
        s.pushed(true).1 == Action::SubmitAndWait,
        s.pushed(true).0.in_flight() == 1,
        forall|res: i32| #[trigger]
            s.pushed(true).0.complete(s.request().slot, res).in_flight() == 0,
{
}

/// The writes form one sequential stream from offset zero: the next request starts where the
/// `submitted` blocks before it end.
pub proof fn law_writes_are_one_sequential_stream(s: RingView)
    requires
        s.inv(),
        s.may_push(),
    ensures
        s.request().offset == s.submitted() * s.block,
        s.submit().submitted() == s.submitted() + 1,
        s.submit().offset == s.request().offset + s.block,
{
}

/// Every request asks for exactly one block, at the offset of the loop.
pub proof fn law_requests_ask_for_a_whole_block(s: RingView)
    requires
        s.inv(),
        s.may_push(),
    ensures
        s.request().len == s.block,
        s.request().offset == s.offset,
{
}

/// Where the block size is a multiple of the alignment, so are the offset and the length of
/// every request.
pub proof fn law_requests_are_aligned(s: RingView)
    requires
        s.inv(),
        s.may_push(),
        s.block % (ALIGN as nat) == 0,
    ensures
        s.request().offset % (ALIGN as u64) == 0,
        s.request().len % (ALIGN as u32) == 0,
{
    let n = s.submitted() as int;
    let b = s.block as int;
    vstd::arithmetic::div_mod::lemma_mul_mod_noop_right(n, b, 4096);
    assert((n * b) % 4096 == (n * (b % 4096)) % 4096);
    assert(n * 0 == 0);
}

/// With a cap on the bytes, what is submitted exceeds it by less than one block, and what is
/// completed is at most what is submitted.
pub proof fn law_cap_is_exceeded_by_less_than_a_block(s: RingView)
    requires
        s.inv(),
    ensures
        s.cap matches Some(cap) ==> s.offset < cap + s.block,
        s.bytes <= s.offset,
{
    assert(s.writes * s.block <= s.submitted() * s.block) by (nonlinear_arith)
        requires
            s.writes <= s.submitted(),
    ;
}

/// The loop writes on while the time is not up, the cap is not reached and a buffer is free,
/// and only then.
pub proof fn law_writes_until_time_or_cap(s: RingView, elapsed: nat)
    requires
        s.inv(),
        s.free.len() > 0,
    ensures
        s.timed(elapsed).1 is Push <==> elapsed < s.limit * 1_000_000_000 && (s.cap matches Some(
            cap,
        ) ==> s.offset < cap),
        s.timed(elapsed).0.offset == s.offset,
{
}

/// When the loop stops without an error, every write that was submitted is complete and
/// counted.
pub proof fn law_finish_leaves_nothing_in_flight(s: RingView)
    requires
        s.inv(),
        s.settled().1 == Action::Finish,
    ensures
        s.in_flight() == 0,
        s.writes == s.submitted(),
        s.bytes == s.offset,
{
}

/// After a write that did not succeed, nothing more is submitted: the loop waits while any
/// write is in flight, and fails with the first error once none is.
pub proof fn law_failed_run_waits_for_its_writes(s: RingView)
    requires
        s.inv(),
        s.error is Some,
    ensures
        !s.may_push(),
        s.in_flight() > 0 ==> s.topping_up().1 == Action::SubmitAndWait,
        s.in_flight() == 0 ==> s.topping_up().1 == Action::Fail(s.error->0),
        s.topping_up().0.error == s.error,
        s.topping_up().0.offset == s.offset,
{
}

/// The order of two completions does not matter for what is counted, nor for which buffers
/// the kernel owns, nor for whether the run fails.
pub proof fn law_completions_commute(s: RingView, a: usize, ra: i32, b: usize, rb: i32)
    requires
        s.inv(),
        s.owned_by_kernel(a as int),
        s.owned_by_kernel(b as int),
        a != b,
    ensures
        ({
            let x = s.complete(a, ra).complete(b, rb);
            let y = s.complete(b, rb).complete(a, ra);
            &&& x.bytes == y.bytes
            &&& x.writes == y.writes
            &&& x.lost == y.lost
            &&& x.error is Some <==> y.error is Some
            &&& x.offset == y.offset
            &&& x.in_flight() == y.in_flight()
            &&& x.free.to_multiset() == y.free.to_multiset()
            &&& forall|slot: int| #[trigger] x.owned_by_kernel(slot) <==> y.owned_by_kernel(slot)
        }),
{
    let sa = s.complete(a, ra);
    let sb = s.complete(b, rb);
    let x = sa.complete(b, rb);
    let y = sb.complete(a, ra);
    law_completion_returns_its_buffer(s, a, ra);
    law_completion_returns_its_buffer(s, b, rb);
    assert(sa.owned_by_kernel(b as int));
    assert(sb.owned_by_kernel(a as int));
    law_completion_returns_its_buffer(sa, b, rb);
    law_completion_returns_its_buffer(sb, a, ra);
    assert forall|slot: int| #[trigger] x.owned_by_kernel(slot) <==> y.owned_by_kernel(slot) by {
        assert(x.owned_by_kernel(slot) <==> sa.owned_by_kernel(slot) && slot != b);
        assert(y.owned_by_kernel(slot) <==> sb.owned_by_kernel(slot) && slot != a);
    }
    broadcast use vstd::seq_lib::group_to_multiset_ensures;

    assert(x.free.to_multiset() =~= y.free.to_multiset());
}

/// The error of the first completion among `done` that did not succeed.
pub open spec fn first_error(s: RingView, done: Seq<(u64, i32)>) -> Option<WriteError>
    decreases done.len(),
{
    if done.len() == 0 {
        None
    } else if s.verdict(done[0].1) is Some {
        s.verdict(done[0].1)
    } else {
        first_error(s, done.drop_first())
    }
}

proof fn lemma_first_error(s: RingView, t: RingView, done: Seq<(u64, i32)>)
    requires
        s.block == t.block,
    ensures
        first_error(s, done) == first_error(t, done),
    decreases done.len(),
{
    if done.len() > 0 {
        lemma_first_error(s, t, done.drop_first());
    }
}

proof fn lemma_reaped(s: RingView, done: Seq<(u64, i32)>)
    requires
        s.inv(),
        s.admissible(done),
    ensures
        s.reaped(done).inv(),
        s.reaped(done).depth == s.depth,
        s.reaped(done).block == s.block,
        s.reaped(done).limit == s.limit,
        s.reaped(done).cap == s.cap,
        s.reaped(done).offset == s.offset,
        s.reaped(done).peak == s.peak,
        s.reaped(done).free.len() == s.free.len() + done.len(),
        s.reaped(done).error == (if s.error is Some {
            s.error
        } else {
            first_error(s, done)
        }),
    decreases done.len(),
{
    if done.len() > 0 {
        let t = s.complete(done[0].0 as usize, done[0].1);
        lemma_complete_keeps_inv(s, done[0].0 as usize, done[0].1);
        lemma_reaped(t, done.drop_first());
        lemma_first_error(s, t, done.drop_first());
    }
}

/// Every round makes progress: one write fewer is in flight for each completion that is
/// reaped, and unless one of them did not succeed, a buffer is then free and used.
pub proof fn law_reaping_frees_buffers(s: RingView, done: Seq<(u64, i32)>)
    requires
        s.inv(),
        s.admissible(done),
    ensures
        s.reaped(done).inv(),
        s.reaped(done).in_flight() == s.in_flight() - done.len(),
        done.len() > 0 && s.reaped(done).error is None ==> s.reaped(done).topping_up().1
            == Action::ReadClock,
{
    lemma_reaped(s, done);
}

/// What the outside reports back for an action.
pub enum Event {
    /// The clock: nanoseconds since the start.
    Clock(nat),
    /// Whether the submission queue took the request.
    Pushed(bool),
    /// The completions that a wait brought.
    Reaped(Seq<(u64, i32)>),
}

/// The loop's answer to an event. There is none where the event does not answer the action,
/// where completions name buffers that the kernel does not own, and where the offset behind a
/// write cannot be counted.
pub open spec fn step(s: RingView, a: Action, e: Event) -> Option<(RingView, Action)> {
    match (a, e) {
        (Action::ReadClock, Event::Clock(t)) => Some(s.timed(t)),
        (Action::Push(_), Event::Pushed(accepted)) => if accepted ==> s.has_room() {
            Some(s.pushed(accepted))
        } else {
            None
        },
        (Action::SubmitAndWait, Event::Reaped(done)) => if s.admissible(done) {
            Some(s.reaped(done).topping_up())
        } else {
            None
        },
        _ => None,
    }
}

/// Where a run stands after the events `events`.
pub open spec fn after(args: Args, events: Seq<Event>) -> Option<(RingView, Action)>
    decreases events.len(),
{
    if events.len() == 0 {
        Some(fresh_ring(args).topping_up())
    } else {
        match after(args, events.drop_last()) {
            Some((s, a)) => step(s, a, events.last()),
            None => None,
        }
    }
}

/// How many writes are in flight at the wait that a run stands before, if it does.
pub open spec fn waiting(at: Option<(RingView, Action)>) -> nat {
    match at {
        Some((s, a)) => if a == Action::SubmitAndWait {
            s.in_flight()
        } else {
            0
        },
        None => 0,
    }
}

/// The most writes in flight at any wait of a run.
pub open spec fn most_waiting(args: Args, events: Seq<Event>) -> nat
    decreases events.len(),
{
    let now = waiting(after(args, events));
    if events.len() == 0 {
        now
    } else {
        let before = most_waiting(args, events.drop_last());
        if before < now {
            now
        } else {
            before
        }
    }
}

/// The error of the first completion of a run that did not succeed.
pub open spec fn first_failure(args: Args, events: Seq<Event>) -> Option<WriteError>
    decreases events.len(),
{
    if events.len() == 0 {
        None
    } else {
        match first_failure(args, events.drop_last()) {
            Some(e) => Some(e),
            None => match events.last() {
                Event::Reaped(done) => first_error(fresh_ring(args), done),
                _ => None,
            },
        }
    }
}

/// What holds at each point of a run.
pub open spec fn on_course(args: Args, s: RingView, a: Action) -> bool {
    &&& s.inv()
    &&& s.depth == args.queue_depth
    &&& s.block == args.block_size
    &&& s.limit == args.duration
    &&& s.cap == fresh_ring(args).cap
    &&& match a {
        Action::ReadClock => s.free.len() > 0 && s.error is None,
        Action::Push(request) => {
            &&& s.may_push()
            &&& request == s.request()
            &&& request.len == args.block_size
        },
        Action::SubmitAndWait => s.in_flight() > 0,
        Action::Finish => s.in_flight() == 0 && s.error is None && s.bytes == s.offset,
        Action::Fail(e) => s.in_flight() == 0 && s.error == Some(e),
    }
}

/// Whatever the clock, the submission queue and the completions say: the loop's invariant
/// holds at each point of a run; a write is offered only from a free buffer, and asks for a
/// whole block; a wait happens only with a write in flight; the run ends, with success or
/// without, only with none in flight; it fails exactly when a completion reported no success,
/// with the first such error; and the reported peak is the most writes that were in flight at
/// any wait, at most the queue depth.
pub proof fn law_every_run_stays_on_course(args: Args, events: Seq<Event>)
    requires
        args.valid(),
        args.fits_ring(),
        after(args, events) is Some,
    ensures
        ({
            let (s, a) = after(args, events)->0;
            &&& on_course(args, s, a)
            &&& s.error == first_failure(args, events)
            &&& s.peak == most_waiting(args, events)
            &&& s.peak <= args.queue_depth
        }),
    decreases events.len(),
{
    if events.len() == 0 {
        lemma_fresh_inv(args);
    } else {
        law_every_run_stays_on_course(args, events.drop_last());
        let (s, a) = after(args, events.drop_last())->0;
        match (a, events.last()) {
            (Action::Push(_), Event::Pushed(accepted)) => {
                if accepted {
                    lemma_submit_keeps_inv(s);
                }
            },
            (Action::SubmitAndWait, Event::Reaped(done)) => {
                lemma_reaped(s, done);
                lemma_first_error(s, fresh_ring(args), done);
            },
            _ => {},
        }
    }
}

/// A run that does not fail stops because the time is up, because the cap is reached, or
/// because the submission queue refused a write with none in flight. In the second case at
/// least the cap has been written.
pub proof fn law_why_a_run_stops(args: Args, events: Seq<Event>)
    requires
        args.valid(),
        args.fits_ring(),
        after(args, events) is Some,
        (after(args, events)->0).1 == Action::Finish,
    ensures
        events.len() > 0,
        ({
            let (s, a) = after(args, events)->0;
            match events.last() {
                Event::Clock(elapsed) => elapsed >= args.duration * 1_000_000_000 || (
                args.max_bytes matches Some(cap) && s.bytes >= cap),
                Event::Pushed(accepted) => !accepted,
                Event::Reaped(_) => false,
            }
        }),
{
    law_every_run_stays_on_course(args, events);
    if events.len() > 0 {
        law_every_run_stays_on_course(args, events.drop_last());
        let (s, a) = after(args, events.drop_last())->0;
        match (a, events.last()) {
            (Action::SubmitAndWait, Event::Reaped(done)) => {
                lemma_reaped(s, done);
            },
            _ => {},
        }
    }
}

/// Whether the event `e` is the reaping of a completion that names `slot`.
pub open spec fn names(e: Event, slot: usize) -> bool {
    e matches Event::Reaped(done) && exists|m: int|
        0 <= m < done.len() && #[trigger] done[m].0 == slot
}

/// Whether the run stands before a write from `slot`.
pub open spec fn offers(at: Option<(RingView, Action)>, slot: usize) -> bool {
    at matches Some((_, Action::Push(request))) && request.slot == slot
}

proof fn lemma_unnamed_slot_stays_owned(s: RingView, done: Seq<(u64, i32)>, slot: usize)
    requires
        s.inv(),
        s.admissible(done),
        s.owned_by_kernel(slot as int),
        forall|m: int| 0 <= m < done.len() ==> #[trigger] done[m].0 != slot,
    ensures
        s.reaped(done).owned_by_kernel(slot as int),
    decreases done.len(),
{
    if done.len() > 0 {
        let named = done[0].0 as usize;
        let t = s.complete(named, done[0].1);
        assert(s.owned_by_kernel(named as int));
        law_completion_returns_its_buffer(s, named, done[0].1);
        assert(t.owned_by_kernel(slot as int));
        assert forall|m: int| 0 <= m < done.drop_first().len() implies #[trigger]
            done.drop_first()[m].0 != slot by {
            assert(done.drop_first()[m] == done[m + 1]);
        }
        lemma_unnamed_slot_stays_owned(t, done.drop_first(), slot);
    }
}

proof fn lemma_slot_stays_owned(args: Args, events: Seq<Event>, i: int, slot: usize)
    requires
        args.valid(),
        args.fits_ring(),
        after(args, events) is Some,
        0 <= i < events.len(),
        offers(after(args, events.take(i)), slot),
        events[i] == Event::Pushed(true),
        forall|k: int| i < k < events.len() ==> !names(#[trigger] events[k], slot),
    ensures
        (after(args, events)->0).0.owned_by_kernel(slot as int),
    decreases events.len(),
{
    let before = events.drop_last();
    law_every_run_stays_on_course(args, before);
    let (s, a) = after(args, before)->0;
    let t = (after(args, events)->0).0;
    if i + 1 == events.len() {
        assert(events.take(i) =~= before);
        law_submission_takes_a_free_buffer(s);
        assert(s.submit().owned_by_kernel(slot as int));
        assert(t.free == s.submit().free);
    } else {
        assert(before.take(i) =~= events.take(i));
        assert forall|k: int| i < k < before.len() implies !names(#[trigger] before[k], slot) by {
            assert(before[k] == events[k]);
        }
        lemma_slot_stays_owned(args, before, i, slot);
        match (a, events.last()) {
            (Action::Push(_), Event::Pushed(accepted)) => {
                if accepted {
                    law_submission_takes_a_free_buffer(s);
                    assert(s.submit().owned_by_kernel(slot as int));
                    assert(t.free == s.submit().free);
                } else {
                    assert(t.free == s.free);
                }
            },
            (Action::SubmitAndWait, Event::Reaped(done)) => {
                assert(!names(events[events.len() - 1], slot));
                lemma_unnamed_slot_stays_owned(s, done, slot);
                assert(t.free == s.reaped(done).free);
                lemma_reaped(s, done);
            },
            _ => {
                assert(t.free == s.free);
            },
        }
    }
}

/// A buffer is used for one write at a time: once the submission queue has taken a write from
/// it, the run offers another write from it only after a completion that names it has been
/// reaped.
pub proof fn law_buffer_waits_for_its_own_completion(
    args: Args,
    events: Seq<Event>,
    i: int,
    j: int,
    slot: usize,
)
    requires
        args.valid(),
        args.fits_ring(),
        after(args, events) is Some,
        0 <= i < j <= events.len(),
        offers(after(args, events.take(i)), slot),
        events[i] == Event::Pushed(true),
        offers(after(args, events.take(j)), slot),
    ensures
        exists|k: int| i < k < j && names(#[trigger] events[k], slot),
{
    if forall|k: int| i < k < j ==> !names(#[trigger] events[k], slot) {
        let part = events.take(j);
        assert(part.take(i) =~= events.take(i));
        assert forall|k: int| i < k < part.len() implies !names(#[trigger] part[k], slot) by {
            assert(part[k] == events[k]);
        }
        lemma_slot_stays_owned(args, part, i, slot);
        law_every_run_stays_on_course(args, part);
        let s = (after(args, part)->0).0;
        assert(s.free[s.free.len() - 1] == slot);
    }
}

/// Two buffers that the kernel owns at one time stand for two writes: as many buffers are out
/// as writes are in flight, at each point of a run.
pub proof fn law_writes_in_flight_use_distinct_buffers(args: Args, events: Seq<Event>)
    requires
        args.valid(),
        args.fits_ring(),
        after(args, events) is Some,
    ensures
        ({
            let s = (after(args, events)->0).0;
            let owned = Set::new(|x: int| s.owned_by_kernel(x));
            &&& owned.finite()
            &&& owned.len() == s.in_flight()
            &&& s.in_flight() <= args.queue_depth
        }),
{
    law_every_run_stays_on_course(args, events);
    law_in_flight_counts_owned_buffers((after(args, events)->0).0);
}

/// Whether time is left at each reading of the clock.
pub open spec fn time_is_left(args: Args, events: Seq<Event>) -> bool {
    forall|i: int|
        0 <= i < events.len() ==> (#[trigger] events[i] matches Event::Clock(t) ==> t
            < args.duration * 1_000_000_000)
}

/// With a cap, and time left throughout, a run that does not fail writes exactly the blocks
/// that it takes to reach the cap. Writes may be refused on the way; only a run that ends
/// because one was refused with none in flight is left out.
pub proof fn law_cap_fixes_the_ring_writes(args: Args, events: Seq<Event>)
    requires
        args.valid(),
        args.fits_ring(),
        args.max_bytes is Some,
        after(args, events) is Some,
        (after(args, events)->0).1 == Action::Finish,
        time_is_left(args, events),
        events.last() != Event::Pushed(false),
    ensures
        ({
            let s = (after(args, events)->0).0;
            &&& s.writes == blocks_to_reach(args.max_bytes->0 as nat, args.block_size as nat)
            &&& s.bytes == s.writes * args.block_size
        }),
{
    law_every_run_stays_on_course(args, events);
    law_why_a_run_stops(args, events);
    let s = (after(args, events)->0).0;
    let cap = args.max_bytes->0 as nat;
    assert(events[events.len() - 1] == events.last());
    if s.writes > 0 {
        assert((s.writes - 1) * s.block == s.writes * s.block - s.block) by (nonlinear_arith);
        assert(s.writes * s.block > 0) by (nonlinear_arith)
            requires
                s.writes > 0,
                s.block > 0,
        ;
    }
    lemma_blocks_to_reach(cap, s.block, s.writes);
}

/// Under one cap, and with time left throughout, both loops write the same blocks and bytes.
/// Neither the way of writing nor the queue depth changes what is written. Only a run on the
/// ring that ends because a write was refused with none in flight is left out.
pub proof fn law_both_loops_write_the_same(
    args: Args,
    events: Seq<Event>,
    other: Args,
    clock: Seq<nat>,
)
    requires
        args.valid(),
        args.fits_ring(),
        args.max_bytes is Some,
        after(args, events) is Some,
        (after(args, events)->0).1 == Action::Finish,
        time_is_left(args, events),
        events.last() != Event::Pushed(false),
        other.valid(),
        other.block_size == args.block_size,
        other.max_bytes == args.max_bytes,
        whole_run(other, clock),
        forall|i: int|
            0 <= i < clock.len() ==> #[trigger] clock[i] < other.duration * 1_000_000_000,
    ensures
        ({
            let ring = (after(args, events)->0).0;
            let sync = after_writes(other, (clock.len() - 1) as nat);
            &&& ring.writes == sync.writes
            &&& ring.bytes == sync.bytes
            &&& ring.writes == blocks_to_reach(args.max_bytes->0 as nat, args.block_size as nat)
        }),
{
    law_cap_fixes_the_ring_writes(args, events);
    law_cap_fixes_the_writes(other, clock);
    law_blocks_are_written_in_sequence(other, (clock.len() - 1) as nat);
}

/// Whether the clock readings among `events` never go back.
pub open spec fn clock_is_monotonic(events: Seq<Event>) -> bool {
    forall|i: int, j: int|
        0 <= i <= j < events.len() ==> (#[trigger] events[i] matches Event::Clock(t) ==> (
        #[trigger] events[j] matches Event::Clock(u) ==> t <= u))
}

proof fn lemma_after_prefix(args: Args, events: Seq<Event>, k: int)
    requires
        0 <= k <= events.len(),
        after(args, events) is Some,
    ensures
        after(args, events.take(k)) is Some,
    decreases events.len(),
{
    if k == events.len() {
        assert(events.take(k) =~= events);
    } else {
        assert(events.drop_last().take(k) =~= events.take(k));
        lemma_after_prefix(args, events.drop_last(), k);
    }
}

/// Once the clock has shown that the time is up, no further write is submitted: the run only
/// waits for those in flight.
pub proof fn law_no_write_is_submitted_after_time(args: Args, events: Seq<Event>, k: int)
    requires
        args.valid(),
        args.fits_ring(),
        after(args, events) is Some,
        clock_is_monotonic(events),
        0 <= k < events.len(),
        events[k] matches Event::Clock(t) && t >= args.duration * 1_000_000_000,
    ensures
        after(args, events.take(k + 1)) is Some,
        (after(args, events)->0).0.offset == (after(args, events.take(k + 1))->0).0.offset,
        !((after(args, events)->0).1 is Push),
    decreases events.len(),
{
    lemma_after_prefix(args, events, k + 1);
    let before = events.drop_last();
    law_every_run_stays_on_course(args, before);
    let (s, a) = after(args, before)->0;
    if k + 1 == events.len() {
        assert(events.take(k + 1) =~= events);
        assert(events.last() == events[k]);
    } else {
        assert(before.take(k + 1) =~= events.take(k + 1));
        assert(clock_is_monotonic(before)) by {
            assert forall|i: int, j: int| 0 <= i <= j < before.len() implies (
            #[trigger] before[i] matches Event::Clock(t) ==> (
            #[trigger] before[j] matches Event::Clock(u) ==> t <= u)) by {
                assert(before[i] == events[i]);
                assert(before[j] == events[j]);
            }
        }
        law_no_write_is_submitted_after_time(args, before, k);
        match (a, events.last()) {
            (Action::ReadClock, Event::Clock(u)) => {
                assert(events[k]->Clock_0 <= events[events.len() - 1]->Clock_0);
            },
            (Action::SubmitAndWait, Event::Reaped(done)) => {
                lemma_reaped(s, done);
            },
            _ => {},
        }
    }
}

/// Whether the submission queue takes each write that it is offered.
pub open spec fn each_write_is_taken(events: Seq<Event>) -> bool {
    forall|i: int| 0 <= i < events.len() ==> #[trigger] events[i] != Event::Pushed(false)
}

/// Whether the clock has shown that the time is up.
pub open spec fn time_was_up(args: Args, events: Seq<Event>) -> bool {
    exists|k: int|
        0 <= k < events.len() && (#[trigger] events[k] matches Event::Clock(t) && t
            >= args.duration * 1_000_000_000)
}

/// How the peak comes about: no wait has happened yet; or the queue was full at one; or no
/// further write is submitted, and all were in flight at once.
spec fn peak_so_far(args: Args, events: Seq<Event>, s: RingView, a: Action) -> bool {
    &&& s.peak <= s.submitted()
    &&& {
        ||| s.peak == 0 && s.writes == 0 && s.lost == 0
        ||| s.peak == s.depth
        ||| s.peak == s.submitted() && !(a is Push) && (s.cap_reached() || time_was_up(
            args,
            events,
        ))
    }
}

proof fn lemma_peak_so_far(args: Args, events: Seq<Event>)
    requires
        args.valid(),
        args.fits_ring(),
        after(args, events) is Some,
        clock_is_monotonic(events),
        each_write_is_taken(events),
    ensures
        ({
            let (s, a) = after(args, events)->0;
            peak_so_far(args, events, s, a)
        }),
    decreases events.len(),
{
    law_every_run_stays_on_course(args, events);
    if events.len() > 0 {
        let before = events.drop_last();
        let last = events.len() - 1;
        assert(clock_is_monotonic(before)) by {
            assert forall|i: int, j: int| 0 <= i <= j < before.len() implies (
            #[trigger] before[i] matches Event::Clock(t) ==> (
            #[trigger] before[j] matches Event::Clock(u) ==> t <= u)) by {
                assert(before[i] == events[i]);
                assert(before[j] == events[j]);
            }
        }
        assert(each_write_is_taken(before)) by {
            assert forall|i: int| 0 <= i < before.len() implies #[trigger] before[i]
                != Event::Pushed(false) by {
                assert(before[i] == events[i]);
            }
        }
        lemma_peak_so_far(args, before);
        law_every_run_stays_on_course(args, before);
        let (s, a) = after(args, before)->0;
        assert(time_was_up(args, before) ==> time_was_up(args, events)) by {
            if time_was_up(args, before) {
                let k = choose|k: int|
                    0 <= k < before.len() && (#[trigger] before[k] matches Event::Clock(t) && t
                        >= args.duration * 1_000_000_000);
                assert(events[k] == before[k]);
            }
        }
        match (a, events.last()) {
            (Action::ReadClock, Event::Clock(u)) => {
                assert(events[last] == Event::Clock(u));
                if u >= args.duration * 1_000_000_000 {
                    assert(time_was_up(args, events));
                } else if time_was_up(args, before) {
                    let k = choose|k: int|
                        0 <= k < before.len() && (#[trigger] before[k] matches Event::Clock(t)
                            && t >= args.duration * 1_000_000_000);
                    assert(events[k] == before[k]);
                    assert(events[k]->Clock_0 <= events[last]->Clock_0);
                }
            },
            (Action::Push(_), Event::Pushed(accepted)) => {
                assert(events[last] != Event::Pushed(false));
                assert(accepted);
                assert(s.submit().submitted() == s.submitted() + 1);
            },
            (Action::SubmitAndWait, Event::Reaped(done)) => {
                lemma_reaped(s, done);
                lemma_reaped_keeps_count(s, done);
                assert(s.peak > 0);
            },
            _ => {},
        }
    }
}

proof fn lemma_reaped_keeps_count(s: RingView, done: Seq<(u64, i32)>)
    requires
        s.inv(),
        s.admissible(done),
    ensures
        s.reaped(done).submitted() == s.submitted(),
    decreases done.len(),
{
    if done.len() > 0 {
        let t = s.complete(done[0].0 as usize, done[0].1);
        lemma_complete_keeps_inv(s, done[0].0 as usize, done[0].1);
        lemma_reaped_keeps_count(t, done.drop_first());
    }
}

/// Where the submission queue takes each write and the clock never goes back, the peak of a
/// run that does not fail is the queue depth, or the number of its writes where there are
/// fewer.
pub proof fn law_peak_is_the_depth_or_all_writes(args: Args, events: Seq<Event>)
    requires
        args.valid(),
        args.fits_ring(),
        after(args, events) is Some,
        (after(args, events)->0).1 == Action::Finish,
        clock_is_monotonic(events),
        each_write_is_taken(events),
    ensures
        ({
            let s = (after(args, events)->0).0;
            s.peak == if s.writes < args.queue_depth {
                s.writes
            } else {
                args.queue_depth as nat
            }
        }),
{
    law_every_run_stays_on_course(args, events);
    lemma_peak_so_far(args, events);
}

/// The report of a ring run warns exactly where more than one write was asked for and never
/// more than one was in flight at a wait.
pub proof fn law_warning_tells_whether_writes_overlapped(
    args: Args,
    events: Seq<Event>,
    stats: Stats,
)
    requires
        args.valid(),
        args.fits_ring(),
        args.mode.on_ring(),
        after(args, events) is Some,
        stats.peak_in_flight == (after(args, events)->0).0.peak,
    ensures
        never_overlapped(args, stats) <==> args.queue_depth > 1 && most_waiting(args, events)
            <= 1,
{
    law_every_run_stays_on_course(args, events);
}

/// For any queue depth that a ring can hold, the ring is asked for a power of two of at least
/// the queue depth.
pub proof fn law_ring_holds_the_queue(args: Args)
    requires
        args.valid(),
        args.fits_ring(),
    ensures
        args.queue_depth <= entries_for(args.queue_depth as nat) <= u32::MAX,
        entries_for(args.queue_depth as nat) >= 2,
        exists|k: nat| entries_for(args.queue_depth as nat) == #[trigger] pow2(k),
{
    let queue_depth = args.queue_depth as nat;
    lemma2_to64();
    lemma_power_between(queue_depth, 31);
    lemma_power_covers(queue_depth);
    let k = lemma_power_is_power(queue_depth);
    if k == 0 {
        assert(entries_for(queue_depth) == pow2(1));
    } else {
        vstd::arithmetic::power2::lemma_pow2_unfold(k);
        vstd::arithmetic::power2::lemma_pow2_pos((k - 1) as nat);
        assert(entries_for(queue_depth) == pow2(k));
    }
}

proof fn lemma_power_is_power(n: nat) -> (k: nat)
    ensures
        power_of_two_at_least(n) == pow2(k),
    decreases n,
{
    if n <= 1 {
        lemma2_to64();
        0
    } else {
        let k = lemma_power_is_power((n + 1) / 2);
        vstd::arithmetic::power2::lemma_pow2_unfold(k + 1);
        k + 1
    }
}

/// A write succeeds exactly where the kernel reports that it stored a whole block. A negative
/// result is the error number with its sign turned, and any other number of bytes is a short
/// write.
pub proof fn law_only_a_whole_block_is_a_success(s: RingView, res: i32)
    requires
        s.block <= u64::MAX,
    ensures
        s.verdict(res) is None <==> res == s.block,
        s.verdict(res) matches Some(WriteError::Os(code)) ==> res < 0 && (res > i32::MIN ==> code
            == -res),
        s.verdict(res) is Some && s.verdict(res)->0 is Os <==> res < 0,
        s.verdict(res) matches Some(WriteError::Short { written, expected }) ==> res >= 0
            && written == res && expected == s.block && written != expected,
        s.verdict(res) is Some && s.verdict(res)->0 is Short <==> res >= 0 && res != s.block,
{
}

/// What a completion changes: its slot is free again, on top of the others; a whole block adds
/// one write and one block of bytes; any other result adds one lost write and, if it is the
/// first, the error. Nothing else changes.
pub proof fn law_what_a_completion_changes(s: RingView, slot: usize, res: i32)
    ensures
        ({
            let t = s.complete(slot, res);
            let whole = res == s.block;
            &&& t.free == s.free.push(slot)
            &&& t.writes == s.writes + (if whole {
                1int
            } else {
                0
            })
            &&& t.bytes == s.bytes + (if whole {
                s.block as int
            } else {
                0
            })
            &&& t.lost == s.lost + (if whole {
                0int
            } else {
                1
            })
            &&& s.error is Some ==> t.error == s.error
            &&& s.error is None ==> (t.error is Some <==> !whole)
            &&& t.depth == s.depth && t.block == s.block && t.limit == s.limit && t.cap == s.cap
            &&& t.offset == s.offset && t.peak == s.peak
        }),
{
}

/// Every completion is reaped, however many there are, one after the other: reaping some and
/// then others is reaping all of them.
pub proof fn law_every_completion_is_reaped(s: RingView, a: Seq<(u64, i32)>, b: Seq<(u64, i32)>)
    ensures
        s.reaped(Seq::empty()) == s,
        a.len() == 1 ==> s.reaped(a) == s.complete(a[0].0 as usize, a[0].1),
        s.reaped(a + b) == s.reaped(a).reaped(b),
        s.admissible(Seq::empty()),
        a.len() == 1 ==> (s.admissible(a) <==> a[0].1 > i32::MIN && 0 <= a[0].0 < s.depth && (
        forall|i: int| 0 <= i < s.free.len() ==> #[trigger] s.free[i] != a[0].0)),
        s.admissible(a + b) <==> s.admissible(a) && s.reaped(a).admissible(b),
    decreases a.len(),
{
    if a.len() == 0 {
        assert(a + b =~= b);
    } else {
        let t = s.complete(a[0].0 as usize, a[0].1);
        assert((a + b)[0] == a[0]);
        assert((a + b).drop_first() =~= a.drop_first() + b);
        law_every_completion_is_reaped(t, a.drop_first(), b);
        if a.len() == 1 {
            assert(a.drop_first() =~= Seq::<(u64, i32)>::empty());
        }
    }
}

/// The loop starts with nothing written, with every slot free, slot 0 on top, and with the
/// settings that it was given.
pub proof fn law_how_the_loop_starts(args: Args, i: int)
    ensures
        ({
            let s = fresh_ring(args);
            &&& s.depth == args.queue_depth && s.block == args.block_size
            &&& s.limit == args.duration
            &&& s.cap is Some <==> args.max_bytes is Some
            &&& args.max_bytes matches Some(cap) ==> s.cap == Some(cap as nat)
            &&& s.offset == 0 && s.bytes == 0 && s.writes == 0 && s.lost == 0 && s.peak == 0
            &&& s.error is None
            &&& s.free.len() == args.queue_depth
            &&& 0 <= i < s.free.len() ==> s.free[i] == args.queue_depth - 1 - i
        }),
{
}

/// With no further write to submit now, the loop waits while one is in flight, and raises the
/// peak to the writes in flight if it was lower. Else it stops, with the error if there is one.
/// Nothing but the peak changes.
pub proof fn law_when_the_loop_waits(s: RingView)
    requires
        s.free.len() <= s.depth,
    ensures
        ({
            let (t, a) = s.settled();
            let out = s.depth - s.free.len();
            &&& s.in_flight() == out
            &&& a == Action::SubmitAndWait <==> out > 0
            &&& out == 0 && s.error is None <==> a == Action::Finish
            &&& out == 0 && s.error is Some <==> a is Fail
            &&& a matches Action::Fail(e) ==> s.error == Some(e)
            &&& t == RingView { peak: t.peak, ..s }
            &&& t.peak >= s.peak && (out > 0 ==> t.peak >= out)
            &&& t.peak == s.peak || (out > 0 && t.peak == out)
        }),
{
}

/// The clock is read exactly while a slot is free and no write has failed, before each write.
/// Then the write goes from the slot on top of the free ones, with the offset of the loop,
/// unless the time is up or the cap is reached.
pub proof fn law_when_a_write_is_offered(s: RingView, elapsed: nat)
    ensures
        s.topping_up().1 == Action::ReadClock <==> s.free.len() > 0 && s.error is None,
        s.topping_up().1 == Action::ReadClock ==> s.topping_up().0 == s,
        s.topping_up().1 != Action::ReadClock ==> s.topping_up() == s.settled(),
        ({
            let stops = elapsed >= s.limit * 1_000_000_000 || (s.cap matches Some(cap) && s.offset
                >= cap);
            &&& stops ==> s.timed(elapsed) == s.settled()
            &&& !stops ==> s.timed(elapsed).0 == s && (s.timed(elapsed).1 matches Action::Push(w)
                && w.slot == s.free.last() && w.offset == s.offset as u64 && w.len
                == s.block as u32)
        }),
{
}

/// A write that the submission queue takes uses up the slot on top, and moves the offset by a
/// block. One that it refuses changes nothing, and the loop waits or stops.
pub proof fn law_what_a_submission_changes(s: RingView)
    ensures
        s.submit() == (RingView {
            free: s.free.drop_last(),
            offset: s.offset + s.block,
            ..s
        }),
        s.pushed(true) == s.submit().topping_up(),
        s.pushed(false) == s.settled(),
        s.may_push() <==> s.free.len() > 0 && s.limit > 0 && s.error is None && (
        s.cap matches Some(cap) ==> s.offset < cap),
        s.has_room() <==> s.offset + s.block <= u64::MAX,
{
}

/// How many of the completions report a whole block.
pub open spec fn whole(done: Seq<(u64, i32)>, block: nat) -> nat
    decreases done.len(),
{
    if done.len() == 0 {
        0
    } else {
        whole(done.drop_first(), block) + if done[0].1 == block {
            1nat
        } else {
            0
        }
    }
}

/// How many completions of a run report a whole block.
pub open spec fn whole_writes(args: Args, events: Seq<Event>) -> nat
    decreases events.len(),
{
    if events.len() == 0 {
        0
    } else {
        whole_writes(args, events.drop_last()) + match events.last() {
            Event::Reaped(done) => whole(done, args.block_size as nat),
            _ => 0,
        }
    }
}

/// How many completions a run has reaped.
pub open spec fn completions(events: Seq<Event>) -> nat
    decreases events.len(),
{
    if events.len() == 0 {
        0
    } else {
        completions(events.drop_last()) + match events.last() {
            Event::Reaped(done) => done.len(),
            _ => 0,
        }
    }
}

/// How many writes the submission queue has taken.
pub open spec fn taken(events: Seq<Event>) -> nat
    decreases events.len(),
{
    if events.len() == 0 {
        0
    } else {
        taken(events.drop_last()) + if events.last() == Event::Pushed(true) {
            1nat
        } else {
            0
        }
    }
}

proof fn lemma_reaped_counts(s: RingView, done: Seq<(u64, i32)>)
    ensures
        s.reaped(done).writes == s.writes + whole(done, s.block),
        s.reaped(done).writes + s.reaped(done).lost == s.writes + s.lost + done.len(),
    decreases done.len(),
{
    if done.len() > 0 {
        let t = s.complete(done[0].0 as usize, done[0].1);
        lemma_reaped_counts(t, done.drop_first());
    }
}

/// What a run has counted, at each point: as many writes as completions have reported a whole
/// block, and a block of bytes for each; the other completions are lost writes; and the offset
/// is behind as many blocks as the submission queue has taken, of which those that are not
/// complete are in flight.
pub proof fn law_what_a_run_counts(args: Args, events: Seq<Event>)
    requires
        args.valid(),
        args.fits_ring(),
        after(args, events) is Some,
    ensures
        ({
            let s = (after(args, events)->0).0;
            &&& s.writes == whole_writes(args, events)
            &&& s.bytes == whole_writes(args, events) * args.block_size
            &&& s.writes + s.lost == completions(events)
            &&& s.offset == taken(events) * args.block_size
            &&& s.depth - s.free.len() == taken(events) - completions(events)
        }),
    decreases events.len(),
{
    law_every_run_stays_on_course(args, events);
    if events.len() > 0 {
        let before = events.drop_last();
        law_what_a_run_counts(args, before);
        law_every_run_stays_on_course(args, before);
        let (s, a) = after(args, before)->0;
        match (a, events.last()) {
            (Action::Push(_), Event::Pushed(accepted)) => {
                if accepted {
                    assert(s.submit().submitted() == s.submitted() + 1);
                }
            },
            (Action::SubmitAndWait, Event::Reaped(done)) => {
                lemma_reaped(s, done);
                lemma_reaped_counts(s, done);
                lemma_reaped_keeps_count(s, done);
            },
            _ => {},
        }
    }
}

/// Whether each completion among `events` reports a whole block.
pub open spec fn all_whole(args: Args, events: Seq<Event>) -> bool {
    forall|i: int, m: int|
        0 <= i < events.len() && (#[trigger] events[i] matches Event::Reaped(done) && 0 <= m
            < done.len()) ==> (#[trigger] events[i]->Reaped_0[m]).1 == args.block_size
}

proof fn lemma_all_whole_is_no_error(s: RingView, done: Seq<(u64, i32)>)
    requires
        forall|m: int| 0 <= m < done.len() ==> (#[trigger] done[m]).1 == s.block,
    ensures
        first_error(s, done) is None,
    decreases done.len(),
{
    if done.len() > 0 {
        assert(done[0].1 == s.block);
        assert forall|m: int| 0 <= m < done.drop_first().len() implies (
        #[trigger] done.drop_first()[m]).1 == s.block by {
            assert(done.drop_first()[m] == done[m + 1]);
        }
        lemma_all_whole_is_no_error(s, done.drop_first());
    }
}

proof fn lemma_all_whole_is_no_failure(args: Args, events: Seq<Event>)
    requires
        all_whole(args, events),
    ensures
        first_failure(args, events) is None,
    decreases events.len(),
{
    if events.len() > 0 {
        let before = events.drop_last();
        assert forall|i: int, m: int|
            0 <= i < before.len() && (#[trigger] before[i] matches Event::Reaped(done) && 0 <= m
                < done.len()) implies (#[trigger] before[i]->Reaped_0[m]).1 == args.block_size by {
            assert(before[i] == events[i]);
            assert(events[i]->Reaped_0[m].1 == args.block_size);
        }
        lemma_all_whole_is_no_failure(args, before);
        if let Event::Reaped(done) = events.last() {
            let last = events.len() - 1;
            assert(events[last] == Event::Reaped(done));
            assert forall|m: int| 0 <= m < done.len() implies (#[trigger] done[m]).1
                == fresh_ring(args).block by {
                assert(events[last]->Reaped_0[m].1 == args.block_size);
            }
            lemma_all_whole_is_no_error(fresh_ring(args), done);
        }
    }
}

/// A run in which each completion reports a whole block never fails.
pub proof fn law_whole_blocks_never_fail_a_run(args: Args, events: Seq<Event>)
    requires
        args.valid(),
        args.fits_ring(),
        after(args, events) is Some,
        all_whole(args, events),
    ensures
        (after(args, events)->0).0.error is None,
        !((after(args, events)->0).1 is Fail),
{
    law_every_run_stays_on_course(args, events);
    lemma_all_whole_is_no_failure(args, events);
}

proof fn lemma_first_error_at(s: RingView, done: Seq<(u64, i32)>, m: int)
    requires
        0 <= m < done.len(),
        done[m].1 != s.block,
        forall|j: int| 0 <= j < m ==> (#[trigger] done[j]).1 == s.block,
    ensures
        first_error(s, done) == s.verdict(done[m].1),
        first_error(s, done) is Some,
    decreases done.len(),
{
    if m > 0 {
        let rest = done.drop_first();
        assert(done[0].1 == s.block);
        assert(rest[m - 1] == done[m]);
        assert forall|j: int| 0 <= j < m - 1 implies (#[trigger] rest[j]).1 == s.block by {
            assert(rest[j] == done[j + 1]);
        }
        lemma_first_error_at(s, rest, m - 1);
    }
}

proof fn lemma_failure_at(args: Args, events: Seq<Event>, i: int, m: int)
    requires
        0 <= i < events.len(),
        all_whole(args, events.take(i)),
        events[i] matches Event::Reaped(done) && 0 <= m < done.len() && done[m].1
            != args.block_size && (forall|j: int|
            0 <= j < m ==> (#[trigger] done[j]).1 == args.block_size),
    ensures
        first_failure(args, events) is Some,
        first_failure(args, events) == fresh_ring(args).verdict(events[i]->Reaped_0[m].1),
    decreases events.len(),
{
    let before = events.drop_last();
    if i + 1 == events.len() {
        assert(events.take(i) =~= before);
        lemma_all_whole_is_no_failure(args, before);
        lemma_first_error_at(fresh_ring(args), events[i]->Reaped_0, m);
    } else {
        assert(before.take(i) =~= events.take(i));
        assert(before[i] == events[i]);
        lemma_failure_at(args, before, i, m);
    }
}

/// A run in which some completion reports anything but a whole block never ends with success,
/// and its error is that of the first such completion: the error number where the result is
/// negative, and else a short write of that many bytes.
pub proof fn law_first_bad_completion_fails_the_run(
    args: Args,
    events: Seq<Event>,
    i: int,
    m: int,
)
    requires
        args.valid(),
        args.fits_ring(),
        after(args, events) is Some,
        0 <= i < events.len(),
        all_whole(args, events.take(i)),
        events[i] matches Event::Reaped(done) && 0 <= m < done.len() && done[m].1
            != args.block_size && (forall|j: int|
            0 <= j < m ==> (#[trigger] done[j]).1 == args.block_size),
    ensures
        (after(args, events)->0).1 != Action::Finish,
        ({
            let (s, a) = after(args, events)->0;
            let res = events[i]->Reaped_0[m].1;
            &&& s.error == Some(
                if res < 0 {
                    WriteError::Os((-res) as i32)
                } else {
                    WriteError::Short { written: res as u64, expected: args.block_size as u64 }
                },
            )
            &&& a matches Action::Fail(e) ==> s.error == Some(e)
        }),
{
    law_every_run_stays_on_course(args, events);
    lemma_failure_at(args, events, i, m);
}

/// The ring is not asked for more than it takes: no power of two in between holds the queue,
/// unless it is the smallest ring.
pub proof fn law_ring_is_no_larger_than_needed(queue_depth: nat)
    ensures
        entries_for(queue_depth) == 2 || entries_for(queue_depth) <= 2 * queue_depth - 2,
{
    lemma_power_is_tight(queue_depth);
}

proof fn lemma_power_is_tight(n: nat)
    ensures
        n > 1 ==> power_of_two_at_least(n) <= 2 * n - 2,
        n <= 1 ==> power_of_two_at_least(n) == 1,
    decreases n,
{
    if n > 1 {
        lemma_power_is_tight((n + 1) / 2);
    }
}

/// The message for a short write tells how many bytes of how many were stored.
pub proof fn law_short_write_tells_both_counts(written: nat, expected: nat)
    ensures
        short_write(written, expected) == "short write: "@ + decimal(written) + " of "@ + decimal(
            expected,
        ) + " bytes"@,
{
}

} // verus!
