//! The wait for grants, step by step.

use vstd::prelude::*;

use crate::bootstrap::{
    Clock, HelperChild, NeededPermission, Sleeper, WaitOutcome, WaitResult, WaitStep, Watched,
};

verus! {

/// How long a wait lasts.
#[derive(Debug, Clone, Copy, PartialEq, Eq, Structural)]
pub struct Timing {
    /// How long it may last.
    pub deadline_ms: u64,
    /// How long it pauses between two looks.
    pub poll_interval_ms: u64,
    /// How long the helper may show its success before it is ended.
    pub grace_ms: u64,
}

/// The time that a wait ends at.
pub open spec fn deadline_of(start: u64, deadline_ms: u64) -> u64 {
    if start + deadline_ms > u64::MAX {
        u64::MAX
    } else {
        (start + deadline_ms) as u64
    }
}

/// How long a wait sleeps before it looks again: the poll interval, or what
/// is left until the deadline when that is less.
pub open spec fn slice_at(now: u64, deadline: u64, poll_interval_ms: u64) -> u64 {
    if now >= deadline {
        0
    } else if deadline - now < poll_interval_ms {
        (deadline - now) as u64
    } else {
        poll_interval_ms
    }
}

/// Computes how long a wait sleeps before it looks again.
pub fn next_slice(now: u64, deadline: u64, poll_interval_ms: u64) -> (ms: u64)
    ensures
        ms == slice_at(now, deadline, poll_interval_ms),
        now + ms <= deadline || ms == 0,
{
    let left: u64 = deadline.saturating_sub(now);
    if left < poll_interval_ms {
        left
    } else {
        poll_interval_ms
    }
}

/// A round of a wait that did not end it: what its poll found missing, and the
/// time that it read.
pub struct Round {
    pub needed: Vec<NeededPermission>,
    pub now: u64,
}

/// The steps after a list of rounds. Each polled, found the helper running,
/// read the time, and slept.
pub open spec fn rounds_done(
    before: Seq<WaitStep>,
    rounds: Seq<Round>,
    deadline: u64,
    poll_interval_ms: u64,
) -> Seq<WaitStep>
    decreases rounds.len(),
{
    if rounds.len() == 0 {
        before
    } else {
        let last = rounds.last();
        rounds_done(before, rounds.drop_last(), deadline, poll_interval_ms).push(
            WaitStep::Polled { needed: last.needed },
        ).push(WaitStep::Asked { running: true }).push(WaitStep::Read { now: last.now }).push(
            WaitStep::Slept { ms: slice_at(last.now, deadline, poll_interval_ms) },
        )
    }
}

/// The steps after the round that ended a wait. The helper is told of the grants
/// only when there are some, then has its grace, and is always ended last.
pub open spec fn closed(
    before: Seq<WaitStep>,
    grace_ms: u64,
    now: u64,
    r: WaitResult,
) -> Seq<WaitStep> {
    let polled = before.push(WaitStep::Polled { needed: r.still_needed });
    match r.outcome {
        WaitOutcome::AllGranted => polled.push(WaitStep::Notified).push(
            WaitStep::Slept { ms: grace_ms },
        ).push(WaitStep::Terminated),
        WaitOutcome::HelperExited => polled.push(WaitStep::Asked { running: false }).push(
            WaitStep::Terminated,
        ),
        WaitOutcome::TimedOut => polled.push(WaitStep::Asked { running: true }).push(
            WaitStep::Read { now },
        ).push(WaitStep::Terminated),
    }
}

/// Whether a round was one of this wait and did not end it: something was
/// missing, and the deadline had not passed.
pub open spec fn goes_on<C: Clock, F: Fn() -> Vec<NeededPermission>>(
    clock: &C,
    poll: F,
    deadline: u64,
    round: Round,
) -> bool {
    &&& call_ensures(poll, (), round.needed)
    &&& round.needed@.len() > 0
    &&& call_ensures(C::now_ms, (clock,), round.now)
    &&& round.now < deadline
}

/// Whether no round of a list ended the wait.
pub open spec fn all_go_on<C: Clock, F: Fn() -> Vec<NeededPermission>>(
    clock: &C,
    poll: F,
    deadline: u64,
    rounds: Seq<Round>,
) -> bool {
    forall|i: int| 0 <= i < rounds.len() ==> goes_on(clock, poll, deadline, #[trigger] rounds[i])
}

/// Whether a wait that started at `start` was ended rightly after these rounds,
/// with `now` the last time that it read. The poll that decided it came first:
/// the wait is granted exactly when that poll found nothing missing. It timed
/// out when the deadline had passed, or when the rounds could not be counted any
/// more.
pub open spec fn ends<C: Clock, F: Fn() -> Vec<NeededPermission>>(
    clock: &C,
    poll: F,
    timing: Timing,
    start: u64,
    rounds: Seq<Round>,
    now: u64,
    r: WaitResult,
) -> bool {
    let deadline = deadline_of(start, timing.deadline_ms);
    &&& call_ensures(C::now_ms, (clock,), start)
    &&& all_go_on(clock, poll, deadline, rounds)
    &&& call_ensures(poll, (), r.still_needed)
    &&& r.outcome == WaitOutcome::AllGranted <==> r.still_needed@.len() == 0
    &&& r.outcome == WaitOutcome::TimedOut ==> call_ensures(C::now_ms, (clock,), now) && (now
        >= deadline || rounds.len() == u64::MAX)
}

/// The steps of a whole wait, in order, and what it gives. `before` and `after`
/// are the steps before it, and in the end.
pub open spec fn waited<C: Clock, F: Fn() -> Vec<NeededPermission>>(
    clock: &C,
    poll: F,
    timing: Timing,
    before: Seq<WaitStep>,
    after: Seq<WaitStep>,
    r: WaitResult,
) -> bool {
    exists|start: u64, rounds: Seq<Round>, now: u64|
        #[trigger] ends(clock, poll, timing, start, rounds, now, r) && after == closed(
            rounds_done(
                before.push(WaitStep::Read { now: start }),
                rounds,
                deadline_of(start, timing.deadline_ms),
                timing.poll_interval_ms,
            ),
            timing.grace_ms,
            now,
            r,
        )
}

/// Waits until everything is granted, the helper exits, or the deadline passes;
/// and ends the helper in every case.
pub fn wait_watched<C: Clock, S: Sleeper, H: HelperChild, F: Fn() -> Vec<NeededPermission>>(
    helper: &mut Watched<C, S, H, F>,
    timing: Timing,
) -> (r: WaitResult)
    requires
        call_requires(old(helper).poll(), ()),
    ensures
        final(helper).parts() == old(helper).parts(),
        *final(final(helper).hold()) == *final(old(helper).hold()),
        waited(
            old(helper).clock(),
            old(helper).poll(),
            timing,
            old(helper).steps(),
            final(helper).steps(),
            r,
        ),
        r.outcome == WaitOutcome::AllGranted ==> call_ensures(
            S::sleep_ms,
            (old(helper).sleeper(), timing.grace_ms),
            (),
        ) && exists|a: &mut H, z: &mut H|
            #[trigger] call_ensures(H::notify_all_granted, (a,), ()) && #[trigger] call_ensures(
                H::terminate,
                (z,),
                (),
            ) && *final(a) == *z && *final(z) == final(helper).child(),
        r.outcome == WaitOutcome::HelperExited ==> exists|a: &mut H, z: &mut H|
            #[trigger] call_ensures(H::still_running, (a,), false) && #[trigger] call_ensures(
                H::terminate,
                (z,),
                (),
            ) && *final(a) == *z && *final(z) == final(helper).child(),
        r.outcome == WaitOutcome::TimedOut ==> exists|a: &mut H, z: &mut H|
            #[trigger] call_ensures(H::still_running, (a,), true) && #[trigger] call_ensures(
                H::terminate,
                (z,),
                (),
            ) && *final(a) == *z && *final(z) == final(helper).child(),
{
    let ghost clock = helper.clock();
    let ghost poll = helper.poll();
    let ghost before = helper.steps();
    let start: u64 = helper.now_ms();
    let deadline: u64 = start.saturating_add(timing.deadline_ms);
    let ghost mut done: Seq<Round> = seq![];
    let mut rounds: u64 = 0;
    loop
        invariant
            helper.parts() == old(helper).parts(),
            *final(helper.hold()) == *final(old(helper).hold()),
            clock == old(helper).clock(),
            poll == old(helper).poll(),
            before == old(helper).steps(),
            call_requires(poll, ()),
            call_ensures(C::now_ms, (clock,), start),
            deadline == deadline_of(start, timing.deadline_ms),
            done.len() == rounds,
            all_go_on(clock, poll, deadline, done),
            helper.steps() == rounds_done(
                before.push(WaitStep::Read { now: start }),
                done,
                deadline,
                timing.poll_interval_ms,
            ),
        decreases u64::MAX - rounds,
    {
        let still_needed = helper.poll_needed();
        if still_needed.len() == 0 {
            helper.notify_all_granted();
            helper.sleep_ms(timing.grace_ms);
            helper.terminate();
            let r = WaitResult { outcome: WaitOutcome::AllGranted, still_needed };
            assert(ends(clock, poll, timing, start, done, start, r));
            return r;
        }
        if !helper.still_running() {
            helper.terminate();
            let r = WaitResult { outcome: WaitOutcome::HelperExited, still_needed };
            assert(ends(clock, poll, timing, start, done, start, r));
            return r;
        }
        let now: u64 = helper.now_ms();
        if now >= deadline || rounds == u64::MAX {
            helper.terminate();
            let r = WaitResult { outcome: WaitOutcome::TimedOut, still_needed };
            assert(ends(clock, poll, timing, start, done, now, r));
            return r;
        }
        let slice: u64 = next_slice(now, deadline, timing.poll_interval_ms);
        helper.sleep_ms(slice);
        rounds += 1;
        proof {
            let round = Round { needed: still_needed, now };
            assert(done.push(round).drop_last() =~= done);
            done = done.push(round);
        }
    }
}

// ---- laws -----------------------------------------------------------------------

proof fn lemma_rounds(
    before: Seq<WaitStep>,
    rounds: Seq<Round>,
    deadline: u64,
    poll_interval_ms: u64,
)
    ensures
        rounds_done(before, rounds, deadline, poll_interval_ms).len() == before.len() + 4
            * rounds.len(),
        forall|i: int|
            0 <= i < before.len() ==> #[trigger] rounds_done(
                before,
                rounds,
                deadline,
                poll_interval_ms,
            )[i] == before[i],
        forall|i: int|
            before.len() <= i < before.len() + 4 * rounds.len() ==> !ends_wait(
                #[trigger] rounds_done(before, rounds, deadline, poll_interval_ms)[i],
            ),
    decreases rounds.len(),
{
    if rounds.len() > 0 {
        lemma_rounds(before, rounds.drop_last(), deadline, poll_interval_ms);
    }
}

/// Whether a step is one that only the last round of a wait has.
pub open spec fn ends_wait(step: WaitStep) -> bool {
    step is Notified || step is Terminated || step == (WaitStep::Asked { running: false })
}

/// A wait ends its helper exactly once, as its last step. It tells the helper of
/// the grants exactly when everything is granted: once, after the poll that
/// found nothing missing, and with the grace between that and the end. The
/// helper exited exactly when it said so right after the last poll, and the wait
/// timed out exactly when the clock was read after that. What is reported as
/// missing is what the last poll found.
pub proof fn helper_is_ended_once<C: Clock, F: Fn() -> Vec<NeededPermission>>(
    clock: &C,
    poll: F,
    timing: Timing,
    before: Seq<WaitStep>,
    after: Seq<WaitStep>,
    r: WaitResult,
)
    requires
        waited(clock, poll, timing, before, after, r),
    ensures
        ({
            let n = after.len() as int;
            &&& n >= before.len() + 4
            &&& after.take(before.len() as int) == before
            &&& after[before.len() as int] is Read
            &&& after[n - 1] is Terminated
            &&& forall|i: int| before.len() <= i < n - 1 ==> !(#[trigger] after[i] is Terminated)
            &&& forall|i: int|
                before.len() <= i < n ==> (#[trigger] after[i] is Notified <==> r.outcome
                    == WaitOutcome::AllGranted && i == n - 3)
            &&& forall|i: int|
                before.len() <= i < n ==> (#[trigger] after[i] == (WaitStep::Asked {
                    running: false,
                }) <==> r.outcome == WaitOutcome::HelperExited && i == n - 2)
            &&& match r.outcome {
                WaitOutcome::AllGranted => r.still_needed@.len() == 0 && after[n - 4] == (
                WaitStep::Polled { needed: r.still_needed }) && after[n - 2] == (WaitStep::Slept {
                    ms: timing.grace_ms,
                }),
                WaitOutcome::HelperExited => r.still_needed@.len() > 0 && after[n - 3] == (
                WaitStep::Polled { needed: r.still_needed }),
                WaitOutcome::TimedOut => r.still_needed@.len() > 0 && after[n - 4] == (
                WaitStep::Polled { needed: r.still_needed }) && after[n - 3] == (WaitStep::Asked {
                    running: true,
                }) && after[n - 2] is Read,
            }
        }),
{
    let (start, rounds, now) = choose|start: u64, rounds: Seq<Round>, now: u64|
        #[trigger] ends(clock, poll, timing, start, rounds, now, r) && after == closed(
            rounds_done(
                before.push(WaitStep::Read { now: start }),
                rounds,
                deadline_of(start, timing.deadline_ms),
                timing.poll_interval_ms,
            ),
            timing.grace_ms,
            now,
            r,
        );
    let begun = before.push(WaitStep::Read { now: start });
    let deadline = deadline_of(start, timing.deadline_ms);
    let done = rounds_done(begun, rounds, deadline, timing.poll_interval_ms);
    lemma_rounds(begun, rounds, deadline, timing.poll_interval_ms);
    assert forall|i: int| 0 <= i < done.len() implies #[trigger] after[i] == done[i] by {}
    assert(after[before.len() as int] == begun[before.len() as int]);
    assert forall|i: int| 0 <= i < before.len() implies #[trigger] after[i] == before[i] by {
        assert(done[i] == begun[i]);
    }
    assert(after.take(before.len() as int) =~= before);
    assert forall|i: int| begun.len() <= i < done.len() implies !ends_wait(#[trigger] after[i]) by {
        assert(!ends_wait(done[i]));
    }
}

/// A wait never sleeps past its deadline, nor longer than its interval; and it
/// sleeps the whole interval where the deadline is further off than that. Before
/// the deadline it always sleeps a while, unless its interval is none. The
/// deadline lies as far ahead as was asked for, unless time ends first.
pub proof fn waits_end_at_their_deadline(
    start: u64,
    deadline_ms: u64,
    now: u64,
    poll_interval_ms: u64,
)
    ensures
        start + deadline_ms <= u64::MAX ==> deadline_of(start, deadline_ms) == start + deadline_ms,
        start + deadline_ms > u64::MAX ==> deadline_of(start, deadline_ms) == u64::MAX,
        ({
            let deadline = deadline_of(start, deadline_ms);
            let ms = slice_at(now, deadline, poll_interval_ms);
            &&& now < deadline ==> now + ms <= deadline
            &&& ms <= poll_interval_ms
            &&& now + poll_interval_ms <= deadline && now < deadline ==> ms == poll_interval_ms
            &&& now < deadline < now + poll_interval_ms ==> now + ms == deadline
            &&& now < deadline && poll_interval_ms > 0 ==> ms > 0
        }),
{
}

proof fn lemma_round_steps(
    before: Seq<WaitStep>,
    rounds: Seq<Round>,
    deadline: u64,
    poll_interval_ms: u64,
    k: int,
)
    requires
        0 <= k < rounds.len(),
    ensures
        ({
            let done = rounds_done(before, rounds, deadline, poll_interval_ms);
            let at = before.len() + 4 * k;
            &&& done.len() == before.len() + 4 * rounds.len()
            &&& done[at] == (WaitStep::Polled { needed: rounds[k].needed })
            &&& done[at + 1] == (WaitStep::Asked { running: true })
            &&& done[at + 2] == (WaitStep::Read { now: rounds[k].now })
            &&& done[at + 3] == (WaitStep::Slept {
                ms: slice_at(rounds[k].now, deadline, poll_interval_ms),
            })
        }),
    decreases rounds.len(),
{
    lemma_rounds(before, rounds, deadline, poll_interval_ms);
    lemma_rounds(before, rounds.drop_last(), deadline, poll_interval_ms);
    if k < rounds.len() - 1 {
        lemma_round_steps(before, rounds.drop_last(), deadline, poll_interval_ms, k);
    }
}

/// A wait that goes on does so round by round: it polls and finds something
/// missing, finds the helper running, reads a time before the deadline, and sleeps
/// for the interval, or up to the deadline where that is nearer.
pub proof fn waits_go_round_by_round<C: Clock, F: Fn() -> Vec<NeededPermission>>(
    clock: &C,
    poll: F,
    timing: Timing,
    before: Seq<WaitStep>,
    after: Seq<WaitStep>,
    r: WaitResult,
    k: int,
)
    requires
        waited(clock, poll, timing, before, after, r),
        k >= 0,
        before.len() + 1 + 4 * k + 4 < after.len() - 1,
    ensures
        ({
            let at = before.len() + 1 + 4 * k;
            let start = after[before.len() as int]->now;
            let now = after[at + 2]->now;
            &&& after[before.len() as int] is Read
            &&& after[at] is Polled && after[at]->needed@.len() > 0
            &&& after[at + 1] == (WaitStep::Asked { running: true })
            &&& after[at + 2] is Read && now < start + timing.deadline_ms
            &&& after[at + 3] is Slept && after[at + 3]->ms <= timing.poll_interval_ms
            &&& start + timing.deadline_ms <= u64::MAX ==> {
                &&& now + after[at + 3]->ms <= start + timing.deadline_ms
                &&& now + timing.poll_interval_ms <= start + timing.deadline_ms
                    ==> after[at + 3]->ms == timing.poll_interval_ms
                &&& now + timing.poll_interval_ms > start + timing.deadline_ms
                    ==> now + after[at + 3]->ms == start + timing.deadline_ms
            }
        }),
{
    let (start, rounds, now) = choose|start: u64, rounds: Seq<Round>, now: u64|
        #[trigger] ends(clock, poll, timing, start, rounds, now, r) && after == closed(
            rounds_done(
                before.push(WaitStep::Read { now: start }),
                rounds,
                deadline_of(start, timing.deadline_ms),
                timing.poll_interval_ms,
            ),
            timing.grace_ms,
            now,
            r,
        );
    let begun = before.push(WaitStep::Read { now: start });
    let deadline = deadline_of(start, timing.deadline_ms);
    let done = rounds_done(begun, rounds, deadline, timing.poll_interval_ms);
    lemma_rounds(begun, rounds, deadline, timing.poll_interval_ms);
    assert(after.len() <= done.len() + 4);
    assert(k < rounds.len());
    lemma_round_steps(begun, rounds, deadline, timing.poll_interval_ms, k);
    assert(goes_on(clock, poll, deadline, rounds[k]));
    assert forall|i: int| 0 <= i < done.len() implies #[trigger] after[i] == done[i] by {}
    let at = before.len() + 1 + 4 * k;
    assert(after[before.len() as int] == begun[before.len() as int]);
    assert(after[at] == done[at] && after[at + 1] == done[at + 1]);
    assert(after[at + 2] == done[at + 2] && after[at + 3] == done[at + 3]);
}

/// A wait times out only at or after its deadline, as the clock that it read last
/// says, unless it went on for more rounds than can be counted.
pub proof fn waits_time_out_late<C: Clock, F: Fn() -> Vec<NeededPermission>>(
    clock: &C,
    poll: F,
    timing: Timing,
    before: Seq<WaitStep>,
    after: Seq<WaitStep>,
    r: WaitResult,
)
    requires
        waited(clock, poll, timing, before, after, r),
        r.outcome == WaitOutcome::TimedOut,
        after.len() - before.len() < u64::MAX,
    ensures
        ({
            let start = after[before.len() as int]->now;
            let last = after[after.len() - 2];
            &&& after[before.len() as int] is Read && last is Read
            &&& start + timing.deadline_ms <= u64::MAX ==> last->now >= start + timing.deadline_ms
            &&& start + timing.deadline_ms > u64::MAX ==> last->now == u64::MAX
        }),
{
    helper_is_ended_once(clock, poll, timing, before, after, r);
    let (start, rounds, now) = choose|start: u64, rounds: Seq<Round>, now: u64|
        #[trigger] ends(clock, poll, timing, start, rounds, now, r) && after == closed(
            rounds_done(
                before.push(WaitStep::Read { now: start }),
                rounds,
                deadline_of(start, timing.deadline_ms),
                timing.poll_interval_ms,
            ),
            timing.grace_ms,
            now,
            r,
        );
    let begun = before.push(WaitStep::Read { now: start });
    let deadline = deadline_of(start, timing.deadline_ms);
    lemma_rounds(begun, rounds, deadline, timing.poll_interval_ms);
    let done = rounds_done(begun, rounds, deadline, timing.poll_interval_ms);
    assert(after[before.len() as int] == done[before.len() as int]);
    assert(done[before.len() as int] == begun[before.len() as int]);
}

} // verus!
