//! Rounds: how wall-clock time is cut into numbered intervals, and how long a
//! worker sleeps before it spins up to the next boundary.
//!
//! All times are nanoseconds since the epoch, all durations nanoseconds. The
//! functions here decide; reading the clock, sleeping and spinning are the
//! caller's.

use vstd::arithmetic::div_mod::lemma_div_is_ordered;
use vstd::arithmetic::div_mod::lemma_fundamental_div_mod;
use vstd::arithmetic::div_mod::lemma_fundamental_div_mod_converse;
use vstd::arithmetic::div_mod::lemma_mod_bound;
use crate::shmem::MemoryNode;
use monster::QueuePoll;
use monster::RoundOutcome;
use monster::StopReason;
use vstd::prelude::*;

pub mod best_effort;
pub mod lockstep;
pub mod monster;
pub mod shmuc;

verus! {

/// The scale of a sleep ratio: a ratio of `RATIO_SCALE` is the whole
/// interval.
pub const RATIO_SCALE: u64 = 1_000_000;

/// The share of a round that the workers sleep before they spin, in parts of
/// `RATIO_SCALE`.
pub const ROUND_SLEEP_RATIO: u64 = 0;

/// The part `sleep_ratio / RATIO_SCALE` of `duration`, rounded down.
pub open spec fn scaled(duration: int, sleep_ratio: int) -> int {
    duration * sleep_ratio / (RATIO_SCALE as int)
}

/// Number of whole rounds of `round_time` that have passed at `now` since
/// `start_time`.
pub open spec fn rounds_elapsed(start_time: int, round_time: int, now: int) -> int {
    (now - start_time) / round_time
}

/// Start of round `round_num`, where round 0 starts at `start_time`.
pub open spec fn round_start(start_time: int, round_time: int, round_num: int) -> int {
    start_time + round_time * round_num
}

/// How long to sleep at `now` before the next round, whose boundary lies
/// `sleep_ratio` of a round after the wake-up time: the rest of that time, or
/// nothing where it has passed.
pub open spec fn round_sleep(start_time: int, round_time: int, sleep_ratio: int, now: int) -> int {
    let spent = (now - start_time) % round_time;
    let wake_up = scaled(round_time, sleep_ratio);
    if spent < wake_up {
        wake_up - spent
    } else {
        0
    }
}

/// How long to sleep at `now` before spinning up to `start_time`: the share
/// `sleep_ratio` of the time that is left, and nothing where the share is the
/// whole of it.
pub open spec fn start_sleep(start_time: int, sleep_ratio: int, now: int) -> int {
    let left = if now < start_time {
        start_time - now
    } else {
        0
    };
    if left > scaled(left, sleep_ratio) {
        scaled(left, sleep_ratio)
    } else {
        0
    }
}

proof fn lemma_scaled_bounds(duration: int, sleep_ratio: int)
    requires
        0 <= duration,
        0 <= sleep_ratio <= RATIO_SCALE,
    ensures
        0 <= scaled(duration, sleep_ratio) <= duration,
{
    let scale = RATIO_SCALE as int;
    assert(0 <= duration * sleep_ratio <= duration * scale) by (nonlinear_arith)
        requires
            0 <= duration,
            0 <= sleep_ratio <= scale,
    ;
    lemma_div_is_ordered(0, duration * sleep_ratio, scale);
    lemma_div_is_ordered(duration * sleep_ratio, duration * scale, scale);
    lemma_fundamental_div_mod_converse(duration * scale, scale, duration, 0);
}

/// The part `sleep_ratio / RATIO_SCALE` of `duration`.
fn scale_duration(duration: u64, sleep_ratio: u64) -> (part: u64)
    requires
        sleep_ratio <= RATIO_SCALE,
    ensures
        part == scaled(duration as int, sleep_ratio as int),
        part <= duration,
{
    proof {
        lemma_scaled_bounds(duration as int, sleep_ratio as int);
        assert(duration * sleep_ratio <= u64::MAX * RATIO_SCALE) by (nonlinear_arith)
            requires
                0 <= duration <= u64::MAX,
                0 <= sleep_ratio <= RATIO_SCALE,
        ;
    }
    let product: u128 = (duration as u128) * (sleep_ratio as u128);
    (product / (RATIO_SCALE as u128)) as u64
}

/// What a worker does to reach the start of the first round.
#[derive(Debug, Clone, Copy, PartialEq, Eq, Structural)]
pub struct StartWait {
    /// How long to sleep first.
    pub sleep_ns: u64,
    /// The time up to which to spin after that.
    pub spin_until: u64,
}

/// Plans the wait for the start of the first round at `start_time`, as seen
/// at `now`: sleep for the share `sleep_ratio` of the time that is left, then
/// spin. A worker that wakes after `start_time` does not spin.
pub fn wait_start_time(start_time: u64, sleep_ratio: u64, now: u64) -> (wait: StartWait)
    requires
        sleep_ratio <= RATIO_SCALE,
    ensures
        wait.spin_until == start_time,
        wait.sleep_ns == start_sleep(start_time as int, sleep_ratio as int, now as int),
        now + wait.sleep_ns <= start_time || wait.sleep_ns == 0,
{
    let left: u64 = if now < start_time {
        start_time - now
    } else {
        0
    };
    let sleep_duration = scale_duration(left, sleep_ratio);
    let sleep_ns: u64 = if left > sleep_duration {
        sleep_duration
    } else {
        0
    };
    StartWait { sleep_ns, spin_until: start_time }
}

/// What a worker does to reach the next round, and which round that is.
#[derive(Debug, Clone, Copy, PartialEq, Eq, Structural)]
pub struct RoundWait {
    /// Number of the round that begins at `round_start`.
    pub round_num: u64,
    /// The boundary up to which to spin.
    pub round_start: u64,
    /// How long to sleep before spinning.
    pub sleep_ns: u64,
}

/// Plans the wait for the next round, as seen at `now`.
///
/// Rounds last `round_time` and round 0 starts at `start_time`. The next
/// round is the one after the round that `now` lies in. The worker sleeps
/// until the share `sleep_ratio` of the current round has passed, counted
/// from the round's start, and spins from there to the boundary.
pub fn wait_next_round(start_time: u64, round_time: u64, sleep_ratio: u64, now: u64) -> (wait:
    RoundWait)
    requires
        sleep_ratio <= RATIO_SCALE,
        round_time > 0,
        start_time <= now,
        now + round_time <= u64::MAX,
    ensures
        wait.round_num == rounds_elapsed(start_time as int, round_time as int, now as int) + 1,
        wait.round_start == round_start(
            start_time as int,
            round_time as int,
            wait.round_num as int,
        ),
        wait.sleep_ns == round_sleep(
            start_time as int,
            round_time as int,
            sleep_ratio as int,
            now as int,
        ),
        now < wait.round_start <= now + round_time,
        now + wait.sleep_ns <= wait.round_start,
{
    let elapsed: u64 = now - start_time;
    let current: u64 = elapsed / round_time;
    let spent: u64 = elapsed % round_time;
    let wake_up = scale_duration(round_time, sleep_ratio);
    proof {
        lemma_fundamental_div_mod(elapsed as int, round_time as int);
        lemma_mod_bound(elapsed as int, round_time as int);
        assert(round_time * (current + 1) == round_time * current + round_time)
            by (nonlinear_arith);
        assert(current <= elapsed) by (nonlinear_arith)
            requires
                elapsed == round_time * current + spent,
                round_time >= 1,
                spent >= 0,
                current >= 0,
        ;
    }
    let next_start: u64 = start_time + round_time * (current + 1);
    let sleep_ns: u64 = if spent < wake_up {
        wake_up - spent
    } else {
        0
    };
    RoundWait { round_num: current + 1, round_start: next_start, sleep_ns }
}

/// Round numbers grow strictly from one wait to the next: a second wait that
/// is planned when the first one is over, at or after the boundary that the
/// first one led to, leads to a round with a greater number. It is the very
/// next number where the second wait is planned before that round has ended.
pub proof fn lemma_round_numbers_increase(
    start_time: int,
    round_time: int,
    first_now: int,
    second_now: int,
)
    requires
        round_time > 0,
        start_time <= first_now,
        round_start(
            start_time,
            round_time,
            rounds_elapsed(start_time, round_time, first_now) + 1,
        ) <= second_now,
    ensures
        rounds_elapsed(start_time, round_time, second_now) + 1 > rounds_elapsed(
            start_time,
            round_time,
            first_now,
        ) + 1,
        second_now < round_start(
            start_time,
            round_time,
            rounds_elapsed(start_time, round_time, first_now) + 2,
        ) ==> rounds_elapsed(start_time, round_time, second_now) + 1 == rounds_elapsed(
            start_time,
            round_time,
            first_now,
        ) + 2,
{
    let first = rounds_elapsed(start_time, round_time, first_now);
    let second = rounds_elapsed(start_time, round_time, second_now);
    let boundary = round_time * (first + 1);
    assert(boundary == (first + 1) * round_time + 0) by (nonlinear_arith)
        requires
            boundary == round_time * (first + 1),
    ;
    lemma_fundamental_div_mod_converse(boundary, round_time, first + 1, 0);
    lemma_div_is_ordered(boundary, second_now - start_time, round_time);
    if second_now < round_start(start_time, round_time, first + 2) {
        let spent = second_now - start_time - boundary;
        assert(round_time * (first + 2) == boundary + round_time) by (nonlinear_arith)
            requires
                boundary == round_time * (first + 1),
        ;
        assert(second_now - start_time == (first + 1) * round_time + spent) by (nonlinear_arith)
            requires
                boundary == round_time * (first + 1),
                spent == second_now - start_time - boundary,
        ;
        lemma_fundamental_div_mod_converse(second_now - start_time, round_time, first + 1, spent);
    }
}

/// `results` says for each node whether `verify_one` found `data` at
/// `offset` after writing it, and each of these outcomes is one that
/// `verify_one` can have.
pub open spec fn verified_with<T: Copy, F>(
    verify_one: F,
    nodes: Seq<MemoryNode>,
    offset: usize,
    data: T,
    results: Seq<bool>,
) -> bool where F: Fn(&MemoryNode, usize, T) -> bool {
    &&& results.len() == nodes.len()
    &&& forall|i: int|
        0 <= i < nodes.len() ==> call_ensures(
            verify_one,
            (&#[trigger] nodes[i], offset, data),
            results[i],
        )
}

/// One round of a worker that writes each request to every node and reads
/// it back: what the look at the queue found is `poll`. `verify_one` writes
/// the data on one node, reads it back and tells whether it came back as it
/// was written. The client is answered with success if that was so on every
/// node.
pub fn write_verify<T: Copy, F>(poll: QueuePoll<T>, nodes: &Vec<MemoryNode>, verify_one: F) -> (outcome:
    RoundOutcome) where F: Fn(&MemoryNode, usize, T) -> bool
    requires
        poll matches QueuePoll::Request(req) ==> forall|i: int|
            0 <= i < nodes.len() ==> call_requires(
                verify_one,
                (&#[trigger] nodes[i], req.obj_info.offset, req.data),
            ),
    ensures
        match poll {
            QueuePoll::Request(req) => exists|results: Seq<bool>|
                {
                    &&& #[trigger] verified_with(
                        verify_one,
                        nodes@,
                        req.obj_info.offset,
                        req.data,
                        results,
                    )
                    &&& outcome == RoundOutcome::Ack(!results.contains(false))
                },
            QueuePoll::Empty => outcome == RoundOutcome::Continue,
            QueuePoll::Disconnected => outcome == RoundOutcome::Stop(
                StopReason::QueueDisconnected,
            ),
        },
{
    match poll {
        QueuePoll::Request(req) => {
            let mut success = true;
            let ghost mut results: Seq<bool> = Seq::empty();
            let mut i: usize = 0;
            while i < nodes.len()
                invariant
                    i <= nodes.len(),
                    results.len() == i,
                    forall|k: int|
                        0 <= k < nodes.len() ==> call_requires(
                            verify_one,
                            (&#[trigger] nodes[k], req.obj_info.offset, req.data),
                        ),
                    forall|k: int|
                        0 <= k < i ==> call_ensures(
                            verify_one,
                            (&#[trigger] nodes[k], req.obj_info.offset, req.data),
                            results[k],
                        ),
                    success == !results.contains(false),
                decreases nodes.len() - i,
            {
                let ghost before = results;
                let same = verify_one(&nodes[i], req.obj_info.offset, req.data);
                if !same {
                    success = false;
                }
                proof {
                    results = results.push(same);
                    assert(results[i as int] == same);
                    assert forall|k: int| 0 <= k < i + 1 implies call_ensures(
                        verify_one,
                        (&#[trigger] nodes[k], req.obj_info.offset, req.data),
                        results[k],
                    ) by {
                        if k < i {
                            assert(results[k] == before[k]);
                        }
                    }
                    if results.contains(false) {
                        let k = choose|k: int| 0 <= k < results.len() && results[k] == false;
                        if k < i {
                            assert(before[k] == false);
                            assert(before.contains(false));
                        }
                    }
                    if before.contains(false) {
                        let k = choose|k: int| 0 <= k < before.len() && before[k] == false;
                        assert(results[k] == false);
                    }
                }
                i += 1;
            }
            assert(verified_with(verify_one, nodes@, req.obj_info.offset, req.data, results));
            RoundOutcome::Ack(success)
        },
        QueuePoll::Empty => RoundOutcome::Continue,
        QueuePoll::Disconnected => RoundOutcome::Stop(StopReason::QueueDisconnected),
    }
}

/// The replication algorithms that a process can run.
#[derive(Debug, Clone, Copy, PartialEq, Eq, Structural)]
pub enum Algorithm {
    /// Round-synchronous writes with conflict arbitration.
    Monster,
    /// Writes as they come, without rounds and without arbitration.
    AsyncBestEffort,
    /// One write per round, without arbitration.
    SyncBestEffort,
}

impl Algorithm {
    /// The name that a configuration gives the algorithm.
    pub open spec fn spec_name(self) -> Seq<char> {
        match self {
            Algorithm::Monster => "monster"@,
            Algorithm::AsyncBestEffort => "async_best_effort"@,
            Algorithm::SyncBestEffort => "sync_best_effort"@,
        }
    }

    /// The name that a configuration gives the algorithm.
    pub fn name(&self) -> (name: &'static str)
        ensures
            name@ == self.spec_name(),
    {
        match self {
            Algorithm::Monster => "monster",
            Algorithm::AsyncBestEffort => "async_best_effort",
            Algorithm::SyncBestEffort => "sync_best_effort",
        }
    }

    /// The algorithm of the given name, if there is one.
    pub fn from_name(name: &str) -> (algorithm: Option<Algorithm>)
        ensures
            match algorithm {
                Some(a) => a.spec_name() == name@,
                None => forall|a: Algorithm| a.spec_name() != name@,
            },
    {
        let given = name.to_owned();
        if given == Algorithm::Monster.name().to_owned() {
            Some(Algorithm::Monster)
        } else if given == Algorithm::AsyncBestEffort.name().to_owned() {
            Some(Algorithm::AsyncBestEffort)
        } else if given == Algorithm::SyncBestEffort.name().to_owned() {
            Some(Algorithm::SyncBestEffort)
        } else {
            None
        }
    }
}

} // verus!
