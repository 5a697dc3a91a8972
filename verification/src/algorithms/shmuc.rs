//! Shared-memory uniform coordination: writes and their checks alternate
//! round by round, and every tenth round starts a change of the group's
//! membership. Kept for comparison; MONSTER took its place.

use crate::algorithms::monster::QueuePoll;
use crate::algorithms::monster::RoundOutcome;
use crate::algorithms::monster::StopReason;
use crate::safe_memio::mem_write_each;
use crate::safe_memio::injects_failure;
use crate::safe_memio::safe_read;
use crate::safe_memio::safe_write;
use crate::safe_memio::wrote_with;
use crate::shmem::wcr::WriteConflictReferee;
use crate::shmem::MemoryNode;
use crate::wid::ObjectMemoryEntry;
use crate::wid::Wid;
use crate::WriteRequest;
use crate::safe_memio::FAILURE_RATE;
use crate::safe_memio::FAILURE_SCALE;
use crate::MAX_PROCESSES;
use vstd::prelude::*;

verus! {

/// Every so many rounds a change of membership starts.
pub const SHMUC_MEMBERSHIP_CHANGE_INTERVAL: u64 = 10;

/// What a round is for.
#[derive(Debug, Copy, Clone, PartialEq, Eq, Structural)]
pub enum ShmucRound {
    Init,
    Write,
    Read,
    ViewChange1,
    ViewChange2,
    ViewChange3,
    ViewChange4,
    PendingViewChange,
    Quit,
}

/// What round `round_num` is for, after a round for `state`: a change of
/// membership starts in every tenth round unless the process has quit, and
/// runs for four rounds; otherwise rounds for writing and for reading take
/// turns.
pub open spec fn round_after(state: ShmucRound, round_num: u64) -> ShmucRound {
    if round_num % SHMUC_MEMBERSHIP_CHANGE_INTERVAL == 0 && state != ShmucRound::Quit {
        ShmucRound::ViewChange1
    } else {
        match state {
            ShmucRound::Init => ShmucRound::Write,
            ShmucRound::Write => ShmucRound::Read,
            ShmucRound::Read => ShmucRound::Write,
            ShmucRound::ViewChange1 => ShmucRound::ViewChange2,
            ShmucRound::ViewChange2 => ShmucRound::ViewChange3,
            ShmucRound::ViewChange3 => ShmucRound::ViewChange4,
            ShmucRound::ViewChange4 => ShmucRound::Write,
            ShmucRound::PendingViewChange => ShmucRound::PendingViewChange,
            ShmucRound::Quit => ShmucRound::Quit,
        }
    }
}

/// Tells what each round is for.
#[derive(Debug, Copy, Clone, PartialEq, Eq, Structural)]
pub struct ShmucStateMachine {
    pub state: ShmucRound,
}

impl ShmucStateMachine {
    pub fn new() -> (machine: ShmucStateMachine)
        ensures
            machine.state == ShmucRound::Init,
    {
        ShmucStateMachine { state: ShmucRound::Init }
    }

    /// Moves on to round `round_num` and tells what it is for.
    pub fn next(&mut self, round_num: u64) -> (round: ShmucRound)
        ensures
            round == round_after(old(self).state, round_num),
            final(self).state == round,
    {
        if round_num % SHMUC_MEMBERSHIP_CHANGE_INTERVAL == 0 && self.state != ShmucRound::Quit {
            self.state = ShmucRound::ViewChange1;
            return self.state;
        }
        self.state = match self.state {
            ShmucRound::Init => ShmucRound::Write,
            ShmucRound::Write => ShmucRound::Read,
            ShmucRound::Read => ShmucRound::Write,
            ShmucRound::ViewChange1 => ShmucRound::ViewChange2,
            ShmucRound::ViewChange2 => ShmucRound::ViewChange3,
            ShmucRound::ViewChange3 => ShmucRound::ViewChange4,
            ShmucRound::ViewChange4 => ShmucRound::Write,
            ShmucRound::PendingViewChange => ShmucRound::PendingViewChange,
            ShmucRound::Quit => ShmucRound::Quit,
        };
        self.state
    }
}

/// Why a time-checked access failed.
#[derive(Debug, Copy, Clone)]
pub enum ShmucError {
    /// The access itself failed.
    MemioError(&'static str),
    /// The access was done, but the round was over by then.
    RoundOvertime,
}

/// Writes `data` to `slot` and then checks the time. Fails if the write
/// failed, which it does only by an injected failure, or if the clock read
/// after it is past `round_end`; in that case the write did take place.
pub fn tchk_write<T: Copy, C>(round_end: u64, slot: &mut T, data: T, clock: C) -> (r: Result<
    (),
    ShmucError,
>) where C: FnOnce() -> u64
    requires
        call_requires(clock, ()),
    ensures
        exists|roll: u32|
            roll < FAILURE_SCALE && (r matches Err(ShmucError::MemioError(_)) <==> #[trigger] injects_failure(
                roll,
                FAILURE_RATE,
            )),
        r matches Err(ShmucError::MemioError(_)) ==> FAILURE_RATE > 0,
        match r {
            Ok(_) => *final(slot) == data && exists|now: u64| #[trigger]
                call_ensures(clock, (), now) && now <= round_end,
            Err(ShmucError::MemioError(msg)) => *final(slot) == *old(slot) && msg@
                == "Simulated write failure"@,
            Err(ShmucError::RoundOvertime) => *final(slot) == data && exists|now: u64| #[trigger]
                call_ensures(clock, (), now) && now > round_end,
        },
{
    match safe_write(slot, data) {
        Ok(_) => {},
        Err(e) => {
            return Err(ShmucError::MemioError(e));
        },
    }
    let now = clock();
    if now > round_end {
        Err(ShmucError::RoundOvertime)
    } else {
        Ok(())
    }
}

/// Reads `slot` and then checks the time. Fails if the read failed, which
/// it does only by an injected failure, or if the clock read after it is
/// past `round_end`.
pub fn tchk_read<T: Copy, C>(round_end: u64, slot: &T, clock: C) -> (r: Result<T, ShmucError>) where
    C: FnOnce() -> u64,

    requires
        call_requires(clock, ()),
    ensures
        exists|roll: u32|
            roll < FAILURE_SCALE && (r matches Err(ShmucError::MemioError(_)) <==> #[trigger] injects_failure(
                roll,
                FAILURE_RATE,
            )),
        r matches Err(ShmucError::MemioError(_)) ==> FAILURE_RATE > 0,
        match r {
            Ok(data) => data == *slot && exists|now: u64| #[trigger]
                call_ensures(clock, (), now) && now <= round_end,
            Err(ShmucError::MemioError(msg)) => msg@ == "Simulated read failure"@,
            Err(ShmucError::RoundOvertime) => exists|now: u64| #[trigger]
                call_ensures(clock, (), now) && now > round_end,
        },
{
    let data = match safe_read(slot) {
        Ok(data) => data,
        Err(e) => {
            return Err(ShmucError::MemioError(e));
        },
    };
    let now = clock();
    if now > round_end {
        Err(ShmucError::RoundOvertime)
    } else {
        Ok(data)
    }
}

/// `pid` is the smallest of `pids`.
pub open spec fn is_smallest(pids: Seq<usize>, pid: usize) -> bool {
    &&& pids.contains(pid)
    &&& forall|k: int| 0 <= k < pids.len() ==> pid <= pids[k]
}

/// Whether `pid` is the smallest of `pids`.
fn wins(pids: &Vec<usize>, pid: usize) -> (b: bool)
    ensures
        b == is_smallest(pids@, pid),
{
    let mut found = false;
    let mut k: usize = 0;
    while k < pids.len()
        invariant
            k <= pids.len(),
            found <==> exists|m: int| 0 <= m < k && pids[m] == pid,
            forall|m: int| 0 <= m < k ==> pid <= pids[m],
        decreases pids.len() - k,
    {
        if pids[k] < pid {
            return false;
        }
        if pids[k] == pid {
            found = true;
        }
        k += 1;
    }
    found
}

/// The worker of one process.
#[derive(Debug, Clone, Copy)]
pub struct ShmucWorker<T: Copy> {
    /// Id of the process.
    pub self_id: usize,
    pub machine: ShmucStateMachine,
    /// The request written in the latest round for writing, until the round
    /// for reading has answered it.
    pub pending_write_req: Option<WriteRequest<T>>,
}

impl<T: Copy> ShmucWorker<T> {
    pub fn new(self_id: usize) -> (worker: Self)
        ensures
            worker.self_id == self_id,
            worker.machine.state == ShmucRound::Init,
            worker.pending_write_req is None,
    {
        ShmucWorker { self_id, machine: ShmucStateMachine::new(), pending_write_req: None }
    }
}

/// What the round for reading answers the client of a request for the
/// location `offset`: success, unless the referee holds several processes
/// for the location and `pid` is not the smallest of them.
pub open spec fn verdict(referee: WriteConflictReferee, offset: usize, pid: usize) -> bool {
    forall|i: int|
        referee.conflict_at(i, offset) ==> is_smallest(referee.requests@[i].members(), pid)
}

/// One round of the worker.
///
/// In a round for writing the worker looks at its queue through `poll`. It
/// enters a request with the referee under the request's offset, writes the
/// data to every node through `write_one`, whatever comes of the writes, and
/// keeps the request. In a round for reading it answers the request that it
/// keeps: with failure if another process asked for the same location and
/// this process does not have the smallest id of those who did. All other
/// rounds pass idle.
pub fn shmuc<T: Copy, E, P, W>(
    worker: &mut ShmucWorker<T>,
    wcr: &mut WriteConflictReferee,
    nodes: &Vec<MemoryNode>,
    round_num: u64,
    poll: P,
    write_one: W,
) -> (outcome: RoundOutcome) where
    P: FnOnce() -> QueuePoll<T>,
    W: Fn(&MemoryNode, usize, ObjectMemoryEntry<T>) -> Result<(), E>,

    requires
        old(wcr).wf(),
        call_requires(poll, ()),
        forall|i: int, offset: usize, entry: ObjectMemoryEntry<T>|
            0 <= i < nodes.len() ==> #[trigger] call_requires(
                write_one,
                (&nodes[i], offset, entry),
            ),
        forall|i: int|
            0 <= i < old(wcr).requests_count ==> (#[trigger] old(wcr).requests@[i]).count
                < MAX_PROCESSES,
    ensures
        final(wcr).wf(),
        final(worker).self_id == old(worker).self_id,
        final(worker).machine.state == round_after(old(worker).machine.state, round_num),
        match final(worker).machine.state {
            ShmucRound::Write => exists|polled: QueuePoll<T>| #[trigger]
                call_ensures(poll, (), polled) && match polled {
                    QueuePoll::Request(req) => {
                        &&& outcome == RoundOutcome::Continue
                        &&& final(worker).pending_write_req == Some(req)
                        &&& old(wcr).after_push(
                            req.obj_info.offset,
                            old(worker).self_id,
                            *final(wcr),
                        )
                        &&& exists|results: Seq<bool>| #[trigger]
                            wrote_with(
                                write_one,
                                nodes@,
                                req.obj_info.offset,
                                ObjectMemoryEntry { wid: Wid::zero(), value: req.data },
                                results,
                            )
                    },
                    QueuePoll::Empty => {
                        &&& outcome == RoundOutcome::Continue
                        &&& final(worker).pending_write_req == old(worker).pending_write_req
                        &&& *final(wcr) == *old(wcr)
                    },
                    QueuePoll::Disconnected => {
                        &&& outcome == RoundOutcome::Stop(StopReason::QueueDisconnected)
                        &&& final(worker).pending_write_req == old(worker).pending_write_req
                        &&& *final(wcr) == *old(wcr)
                    },
                },
            ShmucRound::Read => {
                &&& *final(wcr) == *old(wcr)
                &&& final(worker).pending_write_req is None
                &&& outcome == match old(worker).pending_write_req {
                    Some(req) => RoundOutcome::Ack(
                        verdict(*old(wcr), req.obj_info.offset, old(worker).self_id),
                    ),
                    None => RoundOutcome::Continue,
                }
            },
            _ => {
                &&& outcome == RoundOutcome::Continue
                &&& final(worker).pending_write_req == old(worker).pending_write_req
                &&& *final(wcr) == *old(wcr)
            },
        },
{
    match worker.machine.next(round_num) {
        ShmucRound::Write => {
            match poll() {
                QueuePoll::Request(req) => {
                    wcr.push_request(req.obj_info.offset, worker.self_id);
                    let entry = ObjectMemoryEntry::new_nowid(req.data);
                    let _failed = mem_write_each(req.obj_info.offset, entry, nodes, &write_one);
                    worker.pending_write_req = Some(req);
                    RoundOutcome::Continue
                },
                QueuePoll::Empty => RoundOutcome::Continue,
                QueuePoll::Disconnected => RoundOutcome::Stop(StopReason::QueueDisconnected),
            }
        },
        ShmucRound::Read => {
            match worker.pending_write_req {
                Some(req) => {
                    let mut success = true;
                    match wcr.check_conflicts(req.obj_info.offset) {
                        Some(conflicting_pids) => {
                            if !wins(&conflicting_pids, worker.self_id) {
                                success = false;
                            }
                            proof {
                                let i = choose|i: int| #[trigger]
                                    wcr.conflict_at(i, req.obj_info.offset) && conflicting_pids@
                                        == wcr.requests@[i].members();
                                assert forall|k: int|
                                    wcr.conflict_at(k, req.obj_info.offset) implies k == i by {}
                            }
                        },
                        None => {},
                    }
                    worker.pending_write_req = None;
                    RoundOutcome::Ack(success)
                },
                None => RoundOutcome::Continue,
            }
        },
        _ => RoundOutcome::Continue,
    }
}

} // verus!
