//! The MONSTER replication protocol: the writer's state machine, which takes
//! one step per round, and the classification of what a reader finds.

use crate::safe_memio::mem_readall;
use crate::safe_memio::read_failed_at;
use crate::safe_memio::read_first;
use crate::safe_memio::MemoryError;
use crate::shmem::wcc::is_last_writer;
use crate::shmem::wcc::overrules;
use crate::shmem::wcc::ObjectWCC;
use crate::shmem::wcc::ObjectWCCEntry;
use crate::shmem::MemoryNode;
use crate::wid::ObjectMemoryEntry;
use crate::wid::Wid;
use crate::ReadRequest;
use crate::ReadReturn;
use crate::WriteRequest;
use crate::MAX_PROCESSES;
use vstd::prelude::*;

verus! {

/// The states of a writer.
#[derive(Debug, Copy, Clone, PartialEq, Eq, Structural)]
pub enum MonsterState {
    /// Idle: look for a request.
    Try,
    /// Announce the pending request anew.
    Retry,
    /// Find out who wrote last.
    Check,
    /// Write to every memory node.
    Replicate,
    /// Let the writer that came first finish.
    Wait,
    /// See whether that writer reached every node.
    PostConflictCheck,
}

impl MonsterState {
    /// The state's name.
    pub fn name(&self) -> (s: &'static str)
        ensures
            s@ == match *self {
                MonsterState::Try => "Try"@,
                MonsterState::Retry => "Retry"@,
                MonsterState::Check => "Check"@,
                MonsterState::Replicate => "Replicate"@,
                MonsterState::Wait => "Wait"@,
                MonsterState::PostConflictCheck => "PostConflictCheck"@,
            },
    {
        match self {
            MonsterState::Try => "Try",
            MonsterState::Retry => "Retry",
            MonsterState::Check => "Check",
            MonsterState::Replicate => "Replicate",
            MonsterState::Wait => "Wait",
            MonsterState::PostConflictCheck => "PostConflictCheck",
        }
    }

    /// The state's name as an owned string.
    pub fn to_string(&self) -> (s: String)
        ensures
            s@ == match *self {
                MonsterState::Try => "Try"@,
                MonsterState::Retry => "Retry"@,
                MonsterState::Check => "Check"@,
                MonsterState::Replicate => "Replicate"@,
                MonsterState::Wait => "Wait"@,
                MonsterState::PostConflictCheck => "PostConflictCheck"@,
            },
    {
        self.name().to_owned()
    }
}

/// Counters that a writer keeps of what went other than planned.
#[derive(Debug, Copy, Clone, PartialEq, Eq, Structural)]
pub struct MonsterStats {
    /// Rounds spent waiting for another writer.
    pub conflicts: u64,
    /// Times that a round was skipped because a step ran late.
    pub sync_failures: u64,
    /// Rounds in which no request was waiting.
    pub empty_requests: u64,
    /// The round of the latest step.
    pub prev_round: u64,
}

impl MonsterStats {
    /// There were fewer skips than rounds.
    pub open spec fn wf(self) -> bool {
        self.sync_failures < self.prev_round
    }

    /// The counters after a step in round `round_num`: a skip is counted
    /// where the round is not the one after the latest.
    pub open spec fn after_round(self, round_num: u64) -> MonsterStats {
        MonsterStats {
            sync_failures: if round_num > self.prev_round + 1 {
                (self.sync_failures + 1) as u64
            } else {
                self.sync_failures
            },
            prev_round: round_num,
            ..self
        }
    }

    pub fn new() -> (stats: MonsterStats)
        ensures
            stats == (MonsterStats {
                conflicts: 0,
                sync_failures: 0,
                empty_requests: 0,
                prev_round: 1,
            }),
            stats.wf(),
    {
        MonsterStats { conflicts: 0, sync_failures: 0, empty_requests: 0, prev_round: 1 }
    }

    /// Notes that a step runs in round `round_num`, and counts a skip where
    /// rounds were left out since the latest step.
    pub fn check_sync_failure(&mut self, round_num: u64)
        requires
            old(self).wf(),
            round_num >= old(self).prev_round,
        ensures
            *final(self) == old(self).after_round(round_num),
            final(self).wf(),
    {
        if round_num > self.prev_round && round_num - self.prev_round > 1 {
            self.sync_failures += 1;
        }
        self.prev_round = round_num;
    }
}

/// What a look at the request queue found.
#[derive(Debug, Clone, Copy)]
pub enum QueuePoll<T: Copy> {
    /// A request was waiting.
    Request(WriteRequest<T>),
    /// The queue was empty.
    Empty,
    /// No client can send requests any more.
    Disconnected,
}

/// What a writer needs from outside for the step of a round.
#[derive(Debug, Clone, Copy)]
pub enum RoundWork<T: Copy> {
    /// A look at the request queue, without blocking.
    Poll,
    /// Nothing.
    Nothing,
    /// The time that has passed since the round began.
    Clock,
    /// `entry` written at `offset` of every memory node.
    WriteAll { offset: usize, entry: ObjectMemoryEntry<T> },
    /// The entries at `offset` of every memory node.
    ReadAll { offset: usize },
}

/// What came of the work that a writer asked for.
#[derive(Debug)]
pub enum RoundInput<T: Copy> {
    Polled(QueuePoll<T>),
    Nothing,
    /// Nanoseconds since the round began.
    Elapsed(u64),
    Written(Result<(), MemoryError>),
    ReadBack(Result<Vec<ObjectMemoryEntry<T>>, MemoryError>),
}

/// Why a writer ends.
#[derive(Debug, Copy, Clone, PartialEq, Eq, Structural)]
pub enum StopReason {
    /// The request queue has no sender left.
    QueueDisconnected,
    /// A state that works on the pending request found none.
    NoPendingRequest,
    /// A memory node failed; the id is the node's.
    MemoryFailure(usize),
    /// The input does not answer the work that the state asks for.
    UnexpectedInput,
}

/// What the caller does after a step.
#[derive(Debug, Copy, Clone, PartialEq, Eq, Structural)]
pub enum RoundOutcome {
    /// Wait for the next round.
    Continue,
    /// Answer the client of the request that was pending, then wait for the
    /// next round.
    Ack(bool),
    /// End the worker.
    Stop(StopReason),
}

/// Some entry of `entries` carries a Wid below `wid`.
pub open spec fn any_below<T: Copy>(entries: Seq<ObjectMemoryEntry<T>>, wid: Wid) -> bool {
    exists|i: int| 0 <= i < entries.len() && (#[trigger] entries[i]).wid.below(wid)
}

/// The table after process `pid` announced object `oid` in round `round`.
pub open spec fn announced(slots: Seq<ObjectWCCEntry>, oid: usize, round: u64, pid: usize) -> Seq<
    ObjectWCCEntry,
> {
    if pid < MAX_PROCESSES {
        slots.update(pid as int, ObjectWCCEntry { oid, round })
    } else {
        slots
    }
}

/// Whether some entry of `entries` carries a Wid below `wid`.
pub fn has_below<T: Copy>(entries: &Vec<ObjectMemoryEntry<T>>, wid: &Wid) -> (found: bool)
    ensures
        found == any_below(entries@, *wid),
{
    let mut i: usize = 0;
    while i < entries.len()
        invariant
            i <= entries.len(),
            forall|j: int| 0 <= j < i ==> !(#[trigger] entries[j]).wid.below(*wid),
        decreases entries.len() - i,
    {
        if entries[i].wid.is_below(wid) {
            return true;
        }
        i += 1;
    }
    false
}

/// A writer and the shared table after a step, and what the caller does next.
pub struct Stepped<T: Copy> {
    pub writer: MonsterWriter<T>,
    pub slots: Seq<ObjectWCCEntry>,
    pub outcome: RoundOutcome,
}

/// The writer of one process.
#[derive(Debug, Clone, Copy)]
pub struct MonsterWriter<T: Copy> {
    /// Id of the process.
    pub self_id: usize,
    pub state: MonsterState,
    /// The round of the latest step; 0 before the first.
    pub round_num: u64,
    /// Identifies the write of the pending request.
    pub wid: Wid,
    /// The object of the pending request.
    pub oid: usize,
    pub pending_req: Option<WriteRequest<T>>,
    pub stats: MonsterStats,
}

impl<T: Copy> MonsterWriter<T> {
    /// The counters stay below the round number, so that none overflows.
    pub open spec fn wf(self) -> bool {
        &&& self.stats.wf()
        &&& self.stats.prev_round == if self.round_num == 0 {
            1
        } else {
            self.round_num
        }
        &&& self.stats.conflicts <= self.round_num
        &&& self.stats.empty_requests <= self.round_num
    }

    /// A request is pending exactly while the writer is not idle, and the
    /// writer's Wid and object are those of its latest announcement.
    pub open spec fn inv(self) -> bool {
        &&& self.state == MonsterState::Try <==> self.pending_req is None
        &&& self.pending_req matches Some(req) ==> {
            &&& self.oid == req.obj_info.id
            &&& self.wid.process_id == self.self_id
            &&& 1 <= self.wid.round_num <= self.round_num
        }
    }

    /// The writer with the round and the counters brought up to `round_num`.
    pub open spec fn in_round(self, round_num: u64) -> MonsterWriter<T> {
        MonsterWriter { round_num, stats: self.stats.after_round(round_num), ..self }
    }

    /// The step of a writer in state Try or Retry that announces `req`.
    pub open spec fn announce(
        self,
        slots: Seq<ObjectWCCEntry>,
        round_num: u64,
        req: WriteRequest<T>,
    ) -> Stepped<T> {
        Stepped {
            writer: MonsterWriter {
                wid: Wid { round_num, process_id: self.self_id },
                oid: req.obj_info.id,
                pending_req: Some(req),
                state: MonsterState::Check,
                ..self.in_round(round_num)
            },
            slots: announced(slots, req.obj_info.id, round_num, self.self_id),
            outcome: RoundOutcome::Continue,
        }
    }

    /// The step that changes nothing but the state and, where `ack` holds,
    /// answers the client and drops the request.
    pub open spec fn move_to(
        self,
        slots: Seq<ObjectWCCEntry>,
        round_num: u64,
        state: MonsterState,
        ack: bool,
    ) -> Stepped<T> {
        Stepped {
            writer: MonsterWriter {
                state,
                pending_req: if ack {
                    None
                } else {
                    self.pending_req
                },
                ..self.in_round(round_num)
            },
            slots,
            outcome: if ack {
                RoundOutcome::Ack(true)
            } else {
                RoundOutcome::Continue
            },
        }
    }

    /// The step that ends the worker for `reason`.
    pub open spec fn stop(self, slots: Seq<ObjectWCCEntry>, round_num: u64, reason: StopReason)
        -> Stepped<T> {
        Stepped {
            writer: self.in_round(round_num),
            slots,
            outcome: RoundOutcome::Stop(reason),
        }
    }

    /// The step of round `round_num`: the writer and the table after it, and
    /// what the caller does next.
    pub open spec fn step(
        self,
        slots: Seq<ObjectWCCEntry>,
        round_num: u64,
        round_time: u64,
        input: RoundInput<T>,
    ) -> Stepped<T> {
        let unexpected = Stepped {
            writer: self,
            slots,
            outcome: RoundOutcome::Stop(StopReason::UnexpectedInput),
        };
        match self.state {
            MonsterState::Try => match input {
                RoundInput::Polled(QueuePoll::Request(req)) => self.announce(
                    slots,
                    round_num,
                    req,
                ),
                RoundInput::Polled(QueuePoll::Empty) => Stepped {
                    writer: MonsterWriter {
                        stats: MonsterStats {
                            empty_requests: (self.stats.empty_requests + 1) as u64,
                            ..self.stats.after_round(round_num)
                        },
                        ..self.in_round(round_num)
                    },
                    slots,
                    outcome: RoundOutcome::Continue,
                },
                RoundInput::Polled(QueuePoll::Disconnected) => self.stop(
                    slots,
                    round_num,
                    StopReason::QueueDisconnected,
                ),
                _ => unexpected,
            },
            MonsterState::Retry => match (self.pending_req, input) {
                (None, _) => self.stop(slots, round_num, StopReason::NoPendingRequest),
                (Some(req), RoundInput::Nothing) => self.announce(slots, round_num, req),
                _ => unexpected,
            },
            MonsterState::Check => match input {
                RoundInput::Elapsed(elapsed) => if !is_last_writer(
                    slots,
                    self.oid,
                    round_num,
                    self.wid.round_num,
                    self.wid.process_id,
                ) {
                    self.move_to(slots, round_num, MonsterState::Wait, false)
                } else if elapsed < round_time {
                    self.move_to(slots, round_num, MonsterState::Replicate, false)
                } else {
                    self.move_to(slots, round_num, MonsterState::Check, false)
                },
                _ => unexpected,
            },
            MonsterState::Replicate => match (self.pending_req, input) {
                (None, _) => self.stop(slots, round_num, StopReason::NoPendingRequest),
                (Some(_), RoundInput::Written(Ok(_))) => self.move_to(
                    slots,
                    round_num,
                    MonsterState::Try,
                    true,
                ),
                (Some(_), RoundInput::Written(Err(e))) => self.stop(
                    slots,
                    round_num,
                    StopReason::MemoryFailure(e.0),
                ),
                _ => unexpected,
            },
            MonsterState::Wait => match input {
                RoundInput::Nothing => Stepped {
                    writer: MonsterWriter {
                        state: MonsterState::PostConflictCheck,
                        stats: MonsterStats {
                            conflicts: (self.stats.conflicts + 1) as u64,
                            ..self.stats.after_round(round_num)
                        },
                        ..self.in_round(round_num)
                    },
                    slots,
                    outcome: RoundOutcome::Continue,
                },
                _ => unexpected,
            },
            MonsterState::PostConflictCheck => match (self.pending_req, input) {
                (None, _) => self.stop(slots, round_num, StopReason::NoPendingRequest),
                (Some(_), RoundInput::ReadBack(Ok(entries))) => if any_below(entries@, self.wid) {
                    self.move_to(slots, round_num, MonsterState::Retry, false)
                } else {
                    self.move_to(slots, round_num, MonsterState::Try, true)
                },
                (Some(_), RoundInput::ReadBack(Err(e))) => self.stop(
                    slots,
                    round_num,
                    StopReason::MemoryFailure(e.0),
                ),
                _ => unexpected,
            },
        }
    }

    /// The work that the step of the current state needs done.
    pub open spec fn needs(self) -> RoundWork<T> {
        match self.state {
            MonsterState::Try => RoundWork::Poll,
            MonsterState::Retry => RoundWork::Nothing,
            MonsterState::Check => RoundWork::Clock,
            MonsterState::Replicate => match self.pending_req {
                Some(req) => RoundWork::WriteAll {
                    offset: req.obj_info.offset,
                    entry: ObjectMemoryEntry { wid: self.wid, value: req.data },
                },
                None => RoundWork::Nothing,
            },
            MonsterState::Wait => RoundWork::Nothing,
            MonsterState::PostConflictCheck => match self.pending_req {
                Some(req) => RoundWork::ReadAll { offset: req.obj_info.offset },
                None => RoundWork::Nothing,
            },
        }
    }

    /// The writer of process `self_id` before its first round: idle, with no
    /// request pending.
    pub fn new(self_id: usize) -> (writer: MonsterWriter<T>)
        ensures
            writer == (MonsterWriter::<T> {
                self_id,
                state: MonsterState::Try,
                round_num: 0,
                wid: Wid::zero(),
                oid: 0,
                pending_req: None,
                stats: MonsterStats {
                    conflicts: 0,
                    sync_failures: 0,
                    empty_requests: 0,
                    prev_round: 1,
                },
            }),
            writer.wf(),
            writer.inv(),
    {
        MonsterWriter {
            self_id,
            state: MonsterState::Try,
            round_num: 0,
            wid: Wid::new(0, 0),
            oid: 0,
            pending_req: None,
            stats: MonsterStats::new(),
        }
    }

    /// What the caller has to do, or to find out, before the step of this
    /// round.
    pub fn work(&self) -> (work: RoundWork<T>)
        ensures
            work == self.needs(),
    {
        match self.state {
            MonsterState::Try => RoundWork::Poll,
            MonsterState::Retry => RoundWork::Nothing,
            MonsterState::Check => RoundWork::Clock,
            MonsterState::Replicate => match self.pending_req {
                Some(req) => RoundWork::WriteAll {
                    offset: req.obj_info.offset,
                    entry: ObjectMemoryEntry::new(self.wid, req.data),
                },
                None => RoundWork::Nothing,
            },
            MonsterState::Wait => RoundWork::Nothing,
            MonsterState::PostConflictCheck => match self.pending_req {
                Some(req) => RoundWork::ReadAll { offset: req.obj_info.offset },
                None => RoundWork::Nothing,
            },
        }
    }

    /// Brings the round and the counters up to `round_num`.
    fn enter_round(&mut self, round_num: u64)
        requires
            old(self).wf(),
            round_num > old(self).round_num,
        ensures
            *final(self) == old(self).in_round(round_num),
            final(self).stats.wf(),
            final(self).stats.conflicts < round_num,
            final(self).stats.empty_requests < round_num,
    {
        self.stats.check_sync_failure(round_num);
        self.round_num = round_num;
    }

    /// Announces `req` in the shared table and goes on to Check.
    fn announce_request(&mut self, owcc: &mut ObjectWCC, round_num: u64, req: WriteRequest<T>)
        requires
            old(self).wf(),
            round_num > old(self).round_num,
        ensures
            *final(self) == old(self).announce(old(owcc)@, round_num, req).writer,
            final(owcc)@ == old(self).announce(old(owcc)@, round_num, req).slots,
            final(self).wf(),
    {
        self.enter_round(round_num);
        self.wid = Wid::new(round_num, self.self_id);
        self.oid = req.obj_info.id;
        owcc.write(self.oid, round_num, self.self_id);
        self.pending_req = Some(req);
        self.state = MonsterState::Check;
    }
}

/// Takes the step of round `round_num` for `writer`.
///
/// `input` is what came of the work that [`MonsterWriter::work`] asked for,
/// `owcc` the write-conflict checker of the master node, and `round_time` the
/// length of a round in nanoseconds. An input that does not answer the
/// writer's state stops the worker and changes nothing.
pub fn monster_write<T: Copy>(
    writer: &mut MonsterWriter<T>,
    owcc: &mut ObjectWCC,
    round_num: u64,
    round_time: u64,
    input: RoundInput<T>,
) -> (outcome: RoundOutcome)
    requires
        old(writer).wf(),
        round_num > old(writer).round_num,
    ensures
        *final(writer) == old(writer).step(old(owcc)@, round_num, round_time, input).writer,
        final(owcc)@ == old(writer).step(old(owcc)@, round_num, round_time, input).slots,
        outcome == old(writer).step(old(owcc)@, round_num, round_time, input).outcome,
        final(writer).wf(),
{
    match writer.state {
        MonsterState::Try => match input {
            RoundInput::Polled(QueuePoll::Request(req)) => {
                writer.announce_request(owcc, round_num, req);
                RoundOutcome::Continue
            },
            RoundInput::Polled(QueuePoll::Empty) => {
                writer.enter_round(round_num);
                writer.stats.empty_requests += 1;
                RoundOutcome::Continue
            },
            RoundInput::Polled(QueuePoll::Disconnected) => {
                writer.enter_round(round_num);
                RoundOutcome::Stop(StopReason::QueueDisconnected)
            },
            _ => RoundOutcome::Stop(StopReason::UnexpectedInput),
        },
        MonsterState::Retry => match (writer.pending_req, input) {
            (None, _) => {
                writer.enter_round(round_num);
                RoundOutcome::Stop(StopReason::NoPendingRequest)
            },
            (Some(req), RoundInput::Nothing) => {
                writer.announce_request(owcc, round_num, req);
                RoundOutcome::Continue
            },
            _ => RoundOutcome::Stop(StopReason::UnexpectedInput),
        },
        MonsterState::Check => match input {
            RoundInput::Elapsed(elapsed) => {
                writer.enter_round(round_num);
                if owcc.is_last(
                    writer.oid,
                    round_num,
                    writer.wid.round_num,
                    writer.wid.process_id,
                ) {
                    if elapsed < round_time {
                        writer.state = MonsterState::Replicate;
                    } else {
                        writer.state = MonsterState::Check;
                    }
                } else {
                    writer.state = MonsterState::Wait;
                }
                RoundOutcome::Continue
            },
            _ => RoundOutcome::Stop(StopReason::UnexpectedInput),
        },
        MonsterState::Replicate => match (writer.pending_req, input) {
            (None, _) => {
                writer.enter_round(round_num);
                RoundOutcome::Stop(StopReason::NoPendingRequest)
            },
            (Some(_), RoundInput::Written(Ok(_))) => {
                writer.enter_round(round_num);
                writer.pending_req = None;
                writer.state = MonsterState::Try;
                RoundOutcome::Ack(true)
            },
            (Some(_), RoundInput::Written(Err(e))) => {
                writer.enter_round(round_num);
                RoundOutcome::Stop(StopReason::MemoryFailure(e.0))
            },
            _ => RoundOutcome::Stop(StopReason::UnexpectedInput),
        },
        MonsterState::Wait => match input {
            RoundInput::Nothing => {
                writer.enter_round(round_num);
                writer.state = MonsterState::PostConflictCheck;
                writer.stats.conflicts += 1;
                RoundOutcome::Continue
            },
            _ => RoundOutcome::Stop(StopReason::UnexpectedInput),
        },
        MonsterState::PostConflictCheck => match (writer.pending_req, input) {
            (None, _) => {
                writer.enter_round(round_num);
                RoundOutcome::Stop(StopReason::NoPendingRequest)
            },
            (Some(_), RoundInput::ReadBack(Ok(entries))) => {
                writer.enter_round(round_num);
                if has_below(&entries, &writer.wid) {
                    writer.state = MonsterState::Retry;
                    RoundOutcome::Continue
                } else {
                    writer.pending_req = None;
                    writer.state = MonsterState::Try;
                    RoundOutcome::Ack(true)
                }
            },
            (Some(_), RoundInput::ReadBack(Err(e))) => {
                writer.enter_round(round_num);
                RoundOutcome::Stop(StopReason::MemoryFailure(e.0))
            },
            _ => RoundOutcome::Stop(StopReason::UnexpectedInput),
        },
    }
}

/// All entries carry the same Wid.
pub open spec fn consistent<T: Copy>(entries: Seq<ObjectMemoryEntry<T>>) -> bool {
    forall|i: int| 0 <= i < entries.len() ==> (#[trigger] entries[i]).wid == entries[0].wid
}

/// Entry `k` is the latest: no entry carries a greater Wid, and every entry
/// before it carries a smaller one.
pub open spec fn is_latest<T: Copy>(entries: Seq<ObjectMemoryEntry<T>>, k: int) -> bool {
    &&& 0 <= k < entries.len()
    &&& forall|i: int|
        0 <= i < entries.len() ==> !(#[trigger] entries[i]).wid.above(entries[k].wid)
    &&& forall|i: int| 0 <= i < k ==> (#[trigger] entries[i]).wid.below(entries[k].wid)
}

/// What a read returns that found `entries`, of which entry `k` is the
/// latest.
pub open spec fn read_of<T: Copy>(entries: Seq<ObjectMemoryEntry<T>>, k: int) -> ReadReturn<T> {
    if consistent(entries) {
        ReadReturn::ReadSafe(entries[k].value)
    } else {
        ReadReturn::ReadDirty(entries[k].value)
    }
}

/// Classifies what a read found on the memory nodes: the value of the
/// latest entry, safe if all entries carry the same Wid and dirty otherwise.
pub fn classify_read<T: Copy>(entries: &Vec<ObjectMemoryEntry<T>>) -> (r: ReadReturn<T>)
    requires
        entries.len() > 0,
    ensures
        exists|k: int| #[trigger] is_latest(entries@, k) && r == read_of(entries@, k),
{
    let mut same: bool = true;
    let mut best: usize = 0;
    let mut i: usize = 1;
    while i < entries.len()
        invariant
            1 <= i <= entries.len(),
            best < i,
            same <==> forall|j: int| 0 <= j < i ==> (#[trigger] entries[j]).wid == entries[0].wid,
            forall|j: int| 0 <= j < i ==> !(#[trigger] entries[j]).wid.above(entries[best as int].wid),
            forall|j: int|
                0 <= j < best ==> (#[trigger] entries[j]).wid.below(entries[best as int].wid),
        decreases entries.len() - i,
    {
        if !entries[i].wid.same(&entries[0].wid) {
            same = false;
        }
        if entries[i].wid.is_above(&entries[best].wid) {
            best = i;
        }
        i += 1;
    }
    assert(is_latest(entries@, best as int));
    if same {
        ReadReturn::ReadSafe(entries[best].value)
    } else {
        ReadReturn::ReadDirty(entries[best].value)
    }
}

/// Serves one read request: reads the object's entry on every memory node
/// and classifies what came back.
///
/// `read_one` performs the read on one node. A failure on any node fails the
/// request; the error names the first node that failed.
pub fn monster_read<T: Copy, F>(req: &ReadRequest, nodes: &Vec<MemoryNode>, read_one: F) -> (r:
    Result<ReadReturn<T>, MemoryError>) where
    F: Fn(&MemoryNode, usize) -> Result<ObjectMemoryEntry<T>, &'static str>,

    requires
        nodes.len() > 0,
        forall|i: int|
            0 <= i < nodes.len() ==> call_requires(
                read_one,
                (&#[trigger] nodes[i], req.obj_info.offset),
            ),
    ensures
        match r {
            Ok(found) => exists|entries: Seq<ObjectMemoryEntry<T>>, k: int|
                {
                    &&& entries.len() == nodes.len()
                    &&& read_first(read_one, nodes@, req.obj_info.offset, entries)
                    &&& #[trigger] is_latest(entries, k)
                    &&& found == read_of(entries, k)
                },
            Err(e) => exists|i: int| #[trigger]
                read_failed_at(read_one, nodes@, req.obj_info.offset, i) && e.0 == nodes[i].id,
        },
{
    match mem_readall(req.obj_info.offset, nodes, read_one) {
        Ok(entries) => Ok(classify_read(&entries)),
        Err(e) => Err(e),
    }
}

/// What a read tells about the memory nodes. `ReadSafe` is returned only
/// where all nodes carried the same Wid. Whatever is returned, safe or dirty,
/// carries the value of an entry whose Wid no other entry exceeds.
pub proof fn lemma_read_classification<T: Copy>(entries: Seq<ObjectMemoryEntry<T>>, k: int)
    requires
        is_latest(entries, k),
    ensures
        read_of(entries, k) is ReadSafe <==> forall|i: int, j: int|
            0 <= i < entries.len() && 0 <= j < entries.len() ==> (#[trigger] entries[i]).wid == (
            #[trigger] entries[j]).wid,
        read_of(entries, k) is ReadSafe ==> read_of(entries, k)->ReadSafe_0 == entries[k].value,
        read_of(entries, k) is ReadDirty ==> read_of(entries, k)->ReadDirty_0 == entries[k].value,
        forall|i: int| 0 <= i < entries.len() ==> !(#[trigger] entries[i]).wid.above(entries[k].wid),
{
    if consistent(entries) {
        assert forall|i: int, j: int|
            0 <= i < entries.len() && 0 <= j < entries.len() implies (#[trigger] entries[i]).wid
            == (#[trigger] entries[j]).wid by {
            assert(entries[i].wid == entries[0].wid);
            assert(entries[j].wid == entries[0].wid);
        }
    } else {
        let i = choose|i: int| 0 <= i < entries.len() && (#[trigger] entries[i]).wid
            != entries[0].wid;
        assert(entries[i].wid != entries[0].wid);
    }
}

/// Reading after a write gives back what was written. Where `written` is
/// the latest write of an object and reached at least one node, while every
/// other node still holds an entry with a smaller Wid, a read returns the
/// written value: as safe if the write reached every node, as dirty
/// otherwise.
pub proof fn lemma_read_after_write<T: Copy>(
    entries: Seq<ObjectMemoryEntry<T>>,
    written: ObjectMemoryEntry<T>,
    k: int,
)
    requires
        is_latest(entries, k),
        exists|i: int| 0 <= i < entries.len() && #[trigger] entries[i] == written,
        forall|i: int|
            0 <= i < entries.len() ==> #[trigger] entries[i] == written || entries[i].wid.below(
                written.wid,
            ),
    ensures
        (forall|i: int| 0 <= i < entries.len() ==> #[trigger] entries[i] == written) ==> read_of(
            entries,
            k,
        ) == ReadReturn::ReadSafe(written.value),
        (exists|i: int| 0 <= i < entries.len() && #[trigger] entries[i] != written) ==> read_of(
            entries,
            k,
        ) == ReadReturn::ReadDirty(written.value),
{
    let w = choose|i: int| 0 <= i < entries.len() && #[trigger] entries[i] == written;
    assert(!entries[w].wid.above(entries[k].wid));
    assert(entries[k] == written || entries[k].wid.below(written.wid));
    assert(entries[k] == written);
    if exists|i: int| 0 <= i < entries.len() && #[trigger] entries[i] != written {
        let d = choose|i: int| 0 <= i < entries.len() && #[trigger] entries[i] != written;
        assert(entries[d].wid.below(written.wid));
        assert(entries[d].wid != entries[w].wid);
        if consistent(entries) {
            assert(entries[d].wid == entries[0].wid);
            assert(entries[w].wid == entries[0].wid);
        }
    } else {
        assert forall|i: int| 0 <= i < entries.len() implies (#[trigger] entries[i]).wid
            == entries[0].wid by {
            assert(entries[i] == written);
            assert(entries[0] == written);
        }
    }
}

/// A step keeps the writer's invariant, and a writer that keeps it never
/// stops for want of a pending request.
pub proof fn lemma_step_keeps_invariant<T: Copy>(
    writer: MonsterWriter<T>,
    slots: Seq<ObjectWCCEntry>,
    round_num: u64,
    round_time: u64,
    input: RoundInput<T>,
)
    requires
        writer.inv(),
        round_num > writer.round_num,
    ensures
        writer.step(slots, round_num, round_time, input).writer.inv(),
        writer.step(slots, round_num, round_time, input).outcome != RoundOutcome::Stop(
            StopReason::NoPendingRequest,
        ),
{
}

/// A writer never drops a request between announcing it and acting on it:
/// the step after Check leads to Replicate, to Wait or to Check again, and
/// answers no client.
pub proof fn lemma_check_leads_on<T: Copy>(
    writer: MonsterWriter<T>,
    slots: Seq<ObjectWCCEntry>,
    round_num: u64,
    round_time: u64,
    input: RoundInput<T>,
)
    requires
        writer.state == MonsterState::Check,
    ensures
        ({
            let after = writer.step(slots, round_num, round_time, input);
            &&& after.writer.state == MonsterState::Replicate || after.writer.state
                == MonsterState::Wait || after.writer.state == MonsterState::Check
            &&& after.writer.pending_req == writer.pending_req
            &&& !(after.outcome is Ack)
            &&& after.slots == slots
        }),
{
}

/// A writer is idle after a step only if it was idle before, or had just
/// written its request to every node, or had just read the object back
/// after a conflict: Try is entered from Try, Replicate and
/// PostConflictCheck, and from no other state.
pub proof fn lemma_try_is_entered_from<T: Copy>(
    writer: MonsterWriter<T>,
    slots: Seq<ObjectWCCEntry>,
    round_num: u64,
    round_time: u64,
    input: RoundInput<T>,
)
    requires
        writer.step(slots, round_num, round_time, input).writer.state == MonsterState::Try,
    ensures
        writer.state == MonsterState::Try || writer.state == MonsterState::Replicate || writer.state
            == MonsterState::PostConflictCheck,
{
}

/// In one round and for one object, at most one writer goes on to
/// Replicate. Of two writers of different processes that stand in Check for
/// the same object, whose announcements both stand in the table that they
/// read and were made before this round, one at most leaves Check for
/// Replicate.
pub proof fn lemma_at_most_one_replicates<T: Copy>(
    first: MonsterWriter<T>,
    second: MonsterWriter<T>,
    slots: Seq<ObjectWCCEntry>,
    round_num: u64,
    round_time: u64,
    first_elapsed: u64,
    second_elapsed: u64,
)
    requires
        slots.len() == MAX_PROCESSES,
        first.state == MonsterState::Check,
        second.state == MonsterState::Check,
        first.oid == second.oid,
        first.wid.process_id != second.wid.process_id,
        first.wid.process_id < MAX_PROCESSES,
        second.wid.process_id < MAX_PROCESSES,
        slots[first.wid.process_id as int] == (ObjectWCCEntry {
            oid: first.oid,
            round: first.wid.round_num,
        }),
        slots[second.wid.process_id as int] == (ObjectWCCEntry {
            oid: second.oid,
            round: second.wid.round_num,
        }),
        first.wid.round_num < round_num,
        second.wid.round_num < round_num,
    ensures
        !(first.step(slots, round_num, round_time, RoundInput::Elapsed(first_elapsed)).writer.state
            == MonsterState::Replicate && second.step(
            slots,
            round_num,
            round_time,
            RoundInput::Elapsed(second_elapsed),
        ).writer.state == MonsterState::Replicate),
{
    crate::shmem::wcc::lemma_at_most_one_last_writer(
        slots,
        first.oid,
        round_num,
        first.wid.process_id,
        first.wid.round_num,
        second.wid.process_id,
        second.wid.round_num,
    );
}

/// A write that meets no other writer is replicated in three rounds. An idle
/// writer that finds the request `req`, is alone in naming the request's
/// object in the table, finishes its check within the round and then
/// succeeds in writing to every node, passes through Check and Replicate,
/// asks once for the request's data to be written, at the request's offset
/// and under the Wid of the first of the three rounds, answers the client
/// with success, once, and is idle again. Rounds are numbered from one.
pub proof fn lemma_uncontended_write<T: Copy>(
    writer: MonsterWriter<T>,
    slots: Seq<ObjectWCCEntry>,
    req: WriteRequest<T>,
    round_time: u64,
    try_round: u64,
    check_round: u64,
    replicate_round: u64,
    elapsed: u64,
)
    requires
        writer.state == MonsterState::Try,
        writer.self_id < MAX_PROCESSES,
        slots.len() == MAX_PROCESSES,
        writer.round_num < try_round,
        elapsed < round_time,
        forall|i: int|
            0 <= i < slots.len() && i != writer.self_id ==> (#[trigger] slots[i]).oid
                != req.obj_info.id,
    ensures
        try_round >= 1,
        ({
            let tried = writer.step(
                slots,
                try_round,
                round_time,
                RoundInput::Polled(QueuePoll::Request(req)),
            );
            let checked = tried.writer.step(
                tried.slots,
                check_round,
                round_time,
                RoundInput::Elapsed(elapsed),
            );
            let replicated = checked.writer.step(
                checked.slots,
                replicate_round,
                round_time,
                RoundInput::Written(Ok(())),
            );
            &&& tried.writer.state == MonsterState::Check
            &&& tried.outcome == RoundOutcome::Continue
            &&& tried.slots == announced(slots, req.obj_info.id, try_round, writer.self_id)
            &&& checked.writer.state == MonsterState::Replicate
            &&& checked.outcome == RoundOutcome::Continue
            &&& checked.slots == tried.slots
            &&& checked.writer.needs() == (RoundWork::WriteAll {
                offset: req.obj_info.offset,
                entry: ObjectMemoryEntry {
                    wid: Wid { round_num: try_round, process_id: writer.self_id },
                    value: req.data,
                },
            })
            &&& replicated.outcome == RoundOutcome::Ack(true)
            &&& replicated.slots == tried.slots
            &&& replicated.writer.state == MonsterState::Try
            &&& replicated.writer.pending_req is None
            &&& replicated.writer.needs() == RoundWork::<T>::Poll
        }),
{
    let tried = writer.step(
        slots,
        try_round,
        round_time,
        RoundInput::Polled(QueuePoll::Request(req)),
    );
    crate::shmem::wcc::lemma_sole_writer_is_last(
        tried.slots,
        req.obj_info.id,
        check_round,
        try_round,
        writer.self_id,
    );
}

/// What the read after a conflict decides. Of every entry read, the Wid is
/// below the writer's own, equal to it, or above it, and only one of the
/// three. The writer goes to Retry exactly if some entry lies below its own
/// Wid, and keeps its request then. Otherwise it answers the client with
/// success, drops the request and is idle: it next looks at its queue. The
/// table is not touched either way.
pub proof fn lemma_post_conflict_check<T: Copy>(
    writer: MonsterWriter<T>,
    slots: Seq<ObjectWCCEntry>,
    entries: Vec<ObjectMemoryEntry<T>>,
    round_num: u64,
    round_time: u64,
)
    requires
        writer.state == MonsterState::PostConflictCheck,
        writer.pending_req is Some,
    ensures
        forall|i: int|
            0 <= i < entries@.len() ==> {
                let wid = (#[trigger] entries@[i]).wid;
                &&& wid.below(writer.wid) || wid == writer.wid || wid.above(writer.wid)
                &&& !(wid.below(writer.wid) && wid == writer.wid)
                &&& !(wid.below(writer.wid) && wid.above(writer.wid))
                &&& !(wid == writer.wid && wid.above(writer.wid))
            },
        ({
            let read = writer.step(slots, round_num, round_time, RoundInput::ReadBack(Ok(entries)));
            &&& read.slots == slots
            &&& read.writer.state == MonsterState::Retry <==> any_below(entries@, writer.wid)
            &&& any_below(entries@, writer.wid) ==> {
                &&& read.outcome == RoundOutcome::Continue
                &&& read.writer.pending_req == writer.pending_req
                &&& read.writer.wid == writer.wid
            }
            &&& !any_below(entries@, writer.wid) ==> {
                &&& read.outcome == RoundOutcome::Ack(true)
                &&& read.writer.state == MonsterState::Try
                &&& read.writer.pending_req is None
                &&& read.writer.needs() == RoundWork::<T>::Poll
            }
        }),
{
}

/// A writer that lost a conflict does not lose its write. If the read after
/// the conflict finds a node that still holds a Wid below its own, the
/// writer goes to Retry and, in the round after, announces the same request
/// again, under the Wid of that round, which is above its old one.
pub proof fn lemma_conflict_is_resolved<T: Copy>(
    writer: MonsterWriter<T>,
    slots: Seq<ObjectWCCEntry>,
    entries: Vec<ObjectMemoryEntry<T>>,
    round_time: u64,
    check_round: u64,
    retry_round: u64,
)
    requires
        writer.state == MonsterState::PostConflictCheck,
        writer.pending_req is Some,
        writer.wid.round_num < retry_round,
        any_below(entries@, writer.wid),
    ensures
        ({
            let checked = writer.step(
                slots,
                check_round,
                round_time,
                RoundInput::ReadBack(Ok(entries)),
            );
            let retried = checked.writer.step(
                checked.slots,
                retry_round,
                round_time,
                RoundInput::Nothing,
            );
            &&& checked.writer.state == MonsterState::Retry
            &&& checked.outcome == RoundOutcome::Continue
            &&& checked.writer.needs() == RoundWork::<T>::Nothing
            &&& retried.outcome == RoundOutcome::Continue
            &&& retried.writer.state == MonsterState::Check
            &&& retried.writer.pending_req == writer.pending_req
            &&& retried.writer.wid == (Wid { round_num: retry_round, process_id: writer.self_id })
            &&& retried.writer.wid.above(writer.wid)
            &&& retried.slots == announced(
                slots,
                writer.pending_req->0.obj_info.id,
                retry_round,
                writer.self_id,
            )
        }),
{
}

/// The table after every process with a request in `arrivals` has announced
/// it in round `round`. The processes write different slots, so the order in
/// which they do so within the round does not count.
pub open spec fn announced_all<T: Copy>(
    slots: Seq<ObjectWCCEntry>,
    arrivals: Seq<Option<WriteRequest<T>>>,
    round: u64,
) -> Seq<ObjectWCCEntry> {
    Seq::new(
        slots.len(),
        |i: int|
            if i < arrivals.len() && arrivals[i] is Some {
                ObjectWCCEntry { oid: arrivals[i]->0.obj_info.id, round }
            } else {
                slots[i]
            },
    )
}

/// Process `winner` has a request in `arrivals`, and no process with a
/// smaller id has one.
pub open spec fn first_arrival<T: Copy>(arrivals: Seq<Option<WriteRequest<T>>>, winner: int) -> bool {
    &&& 0 <= winner < arrivals.len()
    &&& arrivals[winner] is Some
    &&& forall|k: int| 0 <= k < winner ==> arrivals[k] is None
}

/// Concurrent writes to one object settle in four rounds.
///
/// Any number of processes find a request for the same object in the same
/// round, `arrivals[i]` for process `i`, while no announcement of that round
/// or after stands in the table. Then the process with the smallest id among
/// them replicates its write on every node, two rounds later. Every other
/// one waits, reads the object back from every node in the round after
/// that, finds the winner's write there, and gives way. In the end the
/// client of each of them is answered with success, each writer is idle
/// again, and the nodes hold the winner's write. `writer` is the writer of
/// process `me`, one of those with a request; `found` is what it reads
/// back, if it is not the winner.
pub proof fn lemma_concurrent_writes_settle<T: Copy>(
    writer: MonsterWriter<T>,
    me: int,
    winner: int,
    arrivals: Seq<Option<WriteRequest<T>>>,
    slots: Seq<ObjectWCCEntry>,
    found: Vec<ObjectMemoryEntry<T>>,
    round_time: u64,
    try_round: u64,
    check_round: u64,
    replicate_round: u64,
    read_round: u64,
    elapsed: u64,
)
    requires
        slots.len() == MAX_PROCESSES,
        arrivals.len() == MAX_PROCESSES,
        first_arrival(arrivals, winner),
        0 <= me < MAX_PROCESSES,
        arrivals[me] is Some,
        writer.self_id == me,
        writer.state == MonsterState::Try,
        elapsed < round_time,
        forall|k: int|
            0 <= k < arrivals.len() && arrivals[k] is Some ==> (#[trigger] arrivals[k])->0.obj_info.id
                == arrivals[winner]->0.obj_info.id,
        forall|k: int|
            0 <= k < slots.len() && arrivals[k] is None && (#[trigger] slots[k]).oid
                == arrivals[winner]->0.obj_info.id ==> slots[k].round < try_round,
        forall|k: int|
            0 <= k < found@.len() ==> #[trigger] found@[k] == (ObjectMemoryEntry {
                wid: Wid { round_num: try_round, process_id: winner as usize },
                value: arrivals[winner]->0.data,
            }),
    ensures
        ({
            let table = announced_all(slots, arrivals, try_round);
            let tried = writer.step(
                slots,
                try_round,
                round_time,
                RoundInput::Polled(QueuePoll::Request(arrivals[me]->0)),
            );
            let checked = tried.writer.step(
                table,
                check_round,
                round_time,
                RoundInput::Elapsed(elapsed),
            );
            let written = checked.writer.step(
                table,
                replicate_round,
                round_time,
                RoundInput::Written(Ok(())),
            );
            let waited = checked.writer.step(
                table,
                replicate_round,
                round_time,
                RoundInput::Nothing,
            );
            let read = waited.writer.step(
                table,
                read_round,
                round_time,
                RoundInput::ReadBack(Ok(found)),
            );
            &&& tried.writer.state == MonsterState::Check
            &&& table[me] == tried.slots[me]
            &&& me == winner ==> {
                &&& checked.writer.state == MonsterState::Replicate
                &&& checked.writer.needs() == (RoundWork::WriteAll {
                    offset: arrivals[winner]->0.obj_info.offset,
                    entry: ObjectMemoryEntry {
                        wid: Wid { round_num: try_round, process_id: winner as usize },
                        value: arrivals[winner]->0.data,
                    },
                })
                &&& written.outcome == RoundOutcome::Ack(true)
                &&& written.writer.state == MonsterState::Try
                &&& written.writer.pending_req is None
            }
            &&& me != winner ==> {
                &&& checked.writer.state == MonsterState::Wait
                &&& checked.writer.needs() == RoundWork::<T>::Nothing
                &&& waited.writer.state == MonsterState::PostConflictCheck
                &&& waited.writer.needs() == (RoundWork::<T>::ReadAll {
                    offset: arrivals[me]->0.obj_info.offset,
                })
                &&& read.outcome == RoundOutcome::Ack(true)
                &&& read.slots == table
                &&& read.writer.state == MonsterState::Try
                &&& read.writer.pending_req is None
                &&& read.writer.needs() == RoundWork::<T>::Poll
            }
        }),
{
    let oid = arrivals[winner]->0.obj_info.id;
    let table = announced_all(slots, arrivals, try_round);
    assert(arrivals[me]->0.obj_info.id == oid);
    if me == winner {
        assert forall|i: int| 0 <= i < table.len() implies !#[trigger] overrules(
            table,
            i,
            oid,
            check_round,
            try_round,
            winner as usize,
        ) by {
            if arrivals[i] is None {
                assert(table[i] == slots[i]);
            }
        }
    } else {
        assert(winner < me);
        assert(table[winner] == (ObjectWCCEntry { oid, round: try_round }));
        assert(overrules(table, winner, oid, check_round, try_round, me as usize));
        let mine = Wid { round_num: try_round, process_id: me as usize };
        if any_below(found@, mine) {
            let i = choose|i: int| 0 <= i < found@.len() && (#[trigger] found@[i]).wid.below(mine);
            assert(found@[i].wid.process_id == winner as usize);
        }
    }
}

/// A write that lost a conflict and then finds a node that the winner did
/// not reach is written again. The writer retries: it announces the request
/// again in its current round and takes the Wid of that round. Where no
/// other announcement for the object stands in the table from that round or
/// after, it passes its check, asks for its data to be written under the
/// new Wid, and answers its client.
pub proof fn lemma_lost_write_is_rewritten<T: Copy>(
    writer: MonsterWriter<T>,
    slots: Seq<ObjectWCCEntry>,
    found: Vec<ObjectMemoryEntry<T>>,
    round_time: u64,
    read_round: u64,
    retry_round: u64,
    check_round: u64,
    replicate_round: u64,
    elapsed: u64,
)
    requires
        writer.state == MonsterState::PostConflictCheck,
        writer.pending_req is Some,
        writer.self_id < MAX_PROCESSES,
        slots.len() == MAX_PROCESSES,
        elapsed < round_time,
        any_below(found@, writer.wid),
        forall|i: int|
            0 <= i < slots.len() && i != writer.self_id && (#[trigger] slots[i]).oid
                == writer.pending_req->0.obj_info.id ==> slots[i].round < retry_round,
    ensures
        ({
            let read = writer.step(slots, read_round, round_time, RoundInput::ReadBack(Ok(found)));
            let retried = read.writer.step(read.slots, retry_round, round_time, RoundInput::Nothing);
            let checked = retried.writer.step(
                retried.slots,
                check_round,
                round_time,
                RoundInput::Elapsed(elapsed),
            );
            let replicated = checked.writer.step(
                checked.slots,
                replicate_round,
                round_time,
                RoundInput::Written(Ok(())),
            );
            &&& read.writer.state == MonsterState::Retry
            &&& retried.writer.state == MonsterState::Check
            &&& retried.writer.wid == (Wid { round_num: retry_round, process_id: writer.self_id })
            &&& retried.slots == announced(
                slots,
                writer.pending_req->0.obj_info.id,
                retry_round,
                writer.self_id,
            )
            &&& checked.writer.state == MonsterState::Replicate
            &&& checked.writer.needs() == (RoundWork::WriteAll {
                offset: writer.pending_req->0.obj_info.offset,
                entry: ObjectMemoryEntry {
                    wid: Wid { round_num: retry_round, process_id: writer.self_id },
                    value: writer.pending_req->0.data,
                },
            })
            &&& replicated.outcome == RoundOutcome::Ack(true)
            &&& replicated.writer.state == MonsterState::Try
            &&& replicated.writer.pending_req is None
        }),
{
    let oid = writer.pending_req->0.obj_info.id;
    let after = announced(slots, oid, retry_round, writer.self_id);
    assert forall|i: int| 0 <= i < after.len() implies !#[trigger] overrules(
        after,
        i,
        oid,
        check_round,
        retry_round,
        writer.self_id,
    ) by {
        if i != writer.self_id {
            assert(after[i] == slots[i]);
        }
    }
}

/// An answer to a client is earned, and it is never a failure. A writer
/// answers only at the end of a round in which it wrote the request to every
/// node, or in which it read the object back from every node and found no
/// Wid below its own: then every node holds the write or one that came
/// after it.
pub proof fn lemma_ack_is_earned<T: Copy>(
    writer: MonsterWriter<T>,
    slots: Seq<ObjectWCCEntry>,
    round_num: u64,
    round_time: u64,
    input: RoundInput<T>,
)
    requires
        writer.step(slots, round_num, round_time, input).outcome is Ack,
    ensures
        writer.step(slots, round_num, round_time, input).outcome == RoundOutcome::Ack(true),
        writer.pending_req is Some,
        writer.step(slots, round_num, round_time, input).writer.pending_req is None,
        writer.step(slots, round_num, round_time, input).writer.state == MonsterState::Try,
        (writer.state == MonsterState::Replicate && input matches RoundInput::Written(Ok(_))) || (
        writer.state == MonsterState::PostConflictCheck && (input matches RoundInput::ReadBack(
            Ok(entries),
        ) && !any_below(entries@, writer.wid))),
{
}

/// The Wids of a writer rise: whenever a step gives the writer a new Wid,
/// the new one is above the old one.
pub proof fn lemma_wids_rise<T: Copy>(
    writer: MonsterWriter<T>,
    slots: Seq<ObjectWCCEntry>,
    round_num: u64,
    round_time: u64,
    input: RoundInput<T>,
)
    requires
        writer.wid.round_num <= writer.round_num < round_num,
    ensures
        ({
            let after = writer.step(slots, round_num, round_time, input).writer;
            &&& after.wid == writer.wid || after.wid.above(writer.wid)
            &&& after.wid.round_num <= after.round_num
        }),
{
}

} // verus!
