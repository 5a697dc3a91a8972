//! A group of writers in lockstep: a model of the whole group under ideal
//! conditions, and what the protocol achieves there.
//!
//! In the model every process runs a writer, all processes share all memory
//! nodes, every writer takes its step in every round and in time, and no
//! access to a memory node fails. Within a round the steps of the processes
//! come in any order and may overlap: a writer that reads the shared table
//! or a memory node sees, slot by slot and node by node, what was there
//! before the round or what is there after it.
//!
//! Nothing here runs. The module states what holds of every run of the
//! model.

use crate::algorithms::monster::any_below;
use crate::algorithms::monster::MonsterState;
use crate::algorithms::monster::MonsterWriter;
use crate::algorithms::monster::QueuePoll;
use crate::algorithms::monster::RoundInput;
use crate::algorithms::monster::RoundOutcome;
use crate::algorithms::monster::RoundWork;
use crate::algorithms::monster::Stepped;
use crate::shmem::wcc::is_last_writer;
use crate::shmem::wcc::overrules;
use crate::shmem::wcc::ObjectWCCEntry;
use crate::wid::ObjectMemoryEntry;
use crate::wid::Wid;
use crate::WriteRequest;
use crate::MAX_PROCESSES;
use vstd::prelude::*;

verus! {

/// The group between two rounds.
pub struct Group<T: Copy> {
    /// The writer of every process, by process id.
    pub writers: Seq<MonsterWriter<T>>,
    /// The write-conflict checker of the master node.
    pub slots: Seq<ObjectWCCEntry>,
    /// What every memory node holds, by offset.
    pub nodes: Seq<spec_fn(usize) -> ObjectMemoryEntry<T>>,
}

/// What the processes meet in one round.
pub struct Round<T: Copy> {
    /// Number of the round.
    pub number: u64,
    /// Length of a round.
    pub round_time: u64,
    /// The request that each idle writer finds in its queue, if any.
    pub arrivals: Seq<Option<WriteRequest<T>>>,
    /// The table as each writer sees it.
    pub views: Seq<Seq<ObjectWCCEntry>>,
    /// The entries that each writer reads back from the nodes.
    pub founds: Seq<Vec<ObjectMemoryEntry<T>>>,
    /// The time that each writer's check takes.
    pub elapsed: Seq<u64>,
}

/// Two requests agree on where their objects lie: they name the same object
/// exactly if they name the same offset.
pub open spec fn same_layout<T: Copy>(a: WriteRequest<T>, b: WriteRequest<T>) -> bool {
    (a.obj_info.id == b.obj_info.id) == (a.obj_info.offset == b.obj_info.offset)
}

impl<T: Copy> Group<T> {
    /// What node `a` holds at `offset`.
    pub open spec fn held(self, a: int, offset: usize) -> ObjectMemoryEntry<T> {
        (self.nodes[a])(offset)
    }

    /// Some writer writes at `offset` in the round.
    pub open spec fn written_at(self, offset: usize) -> bool {
        exists|i: int, entry: ObjectMemoryEntry<T>| #[trigger] self.replicates(i, offset, entry)
    }

    /// The request that writer `i` works on in the round: the one that is
    /// pending, or the one that it finds in its queue.
    pub open spec fn request(self, round: Round<T>, i: int) -> Option<WriteRequest<T>> {
        match self.writers[i].pending_req {
            Some(req) => Some(req),
            None => if self.writers[i].state == MonsterState::Try {
                round.arrivals[i]
            } else {
                None
            },
        }
    }

    /// What writer `i` is handed in the round: what it asked for.
    pub open spec fn input(self, round: Round<T>, i: int) -> RoundInput<T> {
        match self.writers[i].needs() {
            RoundWork::Poll => RoundInput::Polled(
                match round.arrivals[i] {
                    Some(req) => QueuePoll::Request(req),
                    None => QueuePoll::Empty,
                },
            ),
            RoundWork::Nothing => RoundInput::Nothing,
            RoundWork::Clock => RoundInput::Elapsed(round.elapsed[i]),
            RoundWork::WriteAll { .. } => RoundInput::Written(Ok(())),
            RoundWork::ReadAll { .. } => RoundInput::ReadBack(Ok(round.founds[i])),
        }
    }

    /// The step of writer `i` in the round.
    pub open spec fn stepped(self, round: Round<T>, i: int) -> Stepped<T> {
        self.writers[i].step(
            round.views[i],
            round.number,
            round.round_time,
            self.input(round, i),
        )
    }

    /// The request that writer `i` announces in the round, if it announces
    /// one.
    pub open spec fn announces(self, round: Round<T>, i: int) -> Option<WriteRequest<T>> {
        match self.writers[i].state {
            MonsterState::Try => round.arrivals[i],
            MonsterState::Retry => self.writers[i].pending_req,
            _ => None,
        }
    }

    /// Writer `i` writes `entry` at `offset` of every node in the round.
    pub open spec fn replicates(self, i: int, offset: usize, entry: ObjectMemoryEntry<T>) -> bool {
        &&& 0 <= i < self.writers.len()
        &&& self.writers[i].needs() == (RoundWork::WriteAll { offset, entry })
    }

    /// The round is one that the model allows: every check is in time, every
    /// writer sees of each slot of the table what `self` or `after` holds,
    /// and reads of each node what `self` or `after` holds.
    pub open spec fn allows(self, round: Round<T>, after: Group<T>) -> bool {
        &&& round.arrivals.len() == MAX_PROCESSES
        &&& round.views.len() == MAX_PROCESSES
        &&& round.founds.len() == MAX_PROCESSES
        &&& round.elapsed.len() == MAX_PROCESSES
        &&& forall|i: int| 0 <= i < MAX_PROCESSES ==> #[trigger] round.elapsed[i] < round.round_time
        &&& forall|i: int|
            0 <= i < MAX_PROCESSES ==> (#[trigger] round.views[i]).len() == MAX_PROCESSES
        &&& forall|i: int, k: int|
            0 <= i < MAX_PROCESSES && 0 <= k < MAX_PROCESSES ==> #[trigger] round.views[i][k]
                == self.slots[k] || round.views[i][k] == after.slots[k]
        &&& forall|i: int|
            0 <= i < MAX_PROCESSES ==> (#[trigger] round.founds[i])@.len() == self.nodes.len()
        &&& forall|i: int, a: int|
            0 <= i < MAX_PROCESSES && 0 <= a < self.nodes.len()
                && self.writers[i].pending_req is Some ==> {
                let offset = self.writers[i].pending_req->0.obj_info.offset;
                #[trigger] round.founds[i]@[a] == self.held(a, offset) || round.founds[i]@[a]
                    == after.held(a, offset)
            }
        &&& forall|i: int, j: int|
            0 <= i < MAX_PROCESSES && 0 <= j < MAX_PROCESSES && self.request(round, i) is Some
                && self.request(round, j) is Some ==> same_layout(
                (#[trigger] self.request(round, i))->0,
                (#[trigger] self.request(round, j))->0,
            )
    }

    /// `after` is the group after the round: every writer has taken its
    /// step, the table holds what was announced, and every node holds at
    /// each offset what was written there in the round, or what it held
    /// before if nothing was.
    pub open spec fn leads_to(self, round: Round<T>, after: Group<T>) -> bool {
        &&& after.writers.len() == MAX_PROCESSES
        &&& after.slots.len() == MAX_PROCESSES
        &&& after.nodes.len() == self.nodes.len()
        &&& forall|i: int|
            0 <= i < MAX_PROCESSES ==> #[trigger] after.writers[i] == self.stepped(round, i).writer
        &&& forall|k: int|
            0 <= k < MAX_PROCESSES ==> #[trigger] after.slots[k] == match self.announces(round, k) {
                Some(req) => ObjectWCCEntry { oid: req.obj_info.id, round: round.number },
                None => self.slots[k],
            }
        &&& forall|a: int, offset: usize|
            0 <= a < self.nodes.len() ==> if self.written_at(offset) {
                exists|i: int| #[trigger] self.replicates(i, offset, after.held(a, offset))
            } else {
                #[trigger] after.held(a, offset) == self.held(a, offset)
            }
    }

    /// What holds of writer `i` before round `t`.
    ///
    /// A writer is idle, or it works on a request that it announced at most
    /// three rounds ago: one round ago if it is about to check, two rounds
    /// ago if it is about to replicate or to wait, three rounds ago if it is
    /// about to read the object back. The writer that is about to replicate
    /// has the smallest id of all that announced the object in that round;
    /// one that is about to wait has not. And one that is about to read the
    /// object back will find a Wid above its own on every node.
    pub open spec fn writer_ok(self, t: u64, i: int) -> bool {
        let w = self.writers[i];
        &&& w.self_id == i
        &&& w.round_num < t
        &&& w.wf()
        &&& w.state != MonsterState::Retry
        &&& w.state == MonsterState::Try <==> w.pending_req is None
        &&& w.pending_req is Some ==> {
            &&& w.oid == w.pending_req->0.obj_info.id
            &&& w.wid.process_id == i
            &&& w.wid.round_num >= 1
        }
        &&& w.state == MonsterState::Check ==> {
            &&& w.wid.round_num + 1 == t
            &&& self.slots[i] == (ObjectWCCEntry { oid: w.oid, round: w.wid.round_num })
        }
        &&& w.state == MonsterState::Replicate ==> {
            &&& w.wid.round_num + 2 == t
            &&& self.slots[i] == (ObjectWCCEntry { oid: w.oid, round: w.wid.round_num })
            &&& forall|j: int| 0 <= j < i ==> #[trigger] self.slots[j] != self.slots[i]
        }
        &&& w.state == MonsterState::Wait ==> {
            &&& w.wid.round_num + 2 == t
            &&& self.slots[i] == (ObjectWCCEntry { oid: w.oid, round: w.wid.round_num })
            &&& exists|j: int| 0 <= j < i && #[trigger] self.slots[j] == self.slots[i]
        }
        &&& w.state == MonsterState::PostConflictCheck ==> {
            &&& w.wid.round_num + 3 == t
            &&& forall|a: int|
                0 <= a < self.nodes.len() ==> (#[trigger] self.held(
                    a,
                    w.pending_req->0.obj_info.offset,
                )).wid.above(w.wid)
        }
    }

    /// What holds of slot `k` of the table before round `t`: it holds no
    /// round to come, and an announcement of the last two rounds is that of
    /// a writer that still works on it.
    pub open spec fn slot_ok(self, t: u64, k: int) -> bool {
        let s = self.slots[k];
        let w = self.writers[k];
        &&& s.round < t
        &&& s.round >= 1 && s.round + 1 == t ==> w.state == MonsterState::Check && w.oid == s.oid
            && w.wid.round_num == s.round
        &&& s.round >= 1 && s.round + 2 == t ==> (w.state == MonsterState::Replicate || w.state
            == MonsterState::Wait) && w.oid == s.oid && w.wid.round_num == s.round
    }

    /// What holds of the group before round `t`, whatever happened in the
    /// rounds before.
    pub open spec fn ok(self, t: u64) -> bool {
        &&& t >= 1
        &&& self.writers.len() == MAX_PROCESSES
        &&& self.slots.len() == MAX_PROCESSES
        &&& forall|i: int| 0 <= i < MAX_PROCESSES ==> #[trigger] self.writer_ok(t, i)
        &&& forall|k: int| 0 <= k < MAX_PROCESSES ==> #[trigger] self.slot_ok(t, k)
        &&& forall|i: int, j: int|
            0 <= i < MAX_PROCESSES && 0 <= j < MAX_PROCESSES && self.writers[i].pending_req is Some
                && self.writers[j].pending_req is Some ==> same_layout(
                (#[trigger] self.writers[i].pending_req)->0,
                (#[trigger] self.writers[j].pending_req)->0,
            )
        &&& self.agrees()
    }

    /// All nodes hold the same entry at every offset.
    pub open spec fn agrees(self) -> bool {
        forall|a: int, b: int, offset: usize|
            0 <= a < self.nodes.len() && 0 <= b < self.nodes.len() ==> #[trigger] self.held(
                a,
                offset,
            ) == #[trigger] self.held(b, offset)
    }

    /// Every writer is idle.
    pub open spec fn idle(self) -> bool {
        forall|i: int|
            0 <= i < self.writers.len() ==> (#[trigger] self.writers[i]).state == MonsterState::Try
                && self.writers[i].pending_req is None
    }

    /// No writer finds a request in the round.
    pub open spec fn quiet(round: Round<T>) -> bool {
        forall|i: int| 0 <= i < round.arrivals.len() ==> #[trigger] round.arrivals[i] is None
    }

    /// How many rounds writer `i` needs at most until it is idle, if it
    /// finds no new request.
    pub open spec fn rounds_left(self, i: int) -> int {
        match self.writers[i].state {
            MonsterState::Try => 0,
            MonsterState::PostConflictCheck => 1,
            MonsterState::Replicate => 1,
            MonsterState::Wait => 2,
            MonsterState::Check => 3,
            MonsterState::Retry => 4,
        }
    }
}

/// The least index below `n` at which `slots` holds `entry`, or `n` if
/// there is none.
spec fn first_holder(slots: Seq<ObjectWCCEntry>, entry: ObjectWCCEntry, n: int) -> int
    decreases n,
{
    if n <= 0 {
        0
    } else {
        let before = first_holder(slots, entry, n - 1);
        if before < n - 1 {
            before
        } else if slots[n - 1] == entry {
            n - 1
        } else {
            n
        }
    }
}

proof fn lemma_first_holder(slots: Seq<ObjectWCCEntry>, entry: ObjectWCCEntry, n: int)
    requires
        0 <= n <= slots.len(),
    ensures
        0 <= first_holder(slots, entry, n) <= n,
        first_holder(slots, entry, n) < n ==> slots[first_holder(slots, entry, n)] == entry,
        forall|j: int| 0 <= j < first_holder(slots, entry, n) ==> #[trigger] slots[j] != entry,
    decreases n,
{
    if n > 0 {
        lemma_first_holder(slots, entry, n - 1);
    }
}

impl<T: Copy> Group<T> {
    /// A writer that checks is the last writer exactly if no process with a
    /// smaller id announced the same object in the same round, whatever
    /// mixture of the table before and after the round it sees.
    proof fn lemma_check_decision(self, round: Round<T>, after: Group<T>, i: int)
        requires
            self.ok(round.number),
            self.allows(round, after),
            self.leads_to(round, after),
            0 <= i < MAX_PROCESSES,
            self.writers[i].state == MonsterState::Check,
        ensures
            is_last_writer(
                round.views[i],
                self.writers[i].oid,
                round.number,
                self.writers[i].wid.round_num,
                self.writers[i].wid.process_id,
            ) <==> forall|j: int| 0 <= j < i ==> #[trigger] self.slots[j] != self.slots[i],
    {
        let t = round.number;
        let w = self.writers[i];
        let view = round.views[i];
        assert(self.writer_ok(t, i));
        if forall|j: int| 0 <= j < i ==> #[trigger] self.slots[j] != self.slots[i] {
            assert forall|k: int| 0 <= k < view.len() implies !#[trigger] overrules(
                view,
                k,
                w.oid,
                t,
                w.wid.round_num,
                w.wid.process_id,
            ) by {
                assert(round.views[i][k] == self.slots[k] || round.views[i][k] == after.slots[k]);
                assert(after.slots[k] == match self.announces(round, k) {
                    Some(req) => ObjectWCCEntry { oid: req.obj_info.id, round: t },
                    None => self.slots[k],
                });
                if k < i {
                    assert(self.slots[k] != self.slots[i]);
                }
            }
        } else {
            let j = choose|j: int| 0 <= j < i && #[trigger] self.slots[j] == self.slots[i];
            assert(self.slot_ok(t, j));
            assert(self.announces(round, j) is None);
            assert(after.slots[j] == match self.announces(round, j) {
                Some(req) => ObjectWCCEntry { oid: req.obj_info.id, round: t },
                None => self.slots[j],
            });
            assert(round.views[i][j] == self.slots[j] || round.views[i][j] == after.slots[j]);
            assert(overrules(view, j, w.oid, t, w.wid.round_num, w.wid.process_id));
        }
    }

    /// Where a writer waits, the writer with the smallest id among those
    /// that announced the same object in the same round replicates.
    proof fn lemma_winner_replicates(self, t: u64, i: int) -> (winner: int)
        requires
            self.ok(t),
            0 <= i < MAX_PROCESSES,
            self.writers[i].state == MonsterState::Wait,
        ensures
            0 <= winner < i,
            self.writers[winner].state == MonsterState::Replicate,
            self.writers[winner].pending_req is Some,
            self.writers[winner].oid == self.writers[i].oid,
            self.writers[winner].wid.round_num == self.writers[i].wid.round_num,
            self.writers[winner].pending_req->0.obj_info.offset
                == self.writers[i].pending_req->0.obj_info.offset,
    {
        assert(self.writer_ok(t, i));
        let entry = self.slots[i];
        let winner = first_holder(self.slots, entry, i);
        lemma_first_holder(self.slots, entry, i);
        let j = choose|j: int| 0 <= j < i && #[trigger] self.slots[j] == self.slots[i];
        if winner >= i {
            assert(self.slots[j] != entry);
        }
        assert(self.slot_ok(t, winner));
        assert(self.writer_ok(t, winner));
        if self.writers[winner].state == MonsterState::Wait {
            let k = choose|k: int| 0 <= k < winner && #[trigger] self.slots[k] == self.slots[winner];
            assert(self.slots[k] != entry);
        }
        assert(same_layout(self.writers[winner].pending_req->0, self.writers[i].pending_req->0));
        winner
    }

    /// In a round at most one writer writes at an offset, and so to an
    /// object.
    pub proof fn lemma_one_replicates(
        self,
        t: u64,
        i: int,
        j: int,
        offset: usize,
        first: ObjectMemoryEntry<T>,
        second: ObjectMemoryEntry<T>,
    )
        requires
            self.ok(t),
            self.replicates(i, offset, first),
            self.replicates(j, offset, second),
        ensures
            i == j,
            first == second,
    {
        assert(self.writer_ok(t, i));
        assert(self.writer_ok(t, j));
        assert(same_layout(self.writers[i].pending_req->0, self.writers[j].pending_req->0));
        if i < j {
            assert(self.slots[i] != self.slots[j]);
        } else if j < i {
            assert(self.slots[j] != self.slots[i]);
        }
    }

    /// What a node holds after a round at the offset of a request that is
    /// pending: what it held before, or what a writer of the same object
    /// replicated in the round.
    proof fn lemma_node_after(self, round: Round<T>, after: Group<T>, i: int, a: int)
        requires
            self.ok(round.number),
            self.allows(round, after),
            self.leads_to(round, after),
            0 <= i < MAX_PROCESSES,
            0 <= a < self.nodes.len(),
            self.writers[i].pending_req is Some,
        ensures
            ({
                let offset = self.writers[i].pending_req->0.obj_info.offset;
                ||| after.held(a, offset) == self.held(a, offset)
                ||| exists|k: int|
                    {
                        &&& 0 <= k < MAX_PROCESSES
                        &&& self.writers[k].state == MonsterState::Replicate
                        &&& self.writers[k].oid == self.writers[i].oid
                        &&& #[trigger] self.writers[k].wid == after.held(a, offset).wid
                    }
            }),
    {
        let t = round.number;
        let offset = self.writers[i].pending_req->0.obj_info.offset;
        assert(self.writer_ok(t, i));
        if after.held(a, offset) != self.held(a, offset) {
            assert(self.written_at(offset));
            let at_a = after.held(a, offset);
            assert(exists|k: int| #[trigger] self.replicates(k, offset, at_a));
            let k = choose|k: int| #[trigger] self.replicates(k, offset, after.held(a, offset));
            assert(self.writer_ok(t, k));
            assert(same_layout(self.writers[k].pending_req->0, self.writers[i].pending_req->0));
            assert(self.writers[k].wid == after.held(a, offset).wid);
        }
    }

    /// A round keeps what holds of each writer.
    proof fn lemma_writer_stays_ok(self, round: Round<T>, after: Group<T>, i: int)
        requires
            self.ok(round.number),
            round.number < u64::MAX,
            self.allows(round, after),
            self.leads_to(round, after),
            0 <= i < MAX_PROCESSES,
        ensures
            after.writer_ok((round.number + 1) as u64, i),
            !(self.stepped(round, i).outcome is Stop),
            self.writers[i].state == MonsterState::Replicate || self.writers[i].state
                == MonsterState::PostConflictCheck ==> self.stepped(round, i).outcome
                == RoundOutcome::Ack(true),
            Self::quiet(round) ==> after.rounds_left(i) <= if self.rounds_left(i) > 0 {
                self.rounds_left(i) - 1
            } else {
                0
            },
    {
        let t = round.number;
        let w = self.writers[i];
        assert(self.writer_ok(t, i));
        assert(self.slot_ok(t, i));
        assert(after.writers[i] == self.stepped(round, i).writer);
        assert(after.slots[i] == match self.announces(round, i) {
            Some(req) => ObjectWCCEntry { oid: req.obj_info.id, round: t },
            None => self.slots[i],
        });
        assert(round.elapsed[i] < round.round_time);
        if w.state == MonsterState::Check {
            self.lemma_check_decision(round, after, i);
            if forall|j: int| 0 <= j < i ==> #[trigger] self.slots[j] != self.slots[i] {
                assert forall|j: int| 0 <= j < i implies #[trigger] after.slots[j]
                    != after.slots[i] by {
                    assert(self.slots[j] != self.slots[i]);
                    assert(after.slots[j] == match self.announces(round, j) {
                        Some(req) => ObjectWCCEntry { oid: req.obj_info.id, round: t },
                        None => self.slots[j],
                    });
                }
            } else {
                let j = choose|j: int| 0 <= j < i && #[trigger] self.slots[j] == self.slots[i];
                assert(self.slot_ok(t, j));
                assert(after.slots[j] == match self.announces(round, j) {
                    Some(req) => ObjectWCCEntry { oid: req.obj_info.id, round: t },
                    None => self.slots[j],
                });
                assert(after.slots[j] == after.slots[i]);
            }
        } else if w.state == MonsterState::Wait {
            let winner = self.lemma_winner_replicates(t, i);
            let offset = w.pending_req->0.obj_info.offset;
            assert(self.writer_ok(t, winner));
            let entry = ObjectMemoryEntry {
                wid: self.writers[winner].wid,
                value: self.writers[winner].pending_req->0.data,
            };
            assert(self.replicates(winner, offset, entry));
            assert(self.written_at(offset));
            assert forall|a: int| 0 <= a < after.nodes.len() implies (#[trigger] after.held(
                a,
                offset,
            )).wid.above(w.wid) by {
                let at_a = after.held(a, offset);
                assert(exists|k: int| #[trigger] self.replicates(k, offset, at_a));
                let k = choose|k: int| #[trigger] self.replicates(k, offset, after.held(a, offset));
                self.lemma_one_replicates(t, k, winner, offset, after.held(a, offset), entry);
            }
        } else if w.state == MonsterState::PostConflictCheck {
            let offset = w.pending_req->0.obj_info.offset;
            let found = round.founds[i];
            assert(found@.len() == self.nodes.len());
            if any_below(found@, w.wid) {
                let a = choose|a: int| 0 <= a < found@.len() && (#[trigger] found@[a]).wid.below(
                    w.wid,
                );
                assert(round.founds[i]@[a] == self.held(a, offset) || round.founds[i]@[a]
                    == after.held(a, offset));
                assert(self.held(a, offset).wid.above(w.wid));
                self.lemma_node_after(round, after, i, a);
                if after.held(a, offset) != self.held(a, offset) {
                    let k = choose|k: int|
                        {
                            &&& 0 <= k < MAX_PROCESSES
                            &&& self.writers[k].state == MonsterState::Replicate
                            &&& self.writers[k].oid == w.oid
                            &&& #[trigger] self.writers[k].wid == after.held(a, offset).wid
                        };
                    assert(self.writer_ok(t, k));
                }
            }
        }
    }

    /// A round keeps what holds of each slot of the table.
    proof fn lemma_slot_stays_ok(self, round: Round<T>, after: Group<T>, k: int)
        requires
            self.ok(round.number),
            round.number < u64::MAX,
            self.allows(round, after),
            self.leads_to(round, after),
            0 <= k < MAX_PROCESSES,
        ensures
            after.slot_ok((round.number + 1) as u64, k),
    {
        let t = round.number;
        assert(self.writer_ok(t, k));
        assert(self.slot_ok(t, k));
        assert(after.writers[k] == self.stepped(round, k).writer);
        assert(after.slots[k] == match self.announces(round, k) {
            Some(req) => ObjectWCCEntry { oid: req.obj_info.id, round: t },
            None => self.slots[k],
        });
        assert(round.elapsed[k] < round.round_time);
        if self.writers[k].state == MonsterState::Check {
            self.lemma_check_decision(round, after, k);
        }
    }

    /// A round keeps the nodes in agreement.
    proof fn lemma_nodes_stay_agreed(self, round: Round<T>, after: Group<T>)
        requires
            self.ok(round.number),
            self.allows(round, after),
            self.leads_to(round, after),
        ensures
            after.agrees(),
    {
        let t = round.number;
        assert forall|a: int, b: int, offset: usize|
            0 <= a < after.nodes.len() && 0 <= b < after.nodes.len() implies #[trigger] after.held(
            a,
            offset,
        ) == #[trigger] after.held(b, offset) by {
            assert(self.held(a, offset) == self.held(b, offset));
            if self.written_at(offset) {
                let at_a = after.held(a, offset);
                assert(exists|i: int| #[trigger] self.replicates(i, offset, at_a));
                let i = choose|i: int| #[trigger] self.replicates(i, offset, after.held(a, offset));
                let at_b = after.held(b, offset);
                assert(exists|j: int| #[trigger] self.replicates(j, offset, at_b));
                let j = choose|j: int| #[trigger] self.replicates(j, offset, after.held(b, offset));
                self.lemma_one_replicates(
                    t,
                    i,
                    j,
                    offset,
                    after.held(a, offset),
                    after.held(b, offset),
                );
            }
        }
    }
}

/// A round of the model keeps what holds of the group. With
/// [`lemma_fresh_group_is_ok`] this makes [`Group::ok`] hold before every
/// round of every run.
///
/// So in every run no writer ever stops or retries; a request is answered,
/// with success, at the latest in the third round after the round in which
/// its writer found it; in every round at most one writer writes to an
/// object; and between rounds all nodes hold the same entry at every
/// offset.
pub proof fn lemma_round_keeps_ok<T: Copy>(before: Group<T>, round: Round<T>, after: Group<T>)
    requires
        before.ok(round.number),
        round.number < u64::MAX,
        before.allows(round, after),
        before.leads_to(round, after),
    ensures
        after.ok((round.number + 1) as u64),
        forall|i: int|
            0 <= i < MAX_PROCESSES ==> !(#[trigger] before.stepped(round, i).outcome is Stop),
        forall|i: int|
            0 <= i < MAX_PROCESSES && (before.writers[i].state == MonsterState::Replicate
                || before.writers[i].state == MonsterState::PostConflictCheck)
                ==> #[trigger] before.stepped(round, i).outcome == RoundOutcome::Ack(true),
{
    let t = round.number;
    assert forall|i: int| 0 <= i < MAX_PROCESSES implies #[trigger] after.writer_ok(
        (t + 1) as u64,
        i,
    ) by {
        before.lemma_writer_stays_ok(round, after, i);
    }
    assert forall|i: int| 0 <= i < MAX_PROCESSES implies !(#[trigger] before.stepped(
        round,
        i,
    ).outcome is Stop) by {
        before.lemma_writer_stays_ok(round, after, i);
    }
    assert forall|i: int|
        0 <= i < MAX_PROCESSES && (before.writers[i].state == MonsterState::Replicate
            || before.writers[i].state == MonsterState::PostConflictCheck) implies #[trigger] before.stepped(
        round,
        i,
    ).outcome == RoundOutcome::Ack(true) by {
        before.lemma_writer_stays_ok(round, after, i);
    }
    assert forall|k: int| 0 <= k < MAX_PROCESSES implies #[trigger] after.slot_ok(
        (t + 1) as u64,
        k,
    ) by {
        before.lemma_slot_stays_ok(round, after, k);
    }
    before.lemma_nodes_stay_agreed(round, after);
    assert forall|i: int, j: int|
        0 <= i < MAX_PROCESSES && 0 <= j < MAX_PROCESSES && after.writers[i].pending_req is Some
            && after.writers[j].pending_req is Some implies same_layout(
        (#[trigger] after.writers[i].pending_req)->0,
        (#[trigger] after.writers[j].pending_req)->0,
    ) by {
        assert(before.writer_ok(t, i));
        assert(before.writer_ok(t, j));
        assert(after.writers[i] == before.stepped(round, i).writer);
        assert(after.writers[j] == before.stepped(round, j).writer);
        assert(same_layout(before.request(round, i)->0, before.request(round, j)->0));
    }
}

/// A group that has not started is ready for round 1: its writers are
/// fresh, its table holds no round but round 0, and its nodes hold the same
/// at every offset.
pub proof fn lemma_fresh_group_is_ok<T: Copy>(group: Group<T>)
    requires
        group.writers.len() == MAX_PROCESSES,
        group.slots.len() == MAX_PROCESSES,
        forall|i: int|
            0 <= i < MAX_PROCESSES ==> #[trigger] group.writers[i] == (MonsterWriter::<T> {
                self_id: i as usize,
                state: MonsterState::Try,
                round_num: 0,
                wid: Wid::zero(),
                oid: 0,
                pending_req: None,
                stats: crate::algorithms::monster::MonsterStats {
                    conflicts: 0,
                    sync_failures: 0,
                    empty_requests: 0,
                    prev_round: 1,
                },
            }),
        forall|k: int| 0 <= k < MAX_PROCESSES ==> (#[trigger] group.slots[k]).round == 0,
        group.agrees(),
    ensures
        group.ok(1),
{
    assert forall|i: int| 0 <= i < MAX_PROCESSES implies #[trigger] group.writer_ok(1, i) by {}
    assert forall|k: int| 0 <= k < MAX_PROCESSES implies #[trigger] group.slot_ok(1, k) by {}
}

/// Once the clients fall silent, the group settles within three rounds.
/// After three rounds in a row in which no writer finds a request, every
/// writer is idle, every request has been answered, and all nodes hold the
/// same entry at every offset.
pub proof fn lemma_group_settles<T: Copy>(
    start: Group<T>,
    first: Round<T>,
    second_start: Group<T>,
    second: Round<T>,
    third_start: Group<T>,
    third: Round<T>,
    settled: Group<T>,
)
    requires
        start.ok(first.number),
        first.number + 3 <= u64::MAX,
        second.number == first.number + 1,
        third.number == first.number + 2,
        start.allows(first, second_start),
        start.leads_to(first, second_start),
        second_start.allows(second, third_start),
        second_start.leads_to(second, third_start),
        third_start.allows(third, settled),
        third_start.leads_to(third, settled),
        Group::<T>::quiet(first),
        Group::<T>::quiet(second),
        Group::<T>::quiet(third),
    ensures
        settled.idle(),
        settled.agrees(),
        settled.ok((first.number + 3) as u64),
{
    lemma_round_keeps_ok(start, first, second_start);
    lemma_round_keeps_ok(second_start, second, third_start);
    lemma_round_keeps_ok(third_start, third, settled);
    assert forall|i: int| 0 <= i < settled.writers.len() implies (
    #[trigger] settled.writers[i]).state == MonsterState::Try
        && settled.writers[i].pending_req is None by {
        assert(start.writer_ok(first.number, i));
        start.lemma_writer_stays_ok(first, second_start, i);
        second_start.lemma_writer_stays_ok(second, third_start, i);
        third_start.lemma_writer_stays_ok(third, settled, i);
        assert(settled.writer_ok((first.number + 3) as u64, i));
    }
}

/// What a writer replicates lands on every node. After a round in which a
/// writer was to replicate, every node holds the writer's entry, its Wid
/// with the data of its request, at the offset of the request; the client
/// is answered with success and the writer is idle.
pub proof fn lemma_replication_lands<T: Copy>(
    before: Group<T>,
    round: Round<T>,
    after: Group<T>,
    i: int,
)
    requires
        before.ok(round.number),
        round.number < u64::MAX,
        before.allows(round, after),
        before.leads_to(round, after),
        0 <= i < MAX_PROCESSES,
        before.writers[i].state == MonsterState::Replicate,
    ensures
        before.writers[i].pending_req is Some,
        forall|a: int|
            0 <= a < after.nodes.len() ==> #[trigger] after.held(
                a,
                before.writers[i].pending_req->0.obj_info.offset,
            ) == (ObjectMemoryEntry {
                wid: before.writers[i].wid,
                value: before.writers[i].pending_req->0.data,
            }),
        before.stepped(round, i).outcome == RoundOutcome::Ack(true),
        after.writers[i].state == MonsterState::Try,
        after.writers[i].pending_req is None,
{
    let t = round.number;
    let w = before.writers[i];
    assert(before.writer_ok(t, i));
    before.lemma_writer_stays_ok(round, after, i);
    assert(after.writers[i] == before.stepped(round, i).writer);
    let offset = w.pending_req->0.obj_info.offset;
    let entry = ObjectMemoryEntry { wid: w.wid, value: w.pending_req->0.data };
    assert(before.replicates(i, offset, entry));
    assert(before.written_at(offset));
    assert forall|a: int| 0 <= a < after.nodes.len() implies #[trigger] after.held(a, offset)
        == entry by {
        let at_a = after.held(a, offset);
        assert(exists|k: int| #[trigger] before.replicates(k, offset, at_a));
        let k = choose|k: int| #[trigger] before.replicates(k, offset, after.held(a, offset));
        before.lemma_one_replicates(t, k, i, offset, after.held(a, offset), entry);
    }
}

/// A write that meets no writer with a smaller id is on every node after
/// three rounds.
///
/// Writer `i` is idle and finds the request `req` in round `r`, and no
/// process with a smaller id announces the same object in that round. Then
/// `r` is at least 1; the writer checks in the round after and is the last
/// writer; and after the third round every node of the group holds the
/// entry with the Wid `(r, i)` and the data of the request at the
/// request's offset, the client is answered with success in that round and
/// in no round before, and the writer is idle again.
pub proof fn lemma_uncontended_write_lands<T: Copy>(
    start: Group<T>,
    first: Round<T>,
    checking: Group<T>,
    second: Round<T>,
    replicating: Group<T>,
    third: Round<T>,
    done: Group<T>,
    i: int,
)
    requires
        start.ok(first.number),
        first.number + 3 <= u64::MAX,
        second.number == first.number + 1,
        third.number == first.number + 2,
        start.allows(first, checking),
        start.leads_to(first, checking),
        checking.allows(second, replicating),
        checking.leads_to(second, replicating),
        replicating.allows(third, done),
        replicating.leads_to(third, done),
        0 <= i < MAX_PROCESSES,
        start.writers[i].state == MonsterState::Try,
        first.arrivals[i] is Some,
        forall|j: int|
            0 <= j < i && (#[trigger] start.announces(first, j)) is Some ==> start.announces(
                first,
                j,
            )->0.obj_info.id != first.arrivals[i]->0.obj_info.id,
    ensures
        first.number >= 1,
        checking.writers[i].state == MonsterState::Check,
        replicating.writers[i].state == MonsterState::Replicate,
        start.stepped(first, i).outcome == RoundOutcome::Continue,
        checking.stepped(second, i).outcome == RoundOutcome::Continue,
        replicating.stepped(third, i).outcome == RoundOutcome::Ack(true),
        forall|a: int|
            0 <= a < done.nodes.len() ==> #[trigger] done.held(
                a,
                first.arrivals[i]->0.obj_info.offset,
            ) == (ObjectMemoryEntry {
                wid: Wid { round_num: first.number, process_id: i as usize },
                value: first.arrivals[i]->0.data,
            }),
        done.writers[i].state == MonsterState::Try,
        done.writers[i].pending_req is None,
{
    let r = first.number;
    let req = first.arrivals[i]->0;
    lemma_round_keeps_ok(start, first, checking);
    lemma_round_keeps_ok(checking, second, replicating);
    assert(start.writer_ok(r, i));
    assert(checking.writers[i] == start.stepped(first, i).writer);
    assert(checking.writer_ok(second.number, i));
    assert(replicating.writers[i] == checking.stepped(second, i).writer);
    assert(second.elapsed[i] < second.round_time);
    checking.lemma_check_decision(second, replicating, i);
    assert forall|j: int| 0 <= j < i implies #[trigger] checking.slots[j]
        != checking.slots[i] by {
        assert(start.slot_ok(r, j));
        assert(checking.slots[j] == match start.announces(first, j) {
            Some(other) => ObjectWCCEntry { oid: other.obj_info.id, round: r },
            None => start.slots[j],
        });
    }
    lemma_replication_lands(replicating, third, done, i);
}

} // verus!
