//! Replication without arbitration: every write goes to every memory node
//! as it comes, and a read takes what one node holds. These algorithms
//! promise no consistency; they are the baseline that MONSTER is measured
//! against.

use crate::algorithms::monster::QueuePoll;
use crate::algorithms::monster::RoundOutcome;
use crate::algorithms::monster::StopReason;
use crate::safe_memio::failed_ids;
use crate::safe_memio::mem_readone;
use crate::safe_memio::mem_write_each;
use crate::safe_memio::wrote_with;
use crate::safe_memio::read_outcome;
use crate::safe_memio::MemoryError;
use crate::shmem::MemoryNode;
use crate::wid::ObjectMemoryEntry;
use crate::wid::Wid;
use crate::ReadRequest;
use crate::ReadReturn;
use vstd::prelude::*;

verus! {

/// What one turn of a best-effort writer came to.
#[derive(Debug)]
pub struct BestEffortTurn {
    /// What the caller does next.
    pub outcome: RoundOutcome,
    /// The ids of the nodes on which the write failed, in node order.
    pub failed: Vec<usize>,
}

/// What a turn of a best-effort writer comes to that found `poll` in its
/// queue and, where that is a request, failed to write on the nodes
/// `failed`.
pub open spec fn best_effort_outcome<T: Copy>(poll: QueuePoll<T>) -> RoundOutcome {
    match poll {
        QueuePoll::Request(_) => RoundOutcome::Ack(true),
        QueuePoll::Empty => RoundOutcome::Continue,
        QueuePoll::Disconnected => RoundOutcome::Stop(StopReason::QueueDisconnected),
    }
}

/// One turn of a writer that serves requests as they come: what the look at
/// the queue found is `poll`. A request is written to every node, without a
/// Wid, and answered with success whatever came of the writes.
pub fn async_best_effort_write<T: Copy, F>(
    poll: QueuePoll<T>,
    nodes: &Vec<MemoryNode>,
    write_one: F,
) -> (turn: BestEffortTurn) where
    F: Fn(&MemoryNode, usize, ObjectMemoryEntry<T>) -> Result<(), &'static str>,

    requires
        poll matches QueuePoll::Request(req) ==> forall|i: int|
            0 <= i < nodes.len() ==> call_requires(
                write_one,
                (
                    &#[trigger] nodes[i],
                    req.obj_info.offset,
                    ObjectMemoryEntry { wid: Wid::zero(), value: req.data },
                ),
            ),
    ensures
        turn.outcome == best_effort_outcome(poll),
        match poll {
            QueuePoll::Request(req) => exists|results: Seq<bool>| #[trigger]
                wrote_with(
                    write_one,
                    nodes@,
                    req.obj_info.offset,
                    ObjectMemoryEntry { wid: Wid::zero(), value: req.data },
                    results,
                ) && turn.failed@ == failed_ids(nodes@, results),
            _ => turn.failed@.len() == 0,
        },
{
    match poll {
        QueuePoll::Request(req) => {
            let entry = ObjectMemoryEntry::new_nowid(req.data);
            let failed = mem_write_each(req.obj_info.offset, entry, nodes, &write_one);
            BestEffortTurn { outcome: RoundOutcome::Ack(true), failed }
        },
        QueuePoll::Empty => BestEffortTurn { outcome: RoundOutcome::Continue, failed: Vec::new() },
        QueuePoll::Disconnected => BestEffortTurn {
            outcome: RoundOutcome::Stop(StopReason::QueueDisconnected),
            failed: Vec::new(),
        },
    }
}

/// One round of a writer that serves one request per round: what the look
/// at the queue found is `poll`. A request is written to every node, without
/// a Wid, and answered with success whatever came of the writes.
pub fn sync_best_effort<T: Copy, F>(poll: QueuePoll<T>, nodes: &Vec<MemoryNode>, write_one: F) -> (turn:
    BestEffortTurn) where
    F: Fn(&MemoryNode, usize, ObjectMemoryEntry<T>) -> Result<(), &'static str>,

    requires
        poll matches QueuePoll::Request(req) ==> forall|i: int|
            0 <= i < nodes.len() ==> call_requires(
                write_one,
                (
                    &#[trigger] nodes[i],
                    req.obj_info.offset,
                    ObjectMemoryEntry { wid: Wid::zero(), value: req.data },
                ),
            ),
    ensures
        turn.outcome == best_effort_outcome(poll),
        match poll {
            QueuePoll::Request(req) => exists|results: Seq<bool>| #[trigger]
                wrote_with(
                    write_one,
                    nodes@,
                    req.obj_info.offset,
                    ObjectMemoryEntry { wid: Wid::zero(), value: req.data },
                    results,
                ) && turn.failed@ == failed_ids(nodes@, results),
            _ => turn.failed@.len() == 0,
        },
{
    async_best_effort_write(poll, nodes, write_one)
}

/// What the read of one node comes to for the client: the value, as dirty.
pub open spec fn dirty<T: Copy>(read: Result<ObjectMemoryEntry<T>, MemoryError>) -> Result<
    ReadReturn<T>,
    MemoryError,
> {
    match read {
        Ok(entry) => Ok(ReadReturn::ReadDirty(entry.value)),
        Err(e) => Err(e),
    }
}

/// Serves one read request from one memory node, picked by chance. What
/// comes back is dirty: nothing is known of the other nodes.
pub fn async_best_effort_read<T: Copy, F>(req: &ReadRequest, nodes: &Vec<MemoryNode>, read_one: F)
    -> (r: Result<ReadReturn<T>, MemoryError>) where
    F: Fn(&MemoryNode, usize) -> Result<ObjectMemoryEntry<T>, &'static str>,

    requires
        nodes.len() > 0,
        forall|i: int|
            0 <= i < nodes.len() ==> call_requires(
                read_one,
                (&#[trigger] nodes[i], req.obj_info.offset),
            ),
    ensures
        exists|i: int, read: Result<ObjectMemoryEntry<T>, MemoryError>|
            {
                &&& 0 <= i < nodes.len()
                &&& #[trigger] read_outcome(read_one, nodes[i], req.obj_info.offset, read)
                &&& r == dirty(read)
            },
{
    let read = mem_readone(req.obj_info.offset, nodes, read_one);
    match read {
        Ok(entry) => Ok(ReadReturn::ReadDirty(entry.value)),
        Err(e) => Err(e),
    }
}

} // verus!
