//! Reads and writes of object entries that can fail without taking the
//! process down, alone and fanned out over all memory nodes.
//!
//! Failures are injected by chance, at a rate fixed at build time. The
//! access to a node's memory itself is the caller's: the single operations
//! take a reference to the entry in place, the fan-outs a function that
//! performs the access on one node.

use crate::shmem::MemoryNode;
use crate::wid::ObjectMemoryEntry;
use rand::Rng;
use vstd::prelude::*;

verus! {

/// How many of `FAILURE_SCALE` accesses fail by injection.
pub const FAILURE_RATE: u32 = 0;

/// The range that the rate of injected failures is measured in.
pub const FAILURE_SCALE: u32 = 1_000_000;

/// A read or write failed on the memory node with this id.
#[derive(Debug, Clone, Copy, PartialEq, Eq, Structural)]
pub struct MemoryError(pub usize);

/// An access that drew `roll` fails by injection, where `failure_rate` of
/// `FAILURE_SCALE` accesses do.
pub open spec fn injects_failure(roll: u32, failure_rate: u32) -> bool {
    roll < failure_rate
}

/// Draws a number below `bound` by chance, from the thread-local generator
/// of the `rand` crate: `rand::rng()` and `Rng::random_range` over
/// `0..bound`.
///
/// `random_range` panics on an empty range, which `bound > 0` rules out, and
/// returns a value of the range. Nothing is claimed of which value comes.
/// The generator takes its seed from the operating system, when a thread
/// first uses it and again from time to time, and panics if the system
/// gives it none.
#[verifier::external_body]
fn random_below(bound: u64) -> (drawn: u64)
    requires
        bound > 0,
    ensures
        drawn < bound,
{
    rand::rng().random_range(0..bound)
}

/// Writes `data` to `slot` unless `roll` injects a failure at the rate
/// `failure_rate`.
pub fn write_with_roll<T: Copy>(slot: &mut T, data: T, roll: u32, failure_rate: u32) -> (r: Result<
    (),
    &'static str,
>)
    ensures
        injects_failure(roll, failure_rate) ==> r is Err && r->Err_0@ == "Simulated write failure"@
            && *final(slot) == *old(slot),
        !injects_failure(roll, failure_rate) ==> r is Ok && *final(slot) == data,
{
    if roll < failure_rate {
        return Err("Simulated write failure");
    }
    *slot = data;
    Ok(())
}

/// Reads `slot` unless `roll` injects a failure at the rate `failure_rate`.
pub fn read_with_roll<T: Copy>(slot: &T, roll: u32, failure_rate: u32) -> (r: Result<
    T,
    &'static str,
>)
    ensures
        injects_failure(roll, failure_rate) ==> r is Err && r->Err_0@ == "Simulated read failure"@,
        !injects_failure(roll, failure_rate) ==> r == Ok::<T, &'static str>(*slot),
{
    if roll < failure_rate {
        return Err("Simulated read failure");
    }
    Ok(*slot)
}

/// Writes `data` to `slot`, or fails by injection and leaves `slot` as it
/// was. The write fails only if the number drawn for it injects a failure
/// at the rate `FAILURE_RATE`: at a rate of zero it never fails.
pub fn safe_write<T: Copy>(slot: &mut T, data: T) -> (r: Result<(), &'static str>)
    ensures
        exists|roll: u32|
            roll < FAILURE_SCALE && (r is Err <==> #[trigger] injects_failure(roll, FAILURE_RATE)),
        r is Err ==> FAILURE_RATE > 0,
        r is Ok ==> *final(slot) == data,
        r is Err ==> *final(slot) == *old(slot) && r->Err_0@ == "Simulated write failure"@,
{
    let roll = random_below(FAILURE_SCALE as u64) as u32;
    let r = write_with_roll(slot, data, roll, FAILURE_RATE);
    assert(r is Err <==> injects_failure(roll, FAILURE_RATE));
    r
}

/// Reads `slot`, or fails by injection. The read fails only if the number
/// drawn for it injects a failure at the rate `FAILURE_RATE`: at a rate of
/// zero it never fails.
pub fn safe_read<T: Copy>(slot: &T) -> (r: Result<T, &'static str>)
    ensures
        exists|roll: u32|
            roll < FAILURE_SCALE && (r is Err <==> #[trigger] injects_failure(roll, FAILURE_RATE)),
        r is Err ==> FAILURE_RATE > 0,
        r is Ok ==> r->Ok_0 == *slot,
        r is Err ==> r->Err_0@ == "Simulated read failure"@,
{
    let roll = random_below(FAILURE_SCALE as u64) as u32;
    let r = read_with_roll(slot, roll, FAILURE_RATE);
    assert(r is Err <==> injects_failure(roll, FAILURE_RATE));
    r
}

/// `write_one` can succeed in writing `entry` at `offset` of each of the
/// first `n` nodes.
pub open spec fn wrote_first<T: Copy, F>(
    write_one: F,
    nodes: Seq<MemoryNode>,
    offset: usize,
    entry: ObjectMemoryEntry<T>,
    n: int,
) -> bool where F: Fn(&MemoryNode, usize, ObjectMemoryEntry<T>) -> Result<(), &'static str> {
    forall|i: int|
        0 <= i < n ==> call_ensures(write_one, (&#[trigger] nodes[i], offset, entry), Ok(()))
}

/// `write_one` can fail on node `i`, after it succeeded on all nodes before
/// it.
pub open spec fn write_failed_at<T: Copy, F>(
    write_one: F,
    nodes: Seq<MemoryNode>,
    offset: usize,
    entry: ObjectMemoryEntry<T>,
    i: int,
) -> bool where F: Fn(&MemoryNode, usize, ObjectMemoryEntry<T>) -> Result<(), &'static str> {
    &&& 0 <= i < nodes.len()
    &&& exists|msg: &'static str| #[trigger]
        call_ensures(write_one, (&nodes[i], offset, entry), Err(msg))
    &&& wrote_first(write_one, nodes, offset, entry, i)
}

/// Writes `entry` at `offset` of the object area of every node, in the order
/// of `nodes`, and stops at the first node on which the write fails.
///
/// `write_one` performs the write on one node. The result is `Ok` if it
/// succeeded on every node; otherwise the error names the first node on which
/// it failed, and the nodes behind that one were not touched.
pub fn mem_writeall<T: Copy, F>(
    offset: usize,
    entry: ObjectMemoryEntry<T>,
    nodes: &Vec<MemoryNode>,
    write_one: F,
) -> (r: Result<(), MemoryError>) where
    F: Fn(&MemoryNode, usize, ObjectMemoryEntry<T>) -> Result<(), &'static str>,

    requires
        forall|i: int|
            0 <= i < nodes.len() ==> call_requires(write_one, (&#[trigger] nodes[i], offset, entry)),
    ensures
        match r {
            Ok(()) => wrote_first(write_one, nodes@, offset, entry, nodes.len() as int),
            Err(e) => exists|i: int| #[trigger]
                write_failed_at(write_one, nodes@, offset, entry, i) && e.0 == nodes[i].id,
        },
{
    let mut i: usize = 0;
    while i < nodes.len()
        invariant
            i <= nodes.len(),
            forall|k: int|
                0 <= k < nodes.len() ==> call_requires(
                    write_one,
                    (&#[trigger] nodes[k], offset, entry),
                ),
            wrote_first(write_one, nodes@, offset, entry, i as int),
        decreases nodes.len() - i,
    {
        let node = &nodes[i];
        match write_one(node, offset, entry) {
            Ok(done) => {
                assert(done == ());
                assert(call_ensures(write_one, (&nodes[i as int], offset, entry), Ok(())));
            },
            Err(msg) => {
                assert(call_ensures(write_one, (&nodes[i as int], offset, entry), Err(msg)));
                assert(write_failed_at(write_one, nodes@, offset, entry, i as int));
                return Err(MemoryError(node.id));
            },
        }
        i += 1;
    }
    Ok(())
}

/// `read_one` can read `entries`, one by one, at `offset` of the nodes that
/// `entries` reaches.
pub open spec fn read_first<T: Copy, F>(
    read_one: F,
    nodes: Seq<MemoryNode>,
    offset: usize,
    entries: Seq<ObjectMemoryEntry<T>>,
) -> bool where F: Fn(&MemoryNode, usize) -> Result<ObjectMemoryEntry<T>, &'static str> {
    &&& entries.len() <= nodes.len()
    &&& forall|i: int|
        0 <= i < entries.len() ==> call_ensures(
            read_one,
            (&#[trigger] nodes[i], offset),
            Ok(entries[i]),
        )
}

/// `read_one` can fail on node `i`, after it read some entry on each node
/// before it.
pub open spec fn read_failed_at<T: Copy, F>(
    read_one: F,
    nodes: Seq<MemoryNode>,
    offset: usize,
    i: int,
) -> bool where F: Fn(&MemoryNode, usize) -> Result<ObjectMemoryEntry<T>, &'static str> {
    &&& 0 <= i < nodes.len()
    &&& exists|msg: &'static str| #[trigger] call_ensures(read_one, (&nodes[i], offset), Err(msg))
    &&& exists|entries: Seq<ObjectMemoryEntry<T>>|
        entries.len() == i && #[trigger] read_first(read_one, nodes, offset, entries)
}

/// Reads the entry at `offset` of the object area of every node, in the
/// order of `nodes`, and stops at the first node on which the read fails.
///
/// `read_one` performs the read on one node. The result holds one entry per
/// node, in node order; or the error names the first node on which the read
/// failed.
pub fn mem_readall<T: Copy, F>(offset: usize, nodes: &Vec<MemoryNode>, read_one: F) -> (r: Result<
    Vec<ObjectMemoryEntry<T>>,
    MemoryError,
>) where F: Fn(&MemoryNode, usize) -> Result<ObjectMemoryEntry<T>, &'static str>
    requires
        forall|i: int| 0 <= i < nodes.len() ==> call_requires(read_one, (&#[trigger] nodes[i], offset)),
    ensures
        match r {
            Ok(entries) => entries.len() == nodes.len() && read_first(
                read_one,
                nodes@,
                offset,
                entries@,
            ),
            Err(e) => exists|i: int| #[trigger]
                read_failed_at(read_one, nodes@, offset, i) && e.0 == nodes[i].id,
        },
{
    let mut entries: Vec<ObjectMemoryEntry<T>> = Vec::new();
    let mut i: usize = 0;
    while i < nodes.len()
        invariant
            i <= nodes.len(),
            entries.len() == i,
            forall|k: int|
                0 <= k < nodes.len() ==> call_requires(read_one, (&#[trigger] nodes[k], offset)),
            read_first(read_one, nodes@, offset, entries@),
        decreases nodes.len() - i,
    {
        let node = &nodes[i];
        match read_one(node, offset) {
            Ok(entry) => {
                entries.push(entry);
            },
            Err(msg) => {
                assert(call_ensures(read_one, (&nodes[i as int], offset), Err(msg)));
                assert(read_failed_at(read_one, nodes@, offset, i as int));
                return Err(MemoryError(node.id));
            },
        }
        i += 1;
    }
    Ok(entries)
}

/// `r` is what reading the entry at `offset` of `node` through `read_one`
/// can come to: an entry that `read_one` can return, or the node's id where
/// `read_one` can fail.
pub open spec fn read_outcome<T: Copy, F>(
    read_one: F,
    node: MemoryNode,
    offset: usize,
    r: Result<ObjectMemoryEntry<T>, MemoryError>,
) -> bool where F: Fn(&MemoryNode, usize) -> Result<ObjectMemoryEntry<T>, &'static str> {
    match r {
        Ok(entry) => call_ensures(read_one, (&node, offset), Ok(entry)),
        Err(e) => e.0 == node.id && exists|msg: &'static str| #[trigger]
            call_ensures(read_one, (&node, offset), Err(msg)),
    }
}

/// Reads the entry at `offset` on node `i`.
pub fn mem_readat<T: Copy, F>(offset: usize, nodes: &Vec<MemoryNode>, i: usize, read_one: F) -> (r:
    Result<ObjectMemoryEntry<T>, MemoryError>) where
    F: Fn(&MemoryNode, usize) -> Result<ObjectMemoryEntry<T>, &'static str>,

    requires
        i < nodes.len(),
        call_requires(read_one, (&nodes[i as int], offset)),
    ensures
        read_outcome(read_one, nodes[i as int], offset, r),
{
    let node = &nodes[i];
    match read_one(node, offset) {
        Ok(entry) => Ok(entry),
        Err(msg) => {
            assert(call_ensures(read_one, (&nodes[i as int], offset), Err(msg)));
            Err(MemoryError(node.id))
        },
    }
}

/// Reads the entry at `offset` on one node, picked by chance.
pub fn mem_readone<T: Copy, F>(offset: usize, nodes: &Vec<MemoryNode>, read_one: F) -> (r: Result<
    ObjectMemoryEntry<T>,
    MemoryError,
>) where F: Fn(&MemoryNode, usize) -> Result<ObjectMemoryEntry<T>, &'static str>
    requires
        nodes.len() > 0,
        forall|i: int| 0 <= i < nodes.len() ==> call_requires(read_one, (&#[trigger] nodes[i], offset)),
    ensures
        exists|i: int| 0 <= i < nodes.len() && #[trigger] read_outcome(read_one, nodes[i], offset, r),
{
    let i = random_below(nodes.len() as u64) as usize;
    mem_readat(offset, nodes, i, read_one)
}

/// `results` says for each node whether `write_one` wrote `entry` at
/// `offset`, and each of these outcomes is one that `write_one` can have.
pub open spec fn wrote_with<T: Copy, E, F>(
    write_one: F,
    nodes: Seq<MemoryNode>,
    offset: usize,
    entry: ObjectMemoryEntry<T>,
    results: Seq<bool>,
) -> bool where F: Fn(&MemoryNode, usize, ObjectMemoryEntry<T>) -> Result<(), E> {
    &&& results.len() == nodes.len()
    &&& forall|i: int|
        0 <= i < nodes.len() ==> if #[trigger] results[i] {
            call_ensures(write_one, (&nodes[i], offset, entry), Ok(()))
        } else {
            exists|e: E| #[trigger]
                call_ensures(write_one, (&nodes[i], offset, entry), Err(e))
        }
}

/// The ids of the nodes whose result is a failure, in node order.
pub open spec fn failed_ids(nodes: Seq<MemoryNode>, results: Seq<bool>) -> Seq<usize>
    decreases results.len(),
{
    if results.len() == 0 || nodes.len() < results.len() {
        Seq::empty()
    } else if results.last() {
        failed_ids(nodes, results.drop_last())
    } else {
        failed_ids(nodes, results.drop_last()).push(nodes[results.len() - 1].id)
    }
}

/// Writes `entry` at `offset` of every node, whether or not the write fails
/// on some of them, and returns the ids of the nodes on which it failed.
pub fn mem_write_each<T: Copy, E, F>(
    offset: usize,
    entry: ObjectMemoryEntry<T>,
    nodes: &Vec<MemoryNode>,
    write_one: &F,
) -> (failed: Vec<usize>) where
    F: Fn(&MemoryNode, usize, ObjectMemoryEntry<T>) -> Result<(), E>,

    requires
        forall|i: int|
            0 <= i < nodes.len() ==> call_requires(
                *write_one,
                (&#[trigger] nodes[i], offset, entry),
            ),
    ensures
        exists|results: Seq<bool>| #[trigger]
            wrote_with(*write_one, nodes@, offset, entry, results) && failed@ == failed_ids(
                nodes@,
                results,
            ),
{
    let mut failed: Vec<usize> = Vec::new();
    let ghost mut results: Seq<bool> = Seq::empty();
    let mut i: usize = 0;
    while i < nodes.len()
        invariant
            i <= nodes.len(),
            results.len() == i,
            forall|k: int|
                0 <= k < nodes.len() ==> call_requires(
                    *write_one,
                    (&#[trigger] nodes[k], offset, entry),
                ),
            wrote_with(*write_one, nodes@.take(i as int), offset, entry, results),
            failed@ == failed_ids(nodes@, results),
        decreases nodes.len() - i,
    {
        let node = &nodes[i];
        let ghost before = results;
        match write_one(node, offset, entry) {
            Ok(done) => {
                assert(done == ());
                proof {
                    results = results.push(true);
                }
            },
            Err(e) => {
                assert(call_ensures(*write_one, (&nodes[i as int], offset, entry), Err(e)));
                failed.push(node.id);
                proof {
                    results = results.push(false);
                }
            },
        }
        proof {
            assert(results.drop_last() =~= before);
            assert forall|k: int| 0 <= k < i + 1 implies if #[trigger] results[k] {
                call_ensures(*write_one, (&nodes@.take(i + 1)[k], offset, entry), Ok(()))
            } else {
                exists|e: E| #[trigger]
                    call_ensures(*write_one, (&nodes@.take(i + 1)[k], offset, entry), Err(e))
            } by {
                if k < i {
                    assert(before[k] == results[k]);
                    assert(nodes@.take(i as int)[k] == nodes@.take(i + 1)[k]);
                }
            }
        }
        i += 1;
    }
    assert(nodes@.take(nodes.len() as int) =~= nodes@);
    failed
}

} // verus!
