//! Round-synchronous replication of typed objects over shared memory nodes.
//!
//! A group of processes shares a set of memory nodes. A write by any process
//! is propagated to every node; a read tells whether all nodes agree on what
//! it returns. Concurrent writers of one object are arbitrated round by round
//! through a register in the shared state.
//!
//! The crate holds the protocol and its data structures. It touches no
//! memory region, clock, thread or queue itself: the caller performs those
//! steps and hands in what came of them.

use vstd::prelude::*;

pub mod algorithms;
pub mod config;
pub mod group;
pub mod logger;
pub mod safe_memio;
pub mod shmem;
pub mod text;
pub mod utils;
pub mod wid;

use config::RepCXLConfig;
use core::marker::PhantomData;
use group::is_min_process;
use group::with_process;
use group::with_processes;
use group::GroupView;
use shmem::allocator::rounded_size;
use shmem::allocator::round_up;
use shmem::allocator::AllocatorView;
use shmem::allocator::ObjectInfo;
use shmem::starting_block::StartingBlock;
use shmem::starting_block::StartingBlockView;
use shmem::MemoryNode;
use shmem::MemoryType;
use shmem::SharedState;

verus! {

/// Number of slots in every per-process table of the shared state.
pub const MAX_PROCESSES: usize = 128;

/// Number of slots in the object index.
pub const MAX_OBJECTS: usize = 128;

/// What a read returns: the value, and whether all memory nodes agreed on
/// the write that it stems from.
#[derive(Debug, Clone, Copy, PartialEq, Eq)]
pub enum ReadReturn<T> {
    /// Every node held the same write.
    ReadSafe(T),
    /// The nodes differed; the value is that of the latest write among them.
    ReadDirty(T),
}

/// A client's request to write `data` to an object.
#[derive(Debug, Clone, Copy)]
pub struct WriteRequest<T: Copy> {
    pub obj_info: ObjectInfo,
    pub data: T,
}

/// A client's request to read an object.
#[derive(Debug, Clone, Copy, PartialEq, Eq, Structural)]
pub struct ReadRequest {
    pub obj_info: ObjectInfo,
}

/// What came of handing a request to a worker.
#[derive(Debug, Clone, Copy, PartialEq, Eq)]
pub enum Reply<A> {
    /// The worker answered.
    Answer(A),
    /// The request could not be handed over: the worker is gone.
    SendFailed,
    /// The worker took the request and dropped it without an answer.
    AckLost,
}

/// What a client's write comes to, given what came of handing it over.
pub open spec fn write_result(reply: Reply<bool>) -> Result<(), &'static str> {
    match reply {
        Reply::Answer(true) => Ok(()),
        Reply::Answer(false) => Err("Failed write operation"),
        Reply::SendFailed => Err("Failed to send write request"),
        Reply::AckLost => Err("Failed to receive ack"),
    }
}

/// What a client's read comes to, given what came of handing it over.
pub open spec fn read_result<T>(reply: Reply<ReadReturn<T>>) -> Result<ReadReturn<T>, &'static str> {
    match reply {
        Reply::Answer(found) => Ok(found),
        Reply::SendFailed => Err("Failed to send read request"),
        Reply::AckLost => Err("Failed to receive read response"),
    }
}

/// A client's handle on one replicated object. It knows where the object
/// lies and hands requests to the workers; it touches no memory node itself.
#[derive(Debug)]
pub struct RepCXLObject<T: Copy> {
    info: ObjectInfo,
    kind: PhantomData<T>,
}

impl<T: Copy> View for RepCXLObject<T> {
    type V = ObjectInfo;

    closed spec fn view(&self) -> ObjectInfo {
        self.info
    }
}

impl<T: Copy> RepCXLObject<T> {
    pub fn new(id: usize, offset: usize, size: usize) -> (object: Self)
        ensures
            object@ == (ObjectInfo { id, offset, size }),
    {
        RepCXLObject { info: ObjectInfo::new(id, offset, size), kind: PhantomData }
    }

    /// Where the object lies.
    pub fn info(&self) -> (info: ObjectInfo)
        ensures
            info == self@,
    {
        self.info
    }

    /// Writes `data` to the object: hands the request to the write worker
    /// through `submit`, which returns once the worker has answered, and
    /// reports what came of it.
    ///
    /// The object must have been created for values of `T`: the handle does
    /// not compare the size of `data` with the size of the object.
    pub fn write<F>(&self, data: T, submit: F) -> (r: Result<(), &'static str>) where
        F: FnOnce(WriteRequest<T>) -> Reply<bool>,

        requires
            call_requires(submit, (WriteRequest { obj_info: self@, data },)),
        ensures
            exists|reply: Reply<bool>|
                {
                    &&& #[trigger] call_ensures(
                        submit,
                        (WriteRequest { obj_info: self@, data },),
                        reply,
                    )
                    &&& r == write_result(reply)
                },
    {
        let reply = submit(WriteRequest { obj_info: self.info, data });
        match reply {
            Reply::Answer(true) => Ok(()),
            Reply::Answer(false) => Err("Failed write operation"),
            Reply::SendFailed => Err("Failed to send write request"),
            Reply::AckLost => Err("Failed to receive ack"),
        }
    }

    /// Reads the object: hands the request to the read worker through
    /// `submit`, which returns once the worker has answered, and reports
    /// what came of it.
    pub fn read<F>(&self, submit: F) -> (r: Result<ReadReturn<T>, &'static str>) where
        F: FnOnce(ReadRequest) -> Reply<ReadReturn<T>>,

        requires
            call_requires(submit, (ReadRequest { obj_info: self@ },)),
        ensures
            exists|reply: Reply<ReadReturn<T>>|
                {
                    &&& #[trigger] call_ensures(submit, (ReadRequest { obj_info: self@ },), reply)
                    &&& r == read_result(reply)
                },
    {
        let reply = submit(ReadRequest { obj_info: self.info });
        match reply {
            Reply::Answer(found) => Ok(found),
            Reply::SendFailed => Err("Failed to send read request"),
            Reply::AckLost => Err("Failed to receive read response"),
        }
    }
}

/// Node `i` of a process is the `i`-th configured file, mapped at the size
/// `size`.
pub open spec fn is_file_node(node: MemoryNode, i: int, path: Seq<char>, size: usize) -> bool {
    &&& node.id == i
    &&& node.type_ == MemoryType::File
    &&& node.path@ == path
    &&& node.size == size
}

/// What one attempt at the rendezvous comes to.
pub struct Rendezvous {
    /// The start time in the starting block after the attempt.
    pub scheduled: Option<u64>,
    /// The time at which the process starts its rounds, once that is settled.
    pub start: Option<u64>,
}

/// One process of the group: its parameters and its view of the group.
pub struct RepCXL<T: Copy> {
    /// Id of the process.
    pub id: usize,
    /// Bytes per memory node, a multiple of the chunk size.
    pub size: usize,
    /// Allocator granularity in bytes.
    pub chunk_size: usize,
    /// Nanoseconds per round.
    pub round_time: u64,
    /// Nanoseconds from the rendezvous to the first round.
    pub startup_delay: u64,
    /// The group as this process sees it.
    pub view: GroupView,
    /// The type of the objects.
    pub kind: PhantomData<T>,
}

impl<T: Copy> RepCXL<T> {
    /// The invariant of a process: its view names it and holds no process
    /// twice, and its nodes take whole chunks.
    pub open spec fn wf(&self) -> bool {
        &&& self.view.wf()
        &&& self.view.self_id == self.id
        &&& self.chunk_size > 0
    }

    /// This process is the coordinator: its id is the smallest in its view.
    pub open spec fn coordinates(&self) -> bool {
        exists|pid: u32| #[trigger]
            is_min_process(self.view.processes@, pid) && pid as usize == self.id
    }

    /// Bytes that one object takes on a memory node before rounding.
    pub open spec fn object_size() -> nat {
        vstd::layout::size_of::<wid::ObjectMemoryEntry<T>>()
    }

    /// A process can be set up from `config`: the process id fits the shared
    /// tables, the chunk size is positive, the node size rounded up to whole
    /// chunks fits the machine word, and a node has room for the shared
    /// state and more.
    pub open spec fn takes(config: &RepCXLConfig) -> bool {
        &&& 0 <= config.id < MAX_PROCESSES
        &&& config.chunk_size > 0
        &&& rounded_size(config.mem_size as int, config.chunk_size as int) <= usize::MAX
        &&& config.mem_nodes@.len() > 0 ==> rounded_size(
            config.mem_size as int,
            config.chunk_size as int,
        ) > vstd::layout::size_of::<SharedState>()
    }

    /// `self` is the process that `config` describes: the node size rounded
    /// up to whole chunks, a view with this process and the configured
    /// processes, and one memory node per configured file, numbered in order.
    pub open spec fn made_from(&self, config: &RepCXLConfig) -> bool {
        &&& self.wf()
        &&& self.id == config.id
        &&& self.size == rounded_size(config.mem_size as int, config.chunk_size as int)
        &&& self.chunk_size == config.chunk_size
        &&& self.round_time == config.round_time
        &&& self.startup_delay == config.startup_delay
        &&& self.view.processes@ == with_processes(seq![config.id as u32], config.processes@)
        &&& self.view.memory_nodes@.len() == config.mem_nodes@.len()
        &&& forall|i: int|
            0 <= i < config.mem_nodes@.len() ==> is_file_node(
                #[trigger] self.view.memory_nodes@[i],
                i,
                config.mem_nodes@[i]@,
                self.size,
            )
    }

    /// Sets a process up from its configuration, if one can be set up from
    /// it.
    pub fn try_new(config: &RepCXLConfig) -> (made: Option<RepCXL<T>>)
        ensures
            match made {
                Some(rcxl) => Self::takes(config) && rcxl.made_from(config),
                None => !Self::takes(config),
            },
    {
        if config.id < 0 || config.id as usize >= MAX_PROCESSES || config.chunk_size == 0 {
            return None;
        }
        match round_up(config.mem_size, config.chunk_size) {
            Some(size) => {
                if config.mem_nodes.len() > 0 && size <= shmem::state_size() {
                    None
                } else {
                    Some(Self::new(config))
                }
            },
            None => None,
        }
    }

    /// Sets a process up from its configuration: the node size rounded up to
    /// whole chunks, a view with this process and the configured processes,
    /// and one memory node per configured file, numbered in order.
    pub fn new(config: &RepCXLConfig) -> (rcxl: RepCXL<T>)
        requires
            Self::takes(config),
        ensures
            rcxl.made_from(config),
    {
        let id = config.id as usize;
        let size = match round_up(config.mem_size, config.chunk_size) {
            Some(v) => v,
            None => {
                proof {
                    assert(false);
                }
                0
            },
        };
        let mut view = GroupView::new(id);
        view.add_process(config.id as u32);
        assert(view.processes@ =~= seq![config.id as u32]);
        let mut k: usize = 0;
        while k < config.processes.len()
            invariant
                k <= config.processes.len(),
                view.wf(),
                view.self_id == id,
                view.memory_nodes@.len() == 0,
                view.processes@ == with_processes(
                    seq![config.id as u32],
                    config.processes@.take(k as int),
                ),
            decreases config.processes.len() - k,
        {
            view.add_process(config.processes[k]);
            proof {
                let upto = config.processes@.take(k + 1);
                assert(upto.drop_last() =~= config.processes@.take(k as int));
                assert(upto.last() == config.processes@[k as int]);
            }
            k += 1;
        }
        assert(config.processes@.take(config.processes@.len() as int) =~= config.processes@);
        let mut n: usize = 0;
        while n < config.mem_nodes.len()
            invariant
                n <= config.mem_nodes.len(),
                size > vstd::layout::size_of::<SharedState>() || config.mem_nodes@.len() == 0,
                view.wf(),
                view.self_id == id,
                view.processes@ == with_processes(seq![config.id as u32], config.processes@),
                view.memory_nodes@.len() == n,
                forall|i: int|
                    0 <= i < n ==> is_file_node(
                        #[trigger] view.memory_nodes@[i],
                        i,
                        config.mem_nodes@[i]@,
                        size,
                    ),
            decreases config.mem_nodes.len() - n,
        {
            let node = MemoryNode::from_file(n, config.mem_nodes[n].as_str(), size);
            view.memory_nodes.push(node);
            n += 1;
        }
        RepCXL {
            id,
            size,
            chunk_size: config.chunk_size,
            round_time: config.round_time,
            startup_delay: config.startup_delay,
            view,
            kind: PhantomData,
        }
    }

    /// The process's view of the group.
    pub fn get_view(&self) -> (view: &GroupView)
        ensures
            *view == self.view,
    {
        &self.view
    }

    /// Adds process `pid` to the view unless it is there already.
    pub fn register_process(&mut self, pid: u32)
        requires
            old(self).wf(),
        ensures
            final(self).wf(),
            final(self).id == old(self).id,
            final(self).size == old(self).size,
            final(self).chunk_size == old(self).chunk_size,
            final(self).round_time == old(self).round_time,
            final(self).startup_delay == old(self).startup_delay,
            final(self).view.memory_nodes == old(self).view.memory_nodes,
            final(self).view.processes@ == with_process(
                old(self).view.processes@,
                pid,
            ),
    {
        self.view.add_process(pid);
    }

    /// Whether this process is the coordinator of its view.
    pub fn is_coordinator(&self) -> (b: bool)
        ensures
            b == self.coordinates(),
    {
        match self.view.get_coordinator() {
            Some(pid) => {
                let b = pid as usize == self.id;
                proof {
                    if !b && self.coordinates() {
                        let other = choose|other: u32| #[trigger]
                            is_min_process(self.view.processes@, other) && other as usize
                                == self.id;
                        assert(self.view.processes@.contains(other));
                        assert(self.view.processes@.contains(pid));
                    }
                }
                b
            },
            None => {
                proof {
                    if self.coordinates() {
                        let other = choose|other: u32| #[trigger]
                            is_min_process(self.view.processes@, other) && other as usize
                                == self.id;
                        assert(self.view.processes@.contains(other));
                    }
                }
                false
            },
        }
    }

    /// Adds the memory node that the file at `path` backs. It gets the next
    /// free number.
    pub fn add_memory_node_from_file(&mut self, path: &str)
        requires
            old(self).size > vstd::layout::size_of::<SharedState>(),
        ensures
            final(self).id == old(self).id,
            final(self).size == old(self).size,
            final(self).chunk_size == old(self).chunk_size,
            final(self).round_time == old(self).round_time,
            final(self).startup_delay == old(self).startup_delay,
            final(self).view.self_id == old(self).view.self_id,
            final(self).view.processes == old(self).view.processes,
            final(self).view.memory_nodes@.len() == old(self).view.memory_nodes@.len()
                + 1,
            final(self).view.memory_nodes@.drop_last() == old(
                self,
            ).view.memory_nodes@,
            is_file_node(
                final(self).view.memory_nodes@.last(),
                old(self).view.memory_nodes@.len() as int,
                path@,
                old(self).size,
            ),
    {
        let id = self.view.memory_nodes.len();
        let node = MemoryNode::from_file(id, path, self.size);
        self.view.memory_nodes.push(node);
        assert(final(self).view.memory_nodes@.drop_last() =~= old(
            self,
        ).view.memory_nodes@);
    }

    /// The shared state that the coordinator installs on every memory node
    /// before anything is allocated.
    pub fn init_state(&self) -> (state: SharedState)
        requires
            self.wf(),
        ensures
            state.allocator@ == AllocatorView::empty(
                self.size as nat,
                self.chunk_size as nat,
            ),
            state.allocator@.wf(),
            state.starting_block@.start_time is None,
            state.starting_block@.ready.len() == MAX_PROCESSES,
            forall|pid: int| 0 <= pid < MAX_PROCESSES ==> !state.starting_block@.ready[pid],
            state.owcc@.len() == MAX_PROCESSES,
            forall|pid: int|
                0 <= pid < MAX_PROCESSES ==> state.owcc@[pid] == (shmem::wcc::ObjectWCCEntry {
                    oid: 0,
                    round: 0,
                }),
    {
        SharedState::new(self.size, self.chunk_size)
    }

    /// Creates the object `id` in `state`, a copy of the shared state that
    /// the caller then installs on every memory node.
    ///
    /// Only the coordinator creates objects. The object gets room for one
    /// entry of `T`. Nothing is created, and `state` stays as it is, where
    /// this process is not the coordinator, where `id` is taken, or where the
    /// object area has no room.
    pub fn new_object(&self, state: &mut SharedState, id: usize) -> (object: Option<
        RepCXLObject<T>,
    >)
        requires
            old(state).allocator@.wf(),
        ensures
            final(state).allocator@.wf(),
            final(state).starting_block == old(state).starting_block,
            final(state).owcc == old(state).owcc,
            object is Some <==> self.coordinates() && old(state).allocator@.can_alloc(
                id,
                Self::object_size() as int,
            ),
            match object {
                Some(handle) => exists|i: int|
                    {
                        &&& #[trigger] old(state).allocator@.first_fit(
                            i,
                            rounded_size(
                                Self::object_size() as int,
                                old(state).allocator@.chunk_size as int,
                            ),
                        )
                        &&& final(state).allocator@ == old(state).allocator@.alloc_at(
                            i,
                            id,
                            Self::object_size() as int,
                        )
                        &&& final(state).allocator@.slots[i] == Some(handle@)
                    },
                None => final(state).allocator@ == old(state).allocator@,
            },
    {
        if !self.is_coordinator() {
            return None;
        }
        let size = core::mem::size_of::<wid::ObjectMemoryEntry<T>>();
        let ghost before = state.allocator@;
        proof {
            state.allocator.lemma_machine_bounds();
        }
        match state.allocator.alloc_object(id, size) {
            Some(offset) => {
                let rounded = match round_up(size, state.allocator.chunk_size()) {
                    Some(v) => v,
                    None => size,
                };
                let handle = RepCXLObject::new(id, offset, rounded);
                proof {
                    let want = rounded_size(Self::object_size() as int, before.chunk_size as int);
                    assert(size as int == Self::object_size() as int);
                    let i = choose|i: int|
                        {
                            &&& #[trigger] before.first_fit(i, want)
                            &&& offset == before.gap_start(i)
                            &&& state.allocator@ == before.alloc_at(i, id, size as int)
                        };
                    assert(before.fits(i, want));
                    assert(want <= usize::MAX);
                    assert(state.allocator@.slots[i] == Some(handle@));
                    assert(before.first_fit(i, want) && state.allocator@ == before.alloc_at(
                        i,
                        id,
                        Self::object_size() as int,
                    ) && state.allocator@.slots[i] == Some(handle@));
                }
                Some(handle)
            },
            None => None,
        }
    }

    /// Removes the object `id` from `state`, a copy of the shared state that
    /// the caller then installs on every memory node. Only the coordinator
    /// removes objects; for any other process `state` stays as it is.
    pub fn remove_object(&self, state: &mut SharedState, id: usize)
        requires
            old(state).allocator@.wf(),
        ensures
            final(state).allocator@.wf(),
            final(state).starting_block == old(state).starting_block,
            final(state).owcc == old(state).owcc,
            final(state).allocator@ == if self.coordinates() {
                old(state).allocator@.remove(id)
            } else {
                old(state).allocator@
            },
    {
        if self.is_coordinator() {
            state.allocator.dealloc_object(id);
        }
    }

    /// A handle on the object `id`, if the shared state `state` holds it.
    pub fn get_object(&self, state: &SharedState, id: usize) -> (object: Option<RepCXLObject<T>>)
        ensures
            match object {
                Some(handle) => exists|i: int|
                    {
                        &&& #[trigger] state.allocator@.holds(i, id)
                        &&& state.allocator@.slots[i] == Some(handle@)
                        &&& forall|j: int| 0 <= j < i ==> !state.allocator@.holds(j, id)
                    },
                None => !state.allocator@.contains_id(id),
            },
    {
        match state.allocator.lookup_object(id) {
            Some(oi) => Some(RepCXLObject::new(id, oi.offset, oi.size)),
            None => None,
        }
    }
    /// What one attempt at the rendezvous comes to, for a starting block
    /// that already carries this process's ready flag: the start time that
    /// the block holds afterwards, and whether the process can start.
    ///
    /// The coordinator schedules the start once, as soon as every process of
    /// its view is ready, and keeps to a start that is scheduled. Any other
    /// process starts once it sees a start scheduled that lies ahead.
    pub open spec fn rendezvous(&self, block: StartingBlockView, now: u64) -> Rendezvous {
        if self.coordinates() {
            match block.start_time {
                Some(t) => Rendezvous { scheduled: Some(t), start: Some(t) },
                None => if block.all_ready(self.view.processes@) {
                    Rendezvous {
                        scheduled: Some((now + self.startup_delay) as u64),
                        start: Some((now + self.startup_delay) as u64),
                    }
                } else {
                    Rendezvous { scheduled: None, start: None }
                },
            }
        } else {
            match block.start_time {
                Some(t) if t > now && self.view.processes@.len() > 0 => Rendezvous {
                    scheduled: Some(t),
                    start: Some(t),
                },
                _ => Rendezvous { scheduled: block.start_time, start: None },
            }
        }
    }

    /// Makes one attempt at the rendezvous before the first round, at time
    /// `now`, on the starting block of the master node.
    ///
    /// The process marks itself ready. It then returns the time at which the
    /// rounds start, or `None` where that is not settled yet: the caller
    /// tries again after a pause. A view without processes has no
    /// coordinator, and never starts.
    pub fn sync_start(&self, block: &mut StartingBlock, now: u64) -> (start: Option<u64>)
        requires
            self.id < MAX_PROCESSES,
            forall|k: int|
                0 <= k < self.view.processes@.len() ==> self.view.processes@[k] < MAX_PROCESSES,
            now + self.startup_delay <= u64::MAX,
        ensures
            old(block)@.ready.len() == MAX_PROCESSES,
            final(block)@.ready == old(block)@.ready.update(self.id as int, true),
            final(block)@.start_time == self.rendezvous(
                StartingBlockView {
                    ready: old(block)@.ready.update(self.id as int, true),
                    ..old(block)@
                },
                now,
            ).scheduled,
            start == self.rendezvous(
                StartingBlockView {
                    ready: old(block)@.ready.update(self.id as int, true),
                    ..old(block)@
                },
                now,
            ).start,
    {
        block.mark_ready(self.id);
        if self.view.processes.len() == 0 {
            proof {
                if self.coordinates() {
                    let pid = choose|pid: u32| #[trigger]
                        is_min_process(self.view.processes@, pid) && pid as usize == self.id;
                    assert(self.view.processes@.contains(pid));
                }
            }
            return None;
        }
        if self.is_coordinator() {
            match block.get_start_time() {
                Some(t) => Some(t),
                None => {
                    if block.all_ready(&self.view.processes) {
                        let start_time = now + self.startup_delay;
                        block.start_at(start_time);
                        Some(start_time)
                    } else {
                        None
                    }
                },
            }
        } else if block.start_is_scheduled(now) {
            block.get_start_time()
        } else {
            None
        }
    }
}

} // verus!
