//! The layout of a memory node: the shared control structures at its start
//! and the object area behind them.

use vstd::prelude::*;

pub mod allocator;
pub mod starting_block;
pub mod wcc;
pub mod wcc_per_req;
pub mod wcr;

use allocator::Allocator;
use allocator::AllocatorView;
use starting_block::StartingBlock;
use wcc::ObjectWCC;

verus! {

/// The control structures shared by all processes. Every memory node holds a
/// copy at the start of its region; the copy on the master node is the one
/// that counts.
#[derive(Debug, Clone, Copy)]
pub struct SharedState {
    pub allocator: Allocator,
    pub starting_block: StartingBlock,
    pub owcc: ObjectWCC,
}

impl SharedState {
    /// The state of a group that has allocated nothing, marked no process
    /// ready and announced no write.
    pub fn new(total_size: usize, chunk_size: usize) -> (state: SharedState)
        ensures
            state.allocator@ == AllocatorView::empty(total_size as nat, chunk_size as nat),
            state.allocator@.wf() <==> chunk_size > 0,
            state.starting_block@.start_time is None,
            state.starting_block@.ready.len() == crate::MAX_PROCESSES,
            forall|pid: int| 0 <= pid < crate::MAX_PROCESSES ==> !state.starting_block@.ready[pid],
            state.owcc@.len() == crate::MAX_PROCESSES,
            forall|pid: int|
                0 <= pid < crate::MAX_PROCESSES ==> state.owcc@[pid] == (wcc::ObjectWCCEntry {
                    oid: 0,
                    round: 0,
                }),
    {
        SharedState {
            allocator: Allocator::new(total_size, chunk_size),
            starting_block: StartingBlock::new(),
            owcc: ObjectWCC::new(),
        }
    }

    pub fn get_starting_block(&mut self) -> (block: &mut StartingBlock)
        ensures
            *block == old(self).starting_block,
            *final(self) == (SharedState { starting_block: *final(block), ..*old(self) }),
    {
        &mut self.starting_block
    }

    pub fn get_owcc(&mut self) -> (owcc: &mut ObjectWCC)
        ensures
            *owcc == old(self).owcc,
            *final(self) == (SharedState { owcc: *final(owcc), ..*old(self) }),
    {
        &mut self.owcc
    }
}

/// Number of bytes that the shared state takes at the start of a region.
pub fn state_size() -> (n: usize)
    ensures
        n == vstd::layout::size_of::<SharedState>(),
{
    core::mem::size_of::<SharedState>()
}

/// What backs a memory node.
#[derive(PartialEq, Eq, Debug, Hash, Clone, Copy, Structural)]
pub enum MemoryType {
    Numa,
    File,
}

/// One shared memory region: the shared state at its start, the object area
/// behind it. The value describes the region; mapping it is the caller's
/// business.
#[derive(PartialEq, Eq, Debug, Hash, Clone)]
pub struct MemoryNode {
    pub id: usize,
    pub type_: MemoryType,
    pub path: String,
    pub size: usize,
}

impl MemoryNode {
    /// The node `id` of `size` bytes that the file at `path` backs.
    pub fn from_file(id: usize, path: &str, size: usize) -> (node: MemoryNode)
        requires
            size > vstd::layout::size_of::<SharedState>(),
        ensures
            node.id == id,
            node.type_ == MemoryType::File,
            node.path@ == path@,
            node.size == size,
    {
        MemoryNode { id, type_: MemoryType::File, path: path.to_owned(), size }
    }

    /// The node `id` of `size` bytes in memory local to one NUMA node. Such a
    /// region belongs to one process and is shared with nobody.
    pub fn from_numa(id: usize, size: usize, numa_node: i32) -> (node: MemoryNode)
        ensures
            node.id == id,
            node.type_ == MemoryType::Numa,
            node.path@.len() == 0,
            node.size == size,
    {
        MemoryNode { id, type_: MemoryType::Numa, path: String::new(), size }
    }

    /// `self` and `other` describe the same region.
    pub open spec fn matches(&self, other: &MemoryNode) -> bool {
        &&& self.id == other.id
        &&& self.type_ == other.type_
        &&& self.path@ == other.path@
        &&& self.size == other.size
    }

    /// Whether `self` and `other` describe the same region.
    pub fn same_as(&self, other: &MemoryNode) -> (same: bool)
        ensures
            same == self.matches(other),
    {
        self.id == other.id && self.type_ == other.type_ && self.path == other.path && self.size
            == other.size
    }

    /// Where the byte at `offset` of the object area lies, counted from the
    /// start of the region.
    pub fn addr_at(&self, offset: usize) -> (addr: usize)
        requires
            offset < self.size,
            self.size + vstd::layout::size_of::<SharedState>() <= usize::MAX,
        ensures
            addr == vstd::layout::size_of::<SharedState>() + offset,
    {
        state_size() + offset
    }
}

} // verus!
