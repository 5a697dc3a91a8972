//! The membership of the group as one process sees it.

use crate::shmem::MemoryNode;
use vstd::prelude::*;

verus! {

/// The processes and memory nodes of the group, and which of the processes
/// this one is.
///
/// Two views are equal where they hold the same processes, in whatever
/// order, and the same memory nodes in the same order. Which process looks
/// does not count.
#[derive(Clone, Debug)]
pub struct GroupView {
    pub self_id: usize,
    pub processes: Vec<u32>,
    pub memory_nodes: Vec<MemoryNode>,
}

/// `pid` is the smallest element of `processes`.
pub open spec fn is_min_process(processes: Seq<u32>, pid: u32) -> bool {
    &&& processes.contains(pid)
    &&& forall|k: int| 0 <= k < processes.len() ==> pid <= processes[k]
}

/// `processes` with `pid` added behind, unless it is there already.
pub open spec fn with_process(processes: Seq<u32>, pid: u32) -> Seq<u32> {
    if processes.contains(pid) {
        processes
    } else {
        processes.push(pid)
    }
}

/// `processes` with each of `pids` added in turn.
pub open spec fn with_processes(processes: Seq<u32>, pids: Seq<u32>) -> Seq<u32>
    decreases pids.len(),
{
    if pids.len() == 0 {
        processes
    } else {
        with_process(with_processes(processes, pids.drop_last()), pids.last())
    }
}

/// Node `i` is the first node of `nodes` with the smallest id.
pub open spec fn is_master_index(nodes: Seq<MemoryNode>, i: int) -> bool {
    &&& 0 <= i < nodes.len()
    &&& forall|k: int| 0 <= k < nodes.len() ==> nodes[i].id <= nodes[k].id
    &&& forall|k: int| 0 <= k < i ==> nodes[i].id < nodes[k].id
}

/// Every element of `a` is an element of `b`.
pub open spec fn subset_of(a: Seq<u32>, b: Seq<u32>) -> bool {
    forall|k: int| 0 <= k < a.len() ==> b.contains(#[trigger] a[k])
}

/// `a` and `b` hold matching nodes at every index.
pub open spec fn same_nodes(a: Seq<MemoryNode>, b: Seq<MemoryNode>) -> bool {
    &&& a.len() == b.len()
    &&& forall|k: int| 0 <= k < a.len() ==> (#[trigger] a[k]).matches(&b[k])
}

/// Whether every element of `a` is an element of `b`.
fn is_subset(a: &Vec<u32>, b: &Vec<u32>) -> (r: bool)
    ensures
        r == subset_of(a@, b@),
{
    let mut k: usize = 0;
    while k < a.len()
        invariant
            k <= a.len(),
            forall|m: int| 0 <= m < k ==> b@.contains(#[trigger] a[m]),
        decreases a.len() - k,
    {
        let mut found = false;
        let mut j: usize = 0;
        while j < b.len()
            invariant
                j <= b.len(),
                k < a.len(),
                found <==> exists|m: int| 0 <= m < j && b[m] == a[k as int],
            decreases b.len() - j,
        {
            if b[j] == a[k] {
                found = true;
            }
            j += 1;
        }
        if !found {
            assert(!b@.contains(a[k as int]));
            return false;
        }
        k += 1;
    }
    true
}

impl PartialEq for GroupView {
    fn eq(&self, other: &GroupView) -> (r: bool) {
        if !is_subset(&self.processes, &other.processes) {
            return false;
        }
        if !is_subset(&other.processes, &self.processes) {
            return false;
        }
        if self.memory_nodes.len() != other.memory_nodes.len() {
            return false;
        }
        let mut k: usize = 0;
        while k < self.memory_nodes.len()
            invariant
                k <= self.memory_nodes.len(),
                self.memory_nodes.len() == other.memory_nodes.len(),
                forall|m: int|
                    0 <= m < k ==> (#[trigger] self.memory_nodes[m]).matches(
                        &other.memory_nodes[m],
                    ),
            decreases self.memory_nodes.len() - k,
        {
            if !self.memory_nodes[k].same_as(&other.memory_nodes[k]) {
                return false;
            }
            k += 1;
        }
        true
    }
}

impl vstd::std_specs::cmp::PartialEqSpecImpl for GroupView {
    open spec fn obeys_eq_spec() -> bool {
        true
    }

    open spec fn eq_spec(&self, other: &GroupView) -> bool {
        &&& subset_of(self.processes@, other.processes@)
        &&& subset_of(other.processes@, self.processes@)
        &&& same_nodes(self.memory_nodes@, other.memory_nodes@)
    }
}

impl GroupView {
    /// No process occurs twice.
    pub open spec fn wf(&self) -> bool {
        self.processes@.no_duplicates()
    }

    /// A view without processes and memory nodes.
    pub fn new(self_id: usize) -> (view: GroupView)
        ensures
            view.self_id == self_id,
            view.processes@.len() == 0,
            view.memory_nodes@.len() == 0,
            view.wf(),
    {
        GroupView { self_id, processes: Vec::new(), memory_nodes: Vec::new() }
    }

    /// Whether `pid` belongs to the group.
    pub fn has_process(&self, pid: u32) -> (found: bool)
        ensures
            found == self.processes@.contains(pid),
    {
        let mut k: usize = 0;
        while k < self.processes.len()
            invariant
                k <= self.processes.len(),
                forall|m: int| 0 <= m < k ==> self.processes[m] != pid,
            decreases self.processes.len() - k,
        {
            if self.processes[k] == pid {
                return true;
            }
            k += 1;
        }
        false
    }

    /// Adds `pid` to the group unless it is a member already.
    pub fn add_process(&mut self, pid: u32)
        requires
            old(self).wf(),
        ensures
            final(self).wf(),
            final(self).self_id == old(self).self_id,
            final(self).memory_nodes == old(self).memory_nodes,
            final(self).processes@ == with_process(old(self).processes@, pid),
    {
        if !self.has_process(pid) {
            self.processes.push(pid);
        }
    }

    /// The coordinator: the process with the smallest id. A group without
    /// processes has none.
    pub fn get_coordinator(&self) -> (coordinator: Option<u32>)
        ensures
            match coordinator {
                Some(pid) => is_min_process(self.processes@, pid),
                None => self.processes@.len() == 0,
            },
    {
        if self.processes.len() == 0 {
            return None;
        }
        let mut best: u32 = self.processes[0];
        let mut k: usize = 1;
        while k < self.processes.len()
            invariant
                1 <= k <= self.processes.len(),
                self.processes@.contains(best),
                forall|m: int| 0 <= m < k ==> best <= self.processes[m],
            decreases self.processes.len() - k,
        {
            if self.processes[k] < best {
                best = self.processes[k];
            }
            k += 1;
        }
        Some(best)
    }

    /// The master node: the memory node with the smallest id, the first of
    /// them where several share it. A group without memory nodes has none.
    pub fn get_master_node(&self) -> (master: Option<&MemoryNode>)
        ensures
            match master {
                Some(node) => exists|i: int|
                    #[trigger] is_master_index(self.memory_nodes@, i) && *node
                        == self.memory_nodes[i],
                None => self.memory_nodes@.len() == 0,
            },
    {
        if self.memory_nodes.len() == 0 {
            return None;
        }
        let mut best: usize = 0;
        let mut k: usize = 1;
        while k < self.memory_nodes.len()
            invariant
                1 <= k <= self.memory_nodes.len(),
                0 <= best < k,
                forall|m: int| 0 <= m < k ==> self.memory_nodes[best as int].id
                    <= self.memory_nodes[m].id,
                forall|m: int| 0 <= m < best ==> self.memory_nodes[best as int].id
                    < self.memory_nodes[m].id,
            decreases self.memory_nodes.len() - k,
        {
            if self.memory_nodes[k].id < self.memory_nodes[best].id {
                best = k;
            }
            k += 1;
        }
        assert(is_master_index(self.memory_nodes@, best as int));
        Some(&self.memory_nodes[best])
    }
}

} // verus!
