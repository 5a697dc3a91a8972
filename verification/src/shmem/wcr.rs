//! The write-conflict referee: a table of the processes that asked to write
//! each request's location, kept in the order of arrival.

use crate::MAX_OBJECTS;
use crate::MAX_PROCESSES;
use vstd::prelude::*;

verus! {

/// The processes that asked to write the location `req_id`.
#[derive(Debug, Clone, Copy)]
pub struct RequestSlot {
    pub req_id: usize,
    /// The processes, of which the first `count` are meant.
    pub pids: [usize; MAX_PROCESSES],
    pub count: usize,
}

impl RequestSlot {
    /// The processes of the slot.
    pub open spec fn members(self) -> Seq<usize> {
        self.pids@.take(self.count as int)
    }

    pub open spec fn wf(self) -> bool {
        self.count <= MAX_PROCESSES
    }

    /// A slot that names no request and no process.
    pub fn empty() -> (slot: RequestSlot)
        ensures
            slot.req_id == 0,
            slot.count == 0,
            slot.wf(),
            forall|j: int| 0 <= j < MAX_PROCESSES ==> slot.pids@[j] == 0,
    {
        RequestSlot { req_id: 0, pids: [0usize;MAX_PROCESSES], count: 0 }
    }

    /// Whether `pid` is among the processes of the slot.
    pub fn has_member(&self, pid: usize) -> (found: bool)
        requires
            self.wf(),
        ensures
            found == self.members().contains(pid),
    {
        let mut j: usize = 0;
        while j < self.count
            invariant
                j <= self.count <= MAX_PROCESSES,
                forall|m: int| 0 <= m < j ==> self.pids@[m] != pid,
            decreases self.count - j,
        {
            if self.pids[j] == pid {
                assert(self.members()[j as int] == pid);
                return true;
            }
            j += 1;
        }
        false
    }

    /// Adds `pid` behind the processes of the slot, unless it is among them.
    pub fn add_member(&mut self, pid: usize)
        requires
            old(self).wf(),
            old(self).count < MAX_PROCESSES || old(self).members().contains(pid),
        ensures
            final(self).wf(),
            final(self).req_id == old(self).req_id,
            final(self).members() == if old(self).members().contains(pid) {
                old(self).members()
            } else {
                old(self).members().push(pid)
            },
    {
        if self.has_member(pid) {
            return ;
        }
        self.pids[self.count] = pid;
        self.count += 1;
        assert(final(self).members() =~= old(self).members().push(pid));
    }

    /// The processes of the slot, in the order in which they came.
    pub fn to_vec(&self) -> (members: Vec<usize>)
        requires
            self.wf(),
        ensures
            members@ == self.members(),
    {
        let mut members: Vec<usize> = Vec::new();
        let mut j: usize = 0;
        while j < self.count
            invariant
                j <= self.count <= MAX_PROCESSES,
                members@ == self.pids@.take(j as int),
            decreases self.count - j,
        {
            members.push(self.pids[j]);
            assert(self.pids@.take(j + 1) =~= self.pids@.take(j as int).push(self.pids@[j as int]));
            j += 1;
        }
        members
    }
}

/// The requests that the referee keeps track of, and who asked for each.
#[derive(Debug, Clone, Copy)]
pub struct WriteConflictReferee {
    pub requests: [RequestSlot; MAX_OBJECTS],
    /// How many slots are in use.
    pub requests_count: usize,
}

impl WriteConflictReferee {
    pub open spec fn wf(self) -> bool {
        &&& self.requests_count <= MAX_OBJECTS
        &&& forall|i: int| 0 <= i < MAX_OBJECTS ==> (#[trigger] self.requests@[i]).wf()
    }

    /// Slot `i` is the first slot in use that names `req_id`.
    pub open spec fn tracks_at(self, i: int, req_id: usize) -> bool {
        &&& 0 <= i < self.requests_count
        &&& self.requests@[i].req_id == req_id
        &&& forall|k: int| 0 <= k < i ==> self.requests@[k].req_id != req_id
    }

    /// Slot `i` is the first slot in use that names `req_id` and holds more
    /// than one process.
    pub open spec fn conflict_at(self, i: int, req_id: usize) -> bool {
        &&& 0 <= i < self.requests_count
        &&& self.requests@[i].req_id == req_id
        &&& self.requests@[i].count > 1
        &&& forall|k: int|
            0 <= k < i ==> !(self.requests@[k].req_id == req_id && self.requests@[k].count > 1)
    }

    /// `after` is the referee once process `pid` was noted for the location
    /// `req_id`: the process has joined those of the first slot in use that
    /// names the request, unless it was among them; all else is as it was.
    pub open spec fn after_push(self, req_id: usize, pid: usize, after: WriteConflictReferee)
        -> bool {
        &&& after.requests_count == self.requests_count
        &&& forall|i: int|
            0 <= i < MAX_OBJECTS && !self.tracks_at(i, req_id) ==> after.requests@[i]
                == self.requests@[i]
        &&& forall|i: int|
            self.tracks_at(i, req_id) ==> {
                &&& (#[trigger] after.requests@[i]).req_id == req_id
                &&& after.requests@[i].members() == if self.requests@[i].members().contains(pid) {
                    self.requests@[i].members()
                } else {
                    self.requests@[i].members().push(pid)
                }
            }
    }

    /// A referee that tracks no request.
    pub fn new() -> (referee: WriteConflictReferee)
        ensures
            referee.wf(),
            referee.requests_count == 0,
            forall|i: int|
                0 <= i < MAX_OBJECTS ==> (#[trigger] referee.requests@[i]).req_id == 0
                    && referee.requests@[i].count == 0,
    {
        WriteConflictReferee { requests: [RequestSlot::empty();MAX_OBJECTS], requests_count: 0 }
    }

    /// The first slot in use that names `req_id`.
    fn find(&self, req_id: usize) -> (found: Option<usize>)
        requires
            self.wf(),
        ensures
            match found {
                Some(i) => self.tracks_at(i as int, req_id),
                None => forall|i: int| !self.tracks_at(i, req_id),
            },
    {
        let mut i: usize = 0;
        while i < self.requests_count
            invariant
                i <= self.requests_count <= MAX_OBJECTS,
                forall|k: int| 0 <= k < i ==> self.requests@[k].req_id != req_id,
            decreases self.requests_count - i,
        {
            if self.requests[i].req_id == req_id {
                return Some(i);
            }
            i += 1;
        }
        None
    }

    /// Notes that process `pid` asks to write the location `req_id`. The
    /// process joins those of the first slot in use that names the request,
    /// unless it is among them already. A request that no slot in use names
    /// is not taken up.
    pub fn push_request(&mut self, req_id: usize, pid: usize)
        requires
            old(self).wf(),
            forall|i: int|
                old(self).tracks_at(i, req_id) ==> old(self).requests@[i].count < MAX_PROCESSES
                    || old(self).requests@[i].members().contains(pid),
        ensures
            final(self).wf(),
            old(self).after_push(req_id, pid, *final(self)),
    {
        match self.find(req_id) {
            Some(i) => {
                let mut slot = self.requests[i];
                slot.add_member(pid);
                self.requests[i] = slot;
                assert forall|k: int| old(self).tracks_at(k, req_id) implies k == i by {}
            },
            None => {},
        }
    }

    /// The processes that asked to write the location `req_id`, where they
    /// are more than one: those of the first slot in use that names the
    /// request and holds several processes.
    pub fn check_conflicts(&self, req_id: usize) -> (conflict: Option<Vec<usize>>)
        requires
            self.wf(),
        ensures
            match conflict {
                Some(pids) => exists|i: int| #[trigger]
                    self.conflict_at(i, req_id) && pids@ == self.requests@[i].members(),
                None => forall|i: int| !self.conflict_at(i, req_id),
            },
    {
        let mut i: usize = 0;
        while i < self.requests_count
            invariant
                i <= self.requests_count <= MAX_OBJECTS,
                self.wf(),
                forall|k: int|
                    0 <= k < i ==> !(self.requests@[k].req_id == req_id && self.requests@[k].count
                        > 1),
            decreases self.requests_count - i,
        {
            if self.requests[i].req_id == req_id {
                let array_len = self.requests[i].count;
                if array_len > 1 {
                    assert(self.conflict_at(i as int, req_id));
                    assert(self.requests@[i as int].wf());
                    return Some(self.requests[i].to_vec());
                }
            }
            i += 1;
        }
        None
    }
}

} // verus!
