//! A write-conflict checker per request: a hash table of fixed size that
//! maps a request's location to the processes that asked to write it.
//!
//! The table has one row per hash value; a row is searched from its start up
//! to the first slot that names no request. Location 0 stands for "no
//! request". The rows lie on the heap: the table is too large for a stack.

use crate::shmem::wcr::RequestSlot;
use crate::MAX_OBJECTS;
use crate::MAX_PROCESSES;
use vstd::prelude::*;

verus! {

/// The row that `key` hashes to.
pub open spec fn hash_of(key: usize) -> int {
    key as int % MAX_OBJECTS as int
}

/// Where a search for `key` in `row` ends that has reached column `i`: at
/// the first column that names `key`, or nowhere if a column that names no
/// request, or the end of the row, comes first.
pub open spec fn probe(row: Seq<RequestSlot>, key: usize, i: int) -> Option<int>
    decreases row.len() - i,
{
    if i < 0 || i >= row.len() {
        None
    } else if row[i].req_id == key {
        Some(i)
    } else if row[i].req_id == 0 {
        None
    } else {
        probe(row, key, i + 1)
    }
}

/// Rows that hold no request.
fn empty_rows() -> (rows: Vec<[RequestSlot; MAX_OBJECTS]>)
    ensures
        rows@.len() == MAX_OBJECTS,
        forall|r: int, c: int|
            0 <= r < MAX_OBJECTS && 0 <= c < MAX_OBJECTS ==> (#[trigger] rows@[r]@[c]).req_id == 0
                && rows@[r]@[c].count == 0 && rows@[r]@[c].wf(),
{
    let mut rows: Vec<[RequestSlot; MAX_OBJECTS]> = Vec::new();
    let mut r: usize = 0;
    while r < MAX_OBJECTS
        invariant
            r <= MAX_OBJECTS,
            rows@.len() == r,
            forall|k: int, c: int|
                0 <= k < r && 0 <= c < MAX_OBJECTS ==> (#[trigger] rows@[k]@[c]).req_id == 0
                    && rows@[k]@[c].count == 0 && rows@[k]@[c].wf(),
        decreases MAX_OBJECTS - r,
    {
        rows.push([RequestSlot::empty();MAX_OBJECTS]);
        r += 1;
    }
    rows
}

/// The hash table of the requests and of the processes behind each.
#[derive(Debug, Clone)]
pub struct WriteConflictChecker {
    /// The rows, `MAX_OBJECTS` of them.
    pub requests: Vec<[RequestSlot; MAX_OBJECTS]>,
}

impl WriteConflictChecker {
    pub open spec fn wf(self) -> bool {
        &&& self.requests@.len() == MAX_OBJECTS
        &&& forall|r: int, c: int|
            0 <= r < MAX_OBJECTS && 0 <= c < MAX_OBJECTS ==> (#[trigger] self.requests@[r]@[c]).wf()
    }

    /// The row that `key` hashes to.
    pub open spec fn row_of(self, key: usize) -> Seq<RequestSlot> {
        self.requests@[hash_of(key)]@
    }

    /// The column of `key` in its row, if the table holds the key.
    pub open spec fn column_of(self, key: usize) -> Option<int> {
        probe(self.row_of(key), key, 0)
    }

    /// The processes that the table holds for `key`.
    pub open spec fn members_of(self, key: usize) -> Option<Seq<usize>> {
        match self.column_of(key) {
            Some(c) => Some(self.row_of(key)[c].members()),
            None => None,
        }
    }

    /// A table that holds no request.
    pub fn new() -> (checker: WriteConflictChecker)
        ensures
            checker.wf(),
            forall|r: int, c: int|
                0 <= r < MAX_OBJECTS && 0 <= c < MAX_OBJECTS ==> (
                #[trigger] checker.requests@[r]@[c]).req_id == 0 && checker.requests@[r]@[c].count
                    == 0,
    {
        WriteConflictChecker { requests: empty_rows() }
    }

    /// The row that `key` hashes to.
    pub fn hash(&self, key: usize) -> (row: usize)
        ensures
            row == hash_of(key),
            row < MAX_OBJECTS,
    {
        key % MAX_OBJECTS
    }

    /// The column of `key` in its row.
    fn get_request(&self, key: usize) -> (column: Option<usize>)
        requires
            self.wf(),
        ensures
            match column {
                Some(c) => self.column_of(key) == Some(c as int) && c < MAX_OBJECTS,
                None => self.column_of(key) is None,
            },
    {
        let index = self.hash(key);
        let mut i: usize = 0;
        while i < MAX_OBJECTS
            invariant
                i <= MAX_OBJECTS,
                self.wf(),
                index == hash_of(key),
                self.column_of(key) == probe(self.row_of(key), key, i as int),
            decreases MAX_OBJECTS - i,
        {
            let slot = &self.requests[index][i];
            if slot.req_id == key {
                return Some(i);
            }
            if slot.req_id == 0 {
                return None;
            }
            i += 1;
        }
        None
    }

    /// Notes that process `pid` asks to write the location `req_id`. Where
    /// the table holds the request, the process joins those behind it unless
    /// it is among them. Where it does not, the request goes into the first
    /// column of its row, with `pid` as its only process.
    pub fn push_request(&mut self, req_id: usize, pid: usize)
        requires
            old(self).wf(),
            old(self).members_of(req_id) matches Some(members) ==> members.len() < MAX_PROCESSES
                || members.contains(pid),
        ensures
            final(self).wf(),
            forall|r: int|
                0 <= r < MAX_OBJECTS && r != hash_of(req_id) ==> final(self).requests@[r] == old(
                    self,
                ).requests@[r],
            forall|c: int|
                0 <= c < MAX_OBJECTS && old(self).column_of(req_id) != Some(c) && !(old(
                    self,
                ).column_of(req_id) is None && c == 0) ==> final(self).row_of(req_id)[c] == old(
                    self,
                ).row_of(req_id)[c],
            match old(self).members_of(req_id) {
                Some(members) => final(self).column_of(req_id) == old(self).column_of(req_id)
                    && final(self).members_of(req_id) == Some(
                    if members.contains(pid) {
                        members
                    } else {
                        members.push(pid)
                    },
                ),
                None => final(self).column_of(req_id) == Some(0int) && final(self).members_of(
                    req_id,
                ) == Some(seq![pid]),
            },
    {
        let index = self.hash(req_id);
        let mut row = self.requests[index];
        match self.get_request(req_id) {
            Some(c) => {
                let mut slot = row[c];
                assert(slot == old(self).requests@[index as int]@[c as int]);
                assert(slot.wf());
                slot.add_member(pid);
                row[c] = slot;
                self.requests.set(index, row);
                proof {
                    lemma_probe_unchanged(old(self).row_of(req_id), row@, req_id, 0, c as int);
                }
            },
            None => {
                let pids = [pid;MAX_PROCESSES];
                let slot = RequestSlot { req_id, pids, count: 1 };
                assert(slot.members() =~= seq![pid]);
                row[0] = slot;
                self.requests.set(index, row);
            },
        }
    }

    /// The processes that asked to write the location `req_id`, where the
    /// table holds the request and they are more than one.
    pub fn check_conflicts(&self, req_id: usize) -> (conflict: Option<Vec<usize>>)
        requires
            self.wf(),
        ensures
            match conflict {
                Some(pids) => self.members_of(req_id) == Some(pids@) && pids@.len() > 1,
                None => self.members_of(req_id) matches Some(members) ==> members.len() <= 1,
            },
    {
        let index = self.hash(req_id);
        match self.get_request(req_id) {
            Some(c) => {
                let slot = &self.requests[index][c];
                assert(*slot == self.requests@[index as int]@[c as int]);
                if slot.count > 1 {
                    Some(slot.to_vec())
                } else {
                    None
                }
            },
            None => None,
        }
    }

    /// Empties the table.
    pub fn clear(&mut self)
        ensures
            final(self).wf(),
            forall|r: int, c: int|
                0 <= r < MAX_OBJECTS && 0 <= c < MAX_OBJECTS ==> (
                #[trigger] final(self).requests@[r]@[c]).req_id == 0
                    && final(self).requests@[r]@[c].count == 0,
    {
        self.requests = empty_rows();
    }
}

/// A search ends where it did before if the row still names the same
/// requests up to that column.
proof fn lemma_probe_unchanged(
    before: Seq<RequestSlot>,
    after: Seq<RequestSlot>,
    key: usize,
    from: int,
    found: int,
)
    requires
        before.len() == after.len(),
        0 <= from <= found < before.len(),
        probe(before, key, from) == Some(found),
        forall|i: int| 0 <= i <= found ==> (#[trigger] after[i]).req_id == before[i].req_id,
    ensures
        probe(after, key, from) == Some(found),
    decreases found - from,
{
    if before[from].req_id != key {
        lemma_probe_at_least(before, key, from + 1, found);
        lemma_probe_unchanged(before, after, key, from + 1, found);
    } else {
        assert(after[from].req_id == key);
    }
}

/// A search does not end before the column where it starts.
proof fn lemma_probe_at_least(row: Seq<RequestSlot>, key: usize, from: int, found: int)
    requires
        probe(row, key, from) == Some(found),
    ensures
        from <= found < row.len(),
    decreases row.len() - from,
{
    if 0 <= from < row.len() && row[from].req_id != key && row[from].req_id != 0 {
        lemma_probe_at_least(row, key, from + 1, found);
    }
}

} // verus!
