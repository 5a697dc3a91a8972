//! Write-conflict checkers: shared registers in which every process
//! publishes the round of its latest write attempt, so that all processes
//! agree on who wrote last.

use crate::MAX_OBJECTS;
use crate::MAX_PROCESSES;
use vstd::prelude::*;

verus! {

/// What one process last announced: the object it wants to write and the
/// round in which it said so.
#[derive(Debug, Clone, Copy, PartialEq, Eq, Structural)]
pub struct ObjectWCCEntry {
    pub oid: usize,
    pub round: u64,
}

impl ObjectWCCEntry {
    pub fn new(oid: usize, round: u64) -> (entry: ObjectWCCEntry)
        ensures
            entry == (ObjectWCCEntry { oid, round }),
    {
        ObjectWCCEntry { oid, round }
    }
}

/// Slot `i` keeps process `pid`, which announced object `oid` in round
/// `round`, from being the last writer of `oid` in round `current_round`:
/// the slot names the same object and either a later round before the current
/// one, or the same round and a smaller process id.
pub open spec fn overrules(
    slots: Seq<ObjectWCCEntry>,
    i: int,
    oid: usize,
    current_round: u64,
    round: u64,
    pid: usize,
) -> bool {
    &&& slots[i].oid == oid
    &&& (round < slots[i].round < current_round || (slots[i].round == round && i < pid))
}

/// Process `pid`, which announced object `oid` in round `round`, is the last
/// writer of `oid` as seen in round `current_round`: no slot overrules it.
pub open spec fn is_last_writer(
    slots: Seq<ObjectWCCEntry>,
    oid: usize,
    current_round: u64,
    round: u64,
    pid: usize,
) -> bool {
    &&& pid <= MAX_PROCESSES
    &&& forall|i: int|
        0 <= i < slots.len() ==> !#[trigger] overrules(slots, i, oid, current_round, round, pid)
}

/// The write-conflict checker for all objects: one slot per process. A
/// process writes its own slot only.
#[derive(Debug, Clone, Copy)]
pub struct ObjectWCC {
    p_round: [ObjectWCCEntry; MAX_PROCESSES],
}

impl View for ObjectWCC {
    type V = Seq<ObjectWCCEntry>;

    closed spec fn view(&self) -> Seq<ObjectWCCEntry> {
        self.p_round@
    }
}

impl ObjectWCC {
    /// A table in which every slot names object 0 and round 0.
    pub fn new() -> (wcc: ObjectWCC)
        ensures
            wcc@.len() == MAX_PROCESSES,
            forall|i: int|
                0 <= i < MAX_PROCESSES ==> wcc@[i] == (ObjectWCCEntry { oid: 0, round: 0 }),
    {
        ObjectWCC { p_round: [ObjectWCCEntry { oid: 0, round: 0 };MAX_PROCESSES] }
    }

    /// Process `pid` announces a write to object `oid` in round `round`. A
    /// process id outside the table changes nothing.
    pub fn write(&mut self, oid: usize, round: u64, pid: usize)
        ensures
            old(self)@.len() == MAX_PROCESSES,
            final(self)@.len() == MAX_PROCESSES,
            pid < MAX_PROCESSES ==> final(self)@ == old(self)@.update(
                pid as int,
                ObjectWCCEntry { oid, round },
            ),
            pid >= MAX_PROCESSES ==> final(self)@ == old(self)@,
    {
        if pid >= MAX_PROCESSES {
            return ;
        }
        self.p_round[pid] = ObjectWCCEntry::new(oid, round);
    }

    /// Whether process `pid_in`, which announced object `oid_in` in round
    /// `round_in`, is the last writer of that object as of `current_round`.
    pub fn is_last(&self, oid_in: usize, current_round: u64, round_in: u64, pid_in: usize) -> (last:
        bool)
        ensures
            self@.len() == MAX_PROCESSES,
            last == is_last_writer(self@, oid_in, current_round, round_in, pid_in),
    {
        if pid_in > MAX_PROCESSES {
            return false;
        }
        let mut i: usize = 0;
        while i < MAX_PROCESSES
            invariant
                i <= MAX_PROCESSES,
                self@.len() == MAX_PROCESSES,
                forall|j: int|
                    0 <= j < i ==> !#[trigger] overrules(
                        self@,
                        j,
                        oid_in,
                        current_round,
                        round_in,
                        pid_in,
                    ),
            decreases MAX_PROCESSES - i,
        {
            let slot = self.p_round[i];
            if slot.oid == oid_in {
                if current_round > slot.round && slot.round > round_in {
                    assert(overrules(self@, i as int, oid_in, current_round, round_in, pid_in));
                    return false;
                }
                if slot.round == round_in && i < pid_in {
                    assert(overrules(self@, i as int, oid_in, current_round, round_in, pid_in));
                    return false;
                }
            }
            i += 1;
        }
        true
    }

    /// The slot of process `pid`.
    pub fn slot(&self, pid: usize) -> (entry: ObjectWCCEntry)
        requires
            pid < MAX_PROCESSES,
        ensures
            self@.len() == MAX_PROCESSES,
            entry == self@[pid as int],
    {
        self.p_round[pid]
    }
}

/// In one round and for one object, at most one process is the last writer:
/// of two processes that both announced object `oid` before round
/// `current_round` and read the same table, the check succeeds for one at
/// most.
pub proof fn lemma_at_most_one_last_writer(
    slots: Seq<ObjectWCCEntry>,
    oid: usize,
    current_round: u64,
    p: usize,
    p_round: u64,
    q: usize,
    q_round: u64,
)
    requires
        slots.len() == MAX_PROCESSES,
        p < MAX_PROCESSES,
        q < MAX_PROCESSES,
        p != q,
        slots[p as int] == (ObjectWCCEntry { oid, round: p_round }),
        slots[q as int] == (ObjectWCCEntry { oid, round: q_round }),
        p_round < current_round,
        q_round < current_round,
    ensures
        !(is_last_writer(slots, oid, current_round, p_round, p) && is_last_writer(
            slots,
            oid,
            current_round,
            q_round,
            q,
        )),
{
    if p_round < q_round || (p_round == q_round && q < p) {
        assert(overrules(slots, q as int, oid, current_round, p_round, p));
    } else {
        assert(overrules(slots, p as int, oid, current_round, q_round, q));
    }
}

/// A process that alone announced an object is its last writer: where no
/// other slot names `oid`, the check succeeds for the process whose slot
/// holds `(oid, round)`.
pub proof fn lemma_sole_writer_is_last(
    slots: Seq<ObjectWCCEntry>,
    oid: usize,
    current_round: u64,
    round: u64,
    pid: usize,
)
    requires
        slots.len() == MAX_PROCESSES,
        pid < MAX_PROCESSES,
        slots[pid as int] == (ObjectWCCEntry { oid, round }),
        forall|i: int| 0 <= i < slots.len() && i != pid ==> (#[trigger] slots[i]).oid != oid,
    ensures
        is_last_writer(slots, oid, current_round, round, pid),
{
}

/// Slot `i` holds an announcement for object `oid` from before round
/// `current_round`.
pub open spec fn announced_before(
    slots: Seq<ObjectWCCEntry>,
    i: int,
    oid: usize,
    current_round: u64,
) -> bool {
    0 <= i < slots.len() && slots[i].oid == oid && slots[i].round < current_round
}

/// Among the first `n` slots, the one that holds the latest announcement for
/// `oid` from before round `current_round`, and of several the lowest; -1 if
/// none holds such an announcement.
pub open spec fn latest_announcer(
    slots: Seq<ObjectWCCEntry>,
    oid: usize,
    current_round: u64,
    n: int,
) -> int
    decreases n,
{
    if n <= 0 {
        -1
    } else {
        let before = latest_announcer(slots, oid, current_round, n - 1);
        if announced_before(slots, n - 1, oid, current_round) && (before < 0 || slots[n - 1].round
            > slots[before].round) {
            n - 1
        } else {
            before
        }
    }
}

proof fn lemma_latest_announcer(slots: Seq<ObjectWCCEntry>, oid: usize, current_round: u64, n: int)
    requires
        0 <= n <= slots.len(),
    ensures
        ({
            let best = latest_announcer(slots, oid, current_round, n);
            &&& -1 <= best < n
            &&& best >= 0 ==> announced_before(slots, best, oid, current_round)
            &&& forall|j: int|
                0 <= j < n && #[trigger] announced_before(slots, j, oid, current_round) ==> best >= 0
                    && (slots[j].round < slots[best].round || (slots[j].round == slots[best].round
                    && best <= j))
        }),
    decreases n,
{
    if n > 0 {
        lemma_latest_announcer(slots, oid, current_round, n - 1);
    }
}

/// In every round and for every object that some process has announced
/// before, some process is the last writer: the one that announced the
/// object latest, and of several the one with the smallest id. Together
/// with [`lemma_at_most_one_last_writer`]: exactly one.
pub proof fn lemma_some_writer_is_last(slots: Seq<ObjectWCCEntry>, oid: usize, current_round: u64)
    requires
        slots.len() == MAX_PROCESSES,
        exists|i: int| #[trigger] announced_before(slots, i, oid, current_round),
    ensures
        ({
            let p = latest_announcer(slots, oid, current_round, slots.len() as int);
            &&& announced_before(slots, p, oid, current_round)
            &&& is_last_writer(slots, oid, current_round, slots[p].round, p as usize)
        }),
{
    let p = latest_announcer(slots, oid, current_round, slots.len() as int);
    lemma_latest_announcer(slots, oid, current_round, slots.len() as int);
    let i = choose|i: int| #[trigger] announced_before(slots, i, oid, current_round);
    assert(announced_before(slots, i, oid, current_round));
    assert forall|k: int| 0 <= k < slots.len() implies !#[trigger] overrules(
        slots,
        k,
        oid,
        current_round,
        slots[p].round,
        p as usize,
    ) by {
        if overrules(slots, k, oid, current_round, slots[p].round, p as usize) {
            assert(announced_before(slots, k, oid, current_round));
        }
    }
}

/// Slot `i` keeps process `pid`, which wrote in round `round`, from being the
/// last writer in round `current_round` of a single-object checker.
pub open spec fn overrules_round(
    rounds: Seq<u64>,
    i: int,
    current_round: u64,
    round: u64,
    pid: usize,
) -> bool {
    round < rounds[i] < current_round || (rounds[i] == round && i < pid)
}

/// The write-conflict checker of a single object: the round of each process's
/// latest write attempt.
#[derive(Debug, Clone, Copy)]
pub struct WCC {
    p_round: [u64; MAX_PROCESSES],
}

impl View for WCC {
    type V = Seq<u64>;

    closed spec fn view(&self) -> Seq<u64> {
        self.p_round@
    }
}

impl WCC {
    /// The rounds of a checker that no process has written to.
    pub open spec fn fresh() -> Seq<u64> {
        Seq::new(MAX_PROCESSES as nat, |i: int| 0u64)
    }

    /// A table in which every process stands at round 0.
    pub fn new() -> (wcc: WCC)
        ensures
            wcc@ == WCC::fresh(),
    {
        let wcc = WCC { p_round: [0u64;MAX_PROCESSES] };
        assert(wcc@ =~= WCC::fresh());
        wcc
    }

    /// Process `pid` announces a write in round `round`. A process id outside
    /// the table changes nothing.
    pub fn write(&mut self, round: u64, pid: usize)
        ensures
            old(self)@.len() == MAX_PROCESSES,
            final(self)@.len() == MAX_PROCESSES,
            pid < MAX_PROCESSES ==> final(self)@ == old(self)@.update(pid as int, round),
            pid >= MAX_PROCESSES ==> final(self)@ == old(self)@,
    {
        if pid >= MAX_PROCESSES {
            return ;
        }
        self.p_round[pid] = round;
    }

    /// Whether process `pid` is the last writer as of `current_round`: its
    /// slot holds `round`, no process wrote in a later round before the
    /// current one, and no process with a smaller id wrote in `round` too.
    pub fn is_last(&self, current_round: u64, round: u64, pid: usize) -> (last: bool)
        requires
            pid != MAX_PROCESSES,
        ensures
            self@.len() == MAX_PROCESSES,
            last <==> {
                &&& pid < MAX_PROCESSES
                &&& self@[pid as int] == round
                &&& forall|i: int|
                    0 <= i < MAX_PROCESSES ==> !#[trigger] overrules_round(
                        self@,
                        i,
                        current_round,
                        round,
                        pid,
                    )
            },
    {
        if pid > MAX_PROCESSES {
            return false;
        }
        let mut i: usize = 0;
        while i < MAX_PROCESSES
            invariant
                i <= MAX_PROCESSES,
                self@.len() == MAX_PROCESSES,
                forall|j: int|
                    0 <= j < i ==> !#[trigger] overrules_round(self@, j, current_round, round, pid),
            decreases MAX_PROCESSES - i,
        {
            let r = self.p_round[i];
            if current_round > r && r > round {
                assert(overrules_round(self@, i as int, current_round, round, pid));
                return false;
            }
            if r == round && i < pid {
                assert(overrules_round(self@, i as int, current_round, round, pid));
                return false;
            }
            i += 1;
        }
        self.p_round[pid] == round
    }
}

/// The mathematical content of a [`WCCMultiObject`].
pub struct WCCMultiObjectView {
    /// The object id that each checker belongs to.
    pub index_oids: Seq<usize>,
    /// The checkers, each by its rounds.
    pub objects: Seq<Seq<u64>>,
    /// How many objects were added.
    pub objects_count: nat,
}

impl WCCMultiObjectView {
    /// Slot `i` is the lowest slot that belongs to object `oid`.
    pub open spec fn first_slot_of(self, i: int, oid: usize) -> bool {
        &&& 0 <= i < MAX_OBJECTS
        &&& self.index_oids[i] == oid
        &&& forall|j: int| 0 <= j < i ==> self.index_oids[j] != oid
    }
}

/// One single-object checker per object, found by the object's id.
#[derive(Debug, Clone, Copy)]
pub struct WCCMultiObject {
    index_oids: [usize; MAX_OBJECTS],
    objects: [WCC; MAX_OBJECTS],
    objects_count: usize,
}

impl View for WCCMultiObject {
    type V = WCCMultiObjectView;

    closed spec fn view(&self) -> WCCMultiObjectView {
        WCCMultiObjectView {
            index_oids: self.index_oids@,
            objects: Seq::new(MAX_OBJECTS as nat, |i: int| self.objects@[i]@),
            objects_count: self.objects_count as nat,
        }
    }
}

impl WCCMultiObject {
    /// No object was added; every slot names object 0 and holds a fresh
    /// checker.
    pub fn new() -> (m: WCCMultiObject)
        ensures
            m@.objects_count == 0,
            m@.index_oids.len() == MAX_OBJECTS,
            m@.objects.len() == MAX_OBJECTS,
            forall|i: int| 0 <= i < MAX_OBJECTS ==> m@.index_oids[i] == 0,
            forall|i: int| 0 <= i < MAX_OBJECTS ==> m@.objects[i] == WCC::fresh(),
    {
        WCCMultiObject {
            index_oids: [0usize;MAX_OBJECTS],
            objects: [WCC::new();MAX_OBJECTS],
            objects_count: 0,
        }
    }

    /// Gives the next free slot to object `oid`.
    pub fn add_object(&mut self, oid: usize)
        requires
            old(self)@.objects_count < MAX_OBJECTS,
        ensures
            old(self)@.index_oids.len() == MAX_OBJECTS,
            old(self)@.objects.len() == MAX_OBJECTS,
            final(self)@.index_oids == old(self)@.index_oids.update(
                old(self)@.objects_count as int,
                oid,
            ),
            final(self)@.objects == old(self)@.objects,
            final(self)@.objects_count == old(self)@.objects_count + 1,
    {
        self.index_oids[self.objects_count] = oid;
        self.objects_count += 1;
        assert(final(self)@.objects =~= old(self)@.objects);
    }

    /// The checker of object `oid`: the one in the lowest slot that names
    /// `oid`.
    pub fn get_object_wcc(&mut self, oid: usize) -> (r: Option<&mut WCC>)
        ensures
            old(self)@.index_oids.len() == MAX_OBJECTS,
            old(self)@.objects.len() == MAX_OBJECTS,
            match r {
                Some(wcc) => exists|i: int|
                    {
                        &&& #[trigger] old(self)@.first_slot_of(i, oid)
                        &&& wcc@ == old(self)@.objects[i]
                        &&& final(self)@.objects =~= old(self)@.objects.update(i, final(wcc)@)
                        &&& final(self)@.index_oids == old(self)@.index_oids
                        &&& final(self)@.objects_count == old(self)@.objects_count
                    },
                None => {
                    &&& final(self)@ == old(self)@
                    &&& forall|i: int| 0 <= i < MAX_OBJECTS ==> old(self)@.index_oids[i] != oid
                },
            },
    {
        let mut i: usize = 0;
        while i < MAX_OBJECTS
            invariant
                i <= MAX_OBJECTS,
                *self == *old(self),
                forall|j: int| 0 <= j < i ==> self@.index_oids[j] != oid,
            decreases MAX_OBJECTS - i,
        {
            if self.index_oids[i] == oid {
                assert(self@.first_slot_of(i as int, oid));
                return Some(&mut self.objects[i]);
            }
            i += 1;
        }
        None
    }

    /// Puts a fresh checker into every slot; the slots keep their objects.
    pub fn clear(&mut self)
        ensures
            final(self)@.index_oids == old(self)@.index_oids,
            final(self)@.index_oids.len() == MAX_OBJECTS,
            final(self)@.objects_count == old(self)@.objects_count,
            final(self)@.objects.len() == MAX_OBJECTS,
            forall|i: int| 0 <= i < MAX_OBJECTS ==> final(self)@.objects[i] == WCC::fresh(),
    {
        self.objects = [WCC::new();MAX_OBJECTS];
    }
}

} // verus!
