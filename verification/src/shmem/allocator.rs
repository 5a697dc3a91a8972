//! The object index: a fixed table that maps object ids to chunk-aligned
//! ranges of the object area, filled first-fit.

use crate::MAX_OBJECTS;
use vstd::arithmetic::div_mod::lemma_fundamental_div_mod;
use vstd::arithmetic::div_mod::lemma_fundamental_div_mod_converse;
use vstd::prelude::*;

verus! {

/// Where an object lives in the object area of every memory node.
#[derive(Debug, Clone, Copy, PartialEq, Eq, Structural)]
pub struct ObjectInfo {
    pub id: usize,
    pub offset: usize,
    pub size: usize,
}

impl ObjectInfo {
    pub fn new(id: usize, offset: usize, size: usize) -> (info: ObjectInfo)
        ensures
            info == (ObjectInfo { id, offset, size }),
    {
        ObjectInfo { id, offset, size }
    }
}

/// `size` rounded up to the next multiple of `chunk`.
pub open spec fn rounded_size(size: int, chunk: int) -> int {
    ((size + chunk - 1) / chunk) * chunk
}

/// Sum of the sizes of all entries in `slots`.
pub open spec fn sum_sizes(slots: Seq<Option<ObjectInfo>>) -> nat
    decreases slots.len(),
{
    if slots.len() == 0 {
        0
    } else {
        sum_sizes(slots.drop_last()) + match slots.last() {
            Some(e) => e.size as nat,
            None => 0,
        }
    }
}

/// The mathematical content of an [`Allocator`].
pub struct AllocatorView {
    pub total_size: nat,
    pub allocated_size: nat,
    pub chunk_size: nat,
    pub slots: Seq<Option<ObjectInfo>>,
}

impl AllocatorView {
    /// An index without entries.
    pub open spec fn empty(total_size: nat, chunk_size: nat) -> AllocatorView {
        AllocatorView {
            total_size,
            allocated_size: 0,
            chunk_size,
            slots: Seq::new(MAX_OBJECTS as nat, |i: int| None),
        }
    }

    /// Slot `i` holds the entry of object `id`.
    pub open spec fn holds(self, i: int, id: usize) -> bool {
        0 <= i < self.slots.len() && (self.slots[i] matches Some(e) && e.id == id)
    }

    pub open spec fn contains_id(self, id: usize) -> bool {
        exists|i: int| self.holds(i, id)
    }

    /// Where the free range around slot `i` begins: at the end of the nearest
    /// entry in a lower slot, or at the start of the object area.
    pub open spec fn gap_start(self, i: int) -> int
        decreases i,
    {
        if i <= 0 {
            0
        } else {
            match self.slots[i - 1] {
                Some(e) => e.offset + e.size,
                None => self.gap_start(i - 1),
            }
        }
    }

    /// Where the free range around slot `i` ends: at the offset of the nearest
    /// entry in a higher slot, or at the end of the object area.
    pub open spec fn gap_end(self, i: int) -> int
        decreases self.slots.len() - i,
    {
        if i + 1 >= self.slots.len() {
            self.total_size as int
        } else {
            match self.slots[i + 1] {
                Some(e) => e.offset as int,
                None => self.gap_end(i + 1),
            }
        }
    }

    /// Slot `i` is empty and the free range around it takes `size` bytes.
    pub open spec fn fits(self, i: int, size: int) -> bool {
        &&& 0 <= i < self.slots.len()
        &&& self.slots[i] is None
        &&& self.gap_start(i) + size <= self.gap_end(i)
    }

    /// Slot `i` is the lowest slot that fits `size` bytes.
    pub open spec fn first_fit(self, i: int, size: int) -> bool {
        &&& self.fits(i, size)
        &&& forall|j: int| 0 <= j < i ==> !self.fits(j, size)
    }

    /// An allocation of `size` bytes under `id` succeeds.
    pub open spec fn can_alloc(self, id: usize, size: int) -> bool {
        let rounded = rounded_size(size, self.chunk_size as int);
        &&& self.allocated_size + rounded <= self.total_size
        &&& !self.contains_id(id)
        &&& exists|i: int| self.fits(i, rounded)
    }

    /// The index after `size` bytes, rounded up, were allocated for object
    /// `id` in slot `i`.
    pub open spec fn alloc_at(self, i: int, id: usize, size: int) -> AllocatorView {
        self.place(
            i,
            ObjectInfo {
                id,
                offset: self.gap_start(i) as usize,
                size: rounded_size(size, self.chunk_size as int) as usize,
            },
        )
    }

    /// The index after `entry` went into slot `i`.
    pub open spec fn place(self, i: int, entry: ObjectInfo) -> AllocatorView {
        AllocatorView {
            allocated_size: self.allocated_size + entry.size as nat,
            slots: self.slots.update(i, Some(entry)),
            ..self
        }
    }

    /// The slots after every entry of object `id` was cleared.
    pub open spec fn slots_without(self, id: usize) -> Seq<Option<ObjectInfo>> {
        Seq::new(
            self.slots.len(),
            |i: int|
                if self.holds(i, id) {
                    None
                } else {
                    self.slots[i]
                },
        )
    }

    /// The index after every entry of object `id` was cleared and its size
    /// given back.
    pub open spec fn remove(self, id: usize) -> AllocatorView {
        AllocatorView {
            allocated_size: (self.allocated_size - (sum_sizes(self.slots) - sum_sizes(
                self.slots_without(id),
            ))) as nat,
            slots: self.slots_without(id),
            ..self
        }
    }

    /// The invariant of the object index.
    pub open spec fn wf(self) -> bool {
        &&& self.slots.len() == MAX_OBJECTS
        &&& self.chunk_size > 0
        &&& self.allocated_size == sum_sizes(self.slots)
        &&& self.allocated_size <= self.total_size
        &&& forall|i: int, j: int|
            0 <= i < self.slots.len() && 0 <= j < self.slots.len() && i != j
                && self.slots[i] is Some && self.slots[j] is Some
                ==> (#[trigger] self.slots[i])->0.id != (#[trigger] self.slots[j])->0.id
        &&& forall|i: int, j: int|
            0 <= i < j < self.slots.len() && self.slots[i] is Some && self.slots[j] is Some
                ==> (#[trigger] self.slots[i])->0.offset + self.slots[i]->0.size
                <= (#[trigger] self.slots[j])->0.offset
        &&& forall|i: int|
            0 <= i < self.slots.len() && self.slots[i] is Some ==> (#[trigger] self.slots[i])->0.offset
                + self.slots[i]->0.size <= self.total_size
    }
}

/// Size of the entry in a slot, zero for an empty slot.
spec fn slot_size(slot: Option<ObjectInfo>) -> nat {
    match slot {
        Some(e) => e.size as nat,
        None => 0,
    }
}

proof fn lemma_sum_sizes_update(slots: Seq<Option<ObjectInfo>>, i: int, slot: Option<ObjectInfo>)
    requires
        0 <= i < slots.len(),
    ensures
        sum_sizes(slots.update(i, slot)) == sum_sizes(slots) - slot_size(slots[i]) + slot_size(
            slot,
        ),
        slot_size(slots[i]) <= sum_sizes(slots),
    decreases slots.len(),
{
    let updated = slots.update(i, slot);
    if i == slots.len() - 1 {
        assert(updated.drop_last() =~= slots.drop_last());
    } else {
        assert(updated.drop_last() =~= slots.drop_last().update(i, slot));
        lemma_sum_sizes_update(slots.drop_last(), i, slot);
    }
}

proof fn lemma_sum_sizes_empty(n: nat)
    ensures
        sum_sizes(Seq::new(n, |i: int| None::<ObjectInfo>)) == 0,
    decreases n,
{
    if n > 0 {
        let s = Seq::new(n, |i: int| None::<ObjectInfo>);
        assert(s.drop_last() =~= Seq::new((n - 1) as nat, |i: int| None::<ObjectInfo>));
        lemma_sum_sizes_empty((n - 1) as nat);
    }
}

proof fn lemma_rounded_size(size: int, chunk: int)
    requires
        0 <= size,
        0 < chunk,
    ensures
        rounded_size(size, chunk) == if size % chunk == 0 {
            size
        } else {
            size - size % chunk + chunk
        },
        rounded_size(size, chunk) >= size,
        0 <= size % chunk <= size,
{
    let q = size / chunk;
    let r = size % chunk;
    lemma_fundamental_div_mod(size, chunk);
    assert(size == q * chunk + r && 0 <= q * chunk) by (nonlinear_arith)
        requires
            size == chunk * q + r,
            0 <= size,
            0 < chunk,
            q == size / chunk,
    ;
    if r == 0 {
        lemma_fundamental_div_mod_converse(size + chunk - 1, chunk, q, chunk - 1);
    } else {
        assert(size + chunk - 1 == (q + 1) * chunk + (r - 1)) by (nonlinear_arith)
            requires
                size == q * chunk + r,
        ;
        lemma_fundamental_div_mod_converse(size + chunk - 1, chunk, q + 1, r - 1);
        assert((q + 1) * chunk == size - r + chunk) by (nonlinear_arith)
            requires
                size == q * chunk + r,
        ;
    }
}

impl AllocatorView {
    /// Below a free range lie all entries of lower slots.
    proof fn lemma_gap_start(self, i: int)
        requires
            self.wf(),
            0 <= i <= self.slots.len(),
        ensures
            0 <= self.gap_start(i) <= self.total_size,
            forall|j: int|
                0 <= j < i && self.slots[j] is Some ==> (#[trigger] self.slots[j])->0.offset
                    + self.slots[j]->0.size <= self.gap_start(i),
        decreases i,
    {
        if i > 0 {
            self.lemma_gap_start(i - 1);
        }
    }

    /// Above a free range lie all entries of higher slots.
    proof fn lemma_gap_end(self, i: int)
        requires
            self.wf(),
            0 <= i < self.slots.len(),
        ensures
            0 <= self.gap_end(i) <= self.total_size,
            forall|k: int|
                i < k < self.slots.len() && self.slots[k] is Some ==> self.gap_end(i) <= (
                #[trigger] self.slots[k])->0.offset,
        decreases self.slots.len() - i,
    {
        if i + 1 < self.slots.len() {
            self.lemma_gap_end(i + 1);
        }
    }

    /// Placing an entry into a slot that fits it keeps the invariant.
    proof fn lemma_place_wf(self, i: int, entry: ObjectInfo)
        requires
            self.wf(),
            self.fits(i, entry.size as int),
            entry.offset == self.gap_start(i),
            !self.contains_id(entry.id),
            self.allocated_size + entry.size <= self.total_size,
        ensures
            self.place(i, entry).wf(),
    {
        let after = self.place(i, entry);
        lemma_sum_sizes_update(self.slots, i, Some(entry));
        self.lemma_gap_start(i);
        self.lemma_gap_end(i);
        assert forall|a: int, b: int|
            0 <= a < after.slots.len() && 0 <= b < after.slots.len() && a != b
                && after.slots[a] is Some && after.slots[b] is Some implies (
        #[trigger] after.slots[a])->0.id != (#[trigger] after.slots[b])->0.id by {
            if a == i {
                assert(!self.holds(b, entry.id));
            } else if b == i {
                assert(!self.holds(a, entry.id));
            }
        }
    }

    /// Clearing an object's entries keeps the invariant.
    proof fn lemma_remove_wf(self, id: usize)
        requires
            self.wf(),
        ensures
            self.remove(id).wf(),
            sum_sizes(self.slots_without(id)) <= sum_sizes(self.slots),
    {
        self.lemma_slots_without_sum(id, self.slots.len() as int);
        let partial = self.cleared_below(id, self.slots.len() as int);
        assert(partial =~= self.slots_without(id));
    }

    /// The slots after the entries of object `id` in slots below `n` were
    /// cleared.
    spec fn cleared_below(self, id: usize, n: int) -> Seq<Option<ObjectInfo>> {
        Seq::new(
            self.slots.len(),
            |i: int|
                if i < n && self.holds(i, id) {
                    None
                } else {
                    self.slots[i]
                },
        )
    }

    proof fn lemma_slots_without_sum(self, id: usize, n: int)
        requires
            0 <= n <= self.slots.len(),
        ensures
            sum_sizes(self.cleared_below(id, n)) <= sum_sizes(self.slots),
        decreases n,
    {
        if n == 0 {
            assert(self.cleared_below(id, 0) =~= self.slots);
        } else {
            self.lemma_slots_without_sum(id, n - 1);
            let before = self.cleared_below(id, n - 1);
            if self.holds(n - 1, id) {
                lemma_sum_sizes_update(before, n - 1, None);
                assert(self.cleared_below(id, n) =~= before.update(n - 1, None));
            } else {
                assert(self.cleared_below(id, n) =~= before);
            }
        }
    }
}

/// The invariant of the object index, entry by entry: two entries never share
/// an id, the one that starts lower ends before the other starts, every entry
/// lies inside the object area, and the allocated size is the sum of the
/// entries' sizes. [`Allocator::new`] establishes the invariant for a positive
/// chunk size, and allocation and deallocation keep it.
pub proof fn lemma_index_invariant(v: AllocatorView, i: int, j: int)
    requires
        v.wf(),
        0 <= i < v.slots.len(),
        0 <= j < v.slots.len(),
        i != j,
        v.slots[i] is Some,
        v.slots[j] is Some,
    ensures
        v.slots[i]->0.id != v.slots[j]->0.id,
        v.slots[i]->0.offset < v.slots[j]->0.offset ==> v.slots[i]->0.offset + v.slots[i]->0.size
            <= v.slots[j]->0.offset,
        v.slots[i]->0.offset + v.slots[i]->0.size <= v.total_size,
        v.allocated_size == sum_sizes(v.slots),
        v.allocated_size <= v.total_size,
{
    if i < j {
        assert(v.slots[i]->0.offset + v.slots[i]->0.size <= v.slots[j]->0.offset);
    } else {
        assert(v.slots[j]->0.offset + v.slots[j]->0.size <= v.slots[i]->0.offset);
    }
}

/// A full index takes no further object: where every slot holds an entry,
/// no allocation succeeds, whatever its id and size.
pub proof fn lemma_full_index_refuses(v: AllocatorView, id: usize, size: int)
    requires
        forall|i: int| 0 <= i < v.slots.len() ==> (#[trigger] v.slots[i]) is Some,
    ensures
        !v.can_alloc(id, size),
{
}

/// Allocating an object and deallocating it again gives back the index as it
/// was. So the same allocation then succeeds a second time, in the same slot
/// and at the same offset, and in between the index keeps its invariant: the
/// new entry overlaps no entry that was there before.
pub proof fn lemma_alloc_dealloc_alloc(v: AllocatorView, id: usize, size: int, i: int)
    requires
        v.wf(),
        v.total_size <= usize::MAX,
        0 <= size <= usize::MAX,
        v.can_alloc(id, size),
        v.first_fit(i, rounded_size(size, v.chunk_size as int)),
    ensures
        v.alloc_at(i, id, size).wf(),
        v.alloc_at(i, id, size).holds(i, id),
        v.alloc_at(i, id, size).remove(id) == v,
        v.alloc_at(i, id, size).remove(id).can_alloc(id, size),
{
    let rounded = rounded_size(size, v.chunk_size as int);
    lemma_rounded_size(size, v.chunk_size as int);
    v.lemma_gap_start(i);
    assert(0 <= rounded <= usize::MAX);
    let entry = ObjectInfo { id, offset: v.gap_start(i) as usize, size: rounded as usize };
    let placed = v.place(i, entry);
    assert(placed == v.alloc_at(i, id, size));
    v.lemma_place_wf(i, entry);
    lemma_sum_sizes_update(v.slots, i, Some(entry));
    assert forall|k: int| 0 <= k < v.slots.len() implies #[trigger] placed.slots_without(id)[k]
        == v.slots[k] by {
        if k != i {
            assert(!v.holds(k, id));
        }
    }
    assert(placed.slots_without(id) =~= v.slots);
}

/// Rounds `size` up to a multiple of `chunk`, if the result fits the machine
/// word.
pub(crate) fn round_up(size: usize, chunk: usize) -> (r: Option<usize>)
    requires
        chunk > 0,
    ensures
        match r {
            Some(v) => v == rounded_size(size as int, chunk as int),
            None => rounded_size(size as int, chunk as int) > usize::MAX,
        },
{
    proof {
        lemma_rounded_size(size as int, chunk as int);
    }
    let rem: usize = size % chunk;
    if rem == 0 {
        Some(size)
    } else {
        let base: usize = size - rem;
        if base > usize::MAX - chunk {
            None
        } else {
            Some(base + chunk)
        }
    }
}

/// The object index of the shared state. The coordinator alone changes it;
/// every other process only looks objects up.
#[derive(Copy, Clone, Debug)]
pub struct Allocator {
    total_size: usize,
    allocated_size: usize,
    chunk_size: usize,
    object_index: [Option<ObjectInfo>; MAX_OBJECTS],
}

impl View for Allocator {
    type V = AllocatorView;

    closed spec fn view(&self) -> AllocatorView {
        AllocatorView {
            total_size: self.total_size as nat,
            allocated_size: self.allocated_size as nat,
            chunk_size: self.chunk_size as nat,
            slots: self.object_index@,
        }
    }
}

impl Allocator {
    /// An empty index over an object area of `total_size` bytes, handed out
    /// in multiples of `chunk_size`.
    pub fn new(total_size: usize, chunk_size: usize) -> (a: Allocator)
        ensures
            a@ == AllocatorView::empty(total_size as nat, chunk_size as nat),
            a@.wf() <==> chunk_size > 0,
    {
        let a = Allocator {
            total_size,
            allocated_size: 0,
            chunk_size,
            object_index: [None;MAX_OBJECTS],
        };
        proof {
            lemma_sum_sizes_empty(MAX_OBJECTS as nat);
            assert(a@.slots =~= Seq::new(MAX_OBJECTS as nat, |i: int| None::<ObjectInfo>));
        }
        a
    }

    /// The entry of object `id`: the one in the lowest slot that holds that
    /// id, or `None` where no slot does.
    pub fn lookup_object(&self, id: usize) -> (r: Option<ObjectInfo>)
        ensures
            match r {
                Some(e) => exists|i: int|
                    {
                        &&& #[trigger] self@.holds(i, id)
                        &&& self@.slots[i] == Some(e)
                        &&& forall|j: int| 0 <= j < i ==> !self@.holds(j, id)
                    },
                None => !self@.contains_id(id),
            },
    {
        let mut i: usize = 0;
        while i < MAX_OBJECTS
            invariant
                i <= MAX_OBJECTS,
                forall|j: int| 0 <= j < i ==> !self@.holds(j, id),
            decreases MAX_OBJECTS - i,
        {
            let entry = self.object_index[i];
            if let Some(obj) = entry {
                if obj.id == id {
                    assert(self@.holds(i as int, id));
                    return entry;
                }
            }
            i += 1;
        }
        None
    }

    /// Offset of the nearest entry above slot `i`, or the end of the area.
    fn next_offset(&self, i: usize) -> (end: usize)
        requires
            i < MAX_OBJECTS,
        ensures
            end == self@.gap_end(i as int),
    {
        let mut j: usize = i + 1;
        while j < MAX_OBJECTS
            invariant
                i < j <= MAX_OBJECTS,
                self@.gap_end(i as int) == self@.gap_end(j - 1),
            decreases MAX_OBJECTS - j,
        {
            if let Some(obj) = self.object_index[j] {
                return obj.offset;
            }
            j += 1;
        }
        self.total_size
    }

    /// Allocates `size` bytes, rounded up to whole chunks, for object `id`.
    ///
    /// The entry goes into the lowest empty slot whose free range takes the
    /// rounded size, at the start of that range. Nothing is allocated when
    /// the area has too few free bytes, when `id` is taken, or when no slot
    /// fits.
    pub fn alloc_object(&mut self, id: usize, size: usize) -> (r: Option<usize>)
        requires
            old(self)@.wf(),
        ensures
            final(self)@.wf(),
            r is Some <==> old(self)@.can_alloc(id, size as int),
            match r {
                Some(offset) => exists|i: int|
                    {
                        &&& #[trigger] old(self)@.first_fit(
                            i,
                            rounded_size(size as int, old(self)@.chunk_size as int),
                        )
                        &&& offset == old(self)@.gap_start(i)
                        &&& final(self)@ == old(self)@.alloc_at(i, id, size as int)
                    },
                None => final(self)@ == old(self)@,
            },
    {
        let ghost before = self@;
        let ghost want = rounded_size(size as int, before.chunk_size as int);
        let rounded: usize = match round_up(size, self.chunk_size) {
            Some(v) => v,
            None => {
                return None;
            },
        };
        if rounded > self.total_size - self.allocated_size {
            return None;
        }
        if self.lookup_object(id).is_some() {
            return None;
        }
        let mut start: usize = 0;
        let mut i: usize = 0;
        while i < MAX_OBJECTS
            invariant
                i <= MAX_OBJECTS,
                self@ == before,
                before == old(self)@,
                before.wf(),
                want == rounded,
                want == rounded_size(size as int, before.chunk_size as int),
                before.allocated_size + rounded <= before.total_size,
                !before.contains_id(id),
                start == before.gap_start(i as int),
                forall|j: int| 0 <= j < i ==> !before.fits(j, want),
            decreases MAX_OBJECTS - i,
        {
            match self.object_index[i] {
                Some(e) => {
                    assert(before.slots[i as int] == Some(e));
                    start = e.offset + e.size;
                },
                None => {
                    let end = self.next_offset(i);
                    if start <= end && rounded <= end - start {
                        let entry = ObjectInfo::new(id, start, rounded);
                        self.object_index[i] = Some(entry);
                        self.allocated_size += rounded;
                        proof {
                            assert(before.fits(i as int, want));
                            assert(before.first_fit(i as int, want));
                            before.lemma_place_wf(i as int, entry);
                            assert(self@.slots =~= before.slots.update(i as int, Some(entry)));
                            assert(self@ == before.place(i as int, entry));
                            assert(self@ == before.alloc_at(i as int, id, size as int));
                        }
                        return Some(start);
                    }
                },
            }
            i += 1;
        }
        None
    }

    /// Clears the entry of object `id` and gives its bytes back.
    pub fn dealloc_object(&mut self, id: usize)
        requires
            old(self)@.wf(),
        ensures
            final(self)@.wf(),
            final(self)@ == old(self)@.remove(id),
    {
        let ghost before = self@;
        proof {
            assert(before.cleared_below(id, 0) =~= before.slots);
        }
        let mut i: usize = 0;
        while i < MAX_OBJECTS
            invariant
                i <= MAX_OBJECTS,
                before == old(self)@,
                before.wf(),
                self@.total_size == before.total_size,
                self@.chunk_size == before.chunk_size,
                self@.slots == before.cleared_below(id, i as int),
                self@.allocated_size == sum_sizes(self@.slots),
            decreases MAX_OBJECTS - i,
        {
            let ghost current = self@.slots;
            if let Some(obj) = self.object_index[i] {
                if obj.id == id {
                    proof {
                        lemma_sum_sizes_update(current, i as int, None);
                    }
                    self.allocated_size -= obj.size;
                    self.object_index[i] = None;
                    assert(self@.slots =~= current.update(i as int, None));
                }
            }
            assert(self@.slots =~= before.cleared_below(id, i + 1));
            i += 1;
        }
        proof {
            before.lemma_remove_wf(id);
            assert(before.cleared_below(id, MAX_OBJECTS as int) =~= before.slots_without(id));
        }
    }

    /// The sizes of an index fit the machine word.
    pub proof fn lemma_machine_bounds(&self)
        ensures
            self@.total_size <= usize::MAX,
            self@.allocated_size <= usize::MAX,
            self@.chunk_size <= usize::MAX,
            self@.slots.len() == MAX_OBJECTS,
    {
    }

    /// Slots `i` and `j` do not break the invariant: where both hold an
    /// entry, the ids differ and the entry in the lower slot ends before the
    /// other starts.
    spec fn pair_ok(v: AllocatorView, i: int, j: int) -> bool {
        i != j && v.slots[i] is Some && v.slots[j] is Some ==> {
            &&& v.slots[i]->0.id != v.slots[j]->0.id
            &&& i < j ==> v.slots[i]->0.offset + v.slots[i]->0.size <= v.slots[j]->0.offset
        }
    }

    /// Whether the index keeps its invariant. An index that was read from
    /// memory that others write to is checked with this before it is used.
    pub fn is_valid(&self) -> (ok: bool)
        ensures
            ok == self@.wf(),
    {
        if self.chunk_size == 0 || self.allocated_size > self.total_size {
            return false;
        }
        let mut sum: u128 = 0;
        let mut i: usize = 0;
        while i < MAX_OBJECTS
            invariant
                i <= MAX_OBJECTS,
                self@.chunk_size > 0,
                self@.allocated_size <= self@.total_size,
                sum == sum_sizes(self@.slots.take(i as int)),
                sum <= i * usize::MAX,
                forall|k: int|
                    0 <= k < i && self@.slots[k] is Some ==> (#[trigger] self@.slots[k])->0.offset
                        + self@.slots[k]->0.size <= self@.total_size,
                forall|a: int, b: int|
                    0 <= a < i && 0 <= b < MAX_OBJECTS ==> #[trigger] Self::pair_ok(self@, a, b),
            decreases MAX_OBJECTS - i,
        {
            proof {
                assert(self@.slots.take(i + 1).drop_last() =~= self@.slots.take(i as int));
                assert(self@.slots.take(i + 1).last() == self@.slots[i as int]);
                assert((i + 1) * usize::MAX == i * usize::MAX + usize::MAX) by (nonlinear_arith);
            }
            if let Some(e) = self.object_index[i] {
                if e.size > self.total_size || e.offset > self.total_size - e.size {
                    return false;
                }
                sum = sum + e.size as u128;
                let mut j: usize = 0;
                while j < MAX_OBJECTS
                    invariant
                        j <= MAX_OBJECTS,
                        i < MAX_OBJECTS,
                        self@.slots[i as int] == Some(e),
                        forall|b: int| 0 <= b < j ==> #[trigger] Self::pair_ok(self@, i as int, b),
                    decreases MAX_OBJECTS - j,
                {
                    if j != i {
                        if let Some(other) = self.object_index[j] {
                            if other.id == e.id {
                                assert(!Self::pair_ok(self@, i as int, j as int));
                                return false;
                            }
                            if i < j && (other.offset < e.offset || other.offset - e.offset
                                < e.size) {
                                assert(!Self::pair_ok(self@, i as int, j as int));
                                return false;
                            }
                        }
                    }
                    j += 1;
                }
            }
            i += 1;
        }
        proof {
            assert(self@.slots.take(MAX_OBJECTS as int) =~= self@.slots);
            assert forall|a: int, b: int|
                0 <= a < self@.slots.len() && 0 <= b < self@.slots.len() && a != b
                    && self@.slots[a] is Some && self@.slots[b] is Some implies (
            #[trigger] self@.slots[a])->0.id != (#[trigger] self@.slots[b])->0.id by {
                assert(Self::pair_ok(self@, a, b));
            }
            assert forall|a: int, b: int|
                0 <= a < b < self@.slots.len() && self@.slots[a] is Some
                    && self@.slots[b] is Some implies (#[trigger] self@.slots[a])->0.offset
                + self@.slots[a]->0.size <= (#[trigger] self@.slots[b])->0.offset by {
                assert(Self::pair_ok(self@, a, b));
            }
        }
        sum == self.allocated_size as u128
    }

    pub fn total_size(&self) -> (n: usize)
        ensures
            n == self@.total_size,
    {
        self.total_size
    }

    pub fn allocated_size(&self) -> (n: usize)
        ensures
            n == self@.allocated_size,
    {
        self.allocated_size
    }

    pub fn chunk_size(&self) -> (n: usize)
        ensures
            n == self@.chunk_size,
    {
        self.chunk_size
    }
}

} // verus!
