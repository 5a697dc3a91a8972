//! Write identifiers and the record that every memory node stores per object.

use core::cmp::Ordering;
use vstd::prelude::*;

verus! {

/// Identifies one write attempt: the round in which it was announced and the
/// process that announced it.
///
/// Wids are ordered by round first. Within one round the process with the
/// *smaller* id holds the *greater* Wid, so that the winner of a tie is the
/// maximum of the order.
#[derive(Debug, Clone, Copy, PartialEq, Eq, Structural)]
pub struct Wid {
    pub round_num: u64,
    pub process_id: usize,
}

impl Wid {
    pub fn new(round_num: u64, process_id: usize) -> (w: Wid)
        ensures
            w.round_num == round_num,
            w.process_id == process_id,
    {
        Wid { round_num, process_id }
    }

    /// `self` is strictly below `other`.
    pub open spec fn below(self, other: Wid) -> bool {
        self.round_num < other.round_num || (self.round_num == other.round_num
            && self.process_id > other.process_id)
    }

    /// `self` is strictly above `other`.
    pub open spec fn above(self, other: Wid) -> bool {
        other.below(self)
    }

    /// The Wid that freshly initialised memory holds. No write carries it,
    /// because rounds are numbered from one.
    pub open spec fn zero() -> Wid {
        Wid { round_num: 0, process_id: 0 }
    }

    /// Executable form of [`Wid::below`].
    pub fn is_below(&self, other: &Wid) -> (b: bool)
        ensures
            b == self.below(*other),
    {
        self.round_num < other.round_num || (self.round_num == other.round_num && self.process_id
            > other.process_id)
    }

    /// Executable form of [`Wid::above`].
    pub fn is_above(&self, other: &Wid) -> (b: bool)
        ensures
            b == self.above(*other),
    {
        other.is_below(self)
    }

    /// Executable equality of both fields.
    pub fn same(&self, other: &Wid) -> (b: bool)
        ensures
            b == (*self == *other),
    {
        self.round_num == other.round_num && self.process_id == other.process_id
    }
}

impl PartialOrd for Wid {
    fn partial_cmp(&self, other: &Wid) -> (r: Option<Ordering>) {
        if self.is_below(other) {
            Some(Ordering::Less)
        } else if other.is_below(self) {
            Some(Ordering::Greater)
        } else {
            Some(Ordering::Equal)
        }
    }
}

impl vstd::std_specs::cmp::PartialOrdSpecImpl for Wid {
    open spec fn obeys_partial_cmp_spec() -> bool {
        true
    }

    open spec fn partial_cmp_spec(&self, other: &Wid) -> Option<Ordering> {
        if self.below(*other) {
            Some(Ordering::Less)
        } else if other.below(*self) {
            Some(Ordering::Greater)
        } else {
            Some(Ordering::Equal)
        }
    }
}

/// The order on Wids is total: of `x < y`, `x == y` and `x > y` exactly one
/// holds, and `x > y` means that `x` belongs to a later round, or to the same
/// round and a smaller process id.
pub proof fn lemma_wid_total_order(x: Wid, y: Wid)
    ensures
        x.below(y) || x == y || x.above(y),
        !(x.below(y) && x == y),
        !(x.below(y) && x.above(y)),
        !(x == y && x.above(y)),
        x.above(y) <==> (x.round_num > y.round_num || (x.round_num == y.round_num && x.process_id
            < y.process_id)),
{
}

/// The order on Wids is transitive.
pub proof fn lemma_wid_transitive(x: Wid, y: Wid, z: Wid)
    requires
        x.below(y),
        y.below(z),
    ensures
        x.below(z),
{
}

/// The record stored at an object's offset on every memory node.
#[derive(Debug, Clone, Copy)]
pub struct ObjectMemoryEntry<T: Copy> {
    pub wid: Wid,
    pub value: T,
}

impl<T: Copy> ObjectMemoryEntry<T> {
    pub fn new(wid: Wid, value: T) -> (e: Self)
        ensures
            e.wid == wid,
            e.value == value,
    {
        ObjectMemoryEntry { wid, value }
    }

    /// An entry that carries no write identifier, as the algorithms without
    /// conflict arbitration store it.
    pub fn new_nowid(value: T) -> (e: Self)
        ensures
            e.wid == Wid::zero(),
            e.value == value,
    {
        ObjectMemoryEntry { wid: Wid { round_num: 0, process_id: 0 }, value }
    }
}

} // verus!
