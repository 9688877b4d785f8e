//! Sets of state identifiers, held in a dense bit set.
use bit_set::BitSet;
use vstd::prelude::*;

verus! {

/// A set of state identifiers. The bits live in a `bit_set::BitSet`, which
/// Verus sees only through the operations below.
#[verifier::external_body]
pub struct StateSet {
    bits: BitSet,
}

/// The state identifiers that a set holds.
pub uninterp spec fn members(s: StateSet) -> Set<nat>;

impl StateSet {
    pub open spec fn view(&self) -> Set<nat> {
        members(*self)
    }

    /// Relies on `BitSet::new`: a new set holds nothing.
    #[verifier::external_body]
    pub fn new() -> (r: StateSet)
        ensures
            members(r) == Set::<nat>::empty(),
    {
        StateSet { bits: BitSet::new() }
    }

    /// Relies on `BitSet::clone`: the copy holds the same bits.
    #[verifier::external_body]
    pub fn copy(&self) -> (r: StateSet)
        ensures
            members(r) == members(*self),
    {
        StateSet { bits: self.bits.clone() }
    }

    /// Relies on `BitSet::insert`, which grows the vector up to the value; it
    /// computes `value - len + 1`, so `value` stays below the largest 32-bit
    /// value (which is `usize::MAX` on a 32-bit target).
    #[verifier::external_body]
    pub fn insert(&mut self, value: usize) -> (r: bool)
        requires
            value < u32::MAX,
        ensures
            members(*final(self)) == members(*old(self)).insert(value as nat),
            r == !members(*old(self)).contains(value as nat),
    {
        self.bits.insert(value)
    }

    /// Relies on `BitSet::union_with`.
    #[verifier::external_body]
    pub fn union_with(&mut self, other: &StateSet)
        ensures
            members(*final(self)) == members(*old(self)).union(members(*other)),
    {
        self.bits.union_with(&other.bits)
    }

    /// Relies on `BitSet::intersect_with`.
    #[verifier::external_body]
    pub fn intersect_with(&mut self, other: &StateSet)
        ensures
            members(*final(self)) == members(*old(self)).intersect(members(*other)),
    {
        self.bits.intersect_with(&other.bits)
    }

    /// Relies on `BitSet::difference_with`.
    #[verifier::external_body]
    pub fn difference_with(&mut self, other: &StateSet)
        ensures
            members(*final(self)) == members(*old(self)).difference(members(*other)),
    {
        self.bits.difference_with(&other.bits)
    }

    /// Relies on `BitSet::is_subset`.
    #[verifier::external_body]
    pub fn is_subset(&self, other: &StateSet) -> (r: bool)
        ensures
            r == members(*self).subset_of(members(*other)),
    {
        self.bits.is_subset(&other.bits)
    }

    /// Relies on `BitSet::is_disjoint`: no member in common.
    #[verifier::external_body]
    pub fn is_disjoint(&self, other: &StateSet) -> (r: bool)
        ensures
            r == members(*self).disjoint(members(*other)),
    {
        self.bits.is_disjoint(&other.bits)
    }

    /// Relies on `BitSet`'s `==`, which compares the members in order.
    #[verifier::external_body]
    pub fn equals(&self, other: &StateSet) -> (r: bool)
        ensures
            r == (members(*self) == members(*other)),
    {
        self.bits == other.bits
    }

    /// Relies on `BitSet::count`: the number of members.
    #[verifier::external_body]
    pub fn len(&self) -> (r: usize)
        ensures
            r == members(*self).len(),
    {
        self.bits.count()
    }

    /// Relies on `BitSet::iter`, which yields each member once, in increasing order.
    #[verifier::external_body]
    pub fn elements(&self) -> (r: Vec<usize>)
        ensures
            r@.no_duplicates(),
            forall|v: usize| r@.contains(v) <==> #[trigger] members(*self).contains(v as nat),
    {
        self.bits.iter().collect()
    }
}

} // verus!
