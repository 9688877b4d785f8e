//! The evaluation environment: the current state set of each recursion variable.
use crate::state_set::{members, StateSet};
use vstd::prelude::*;

verus! {

/// Recursion variables with their state sets. `names` and `sets` run in
/// parallel, and no name occurs twice.
pub struct Environment {
    names: Vec<String>,
    sets: Vec<StateSet>,
}

impl Environment {
    pub closed spec fn well_formed(&self) -> bool {
        &&& self.names.len() == self.sets.len()
        &&& forall|i: int, j: int|
            0 <= i < j < self.names.len() ==> (#[trigger] self.names[i])@ != (#[trigger] self.names[j])@
    }

    /// The index at which `x` is stored.
    pub closed spec fn slot(&self, x: Seq<char>) -> int {
        choose|i: int| 0 <= i < self.names.len() && (#[trigger] self.names[i])@ == x
    }

    pub closed spec fn view(&self) -> Map<Seq<char>, Set<nat>> {
        Map::new(
            |x: Seq<char>| exists|i: int| 0 <= i < self.names.len() && (#[trigger] self.names[i])@ == x,
            |x: Seq<char>| members(self.sets[self.slot(x)]),
        )
    }

    proof fn lemma_slot(&self, i: int)
        requires
            self.well_formed(),
            0 <= i < self.names.len(),
        ensures
            self.slot(self.names[i]@) == i,
    {
        let x = self.names[i]@;
        assert(0 <= i < self.names.len() && self.names[i]@ == x);
        let j = self.slot(x);
        if j != i {
            if i < j {
                assert(self.names[i]@ != self.names[j]@);
            } else {
                assert(self.names[j]@ != self.names[i]@);
            }
        }
    }

    /// An environment that binds nothing.
    pub fn new() -> (r: Environment)
        ensures
            r.well_formed(),
            r@ == Map::<Seq<char>, Set<nat>>::empty(),
    {
        let r = Environment { names: Vec::new(), sets: Vec::new() };
        assert(r@ =~= Map::<Seq<char>, Set<nat>>::empty());
        r
    }

    fn find(&self, x: &String) -> (r: Option<usize>)
        requires
            self.well_formed(),
        ensures
            match r {
                Some(i) => i < self.names.len() && self.names[i as int]@ == x@,
                None => !self@.contains_key(x@),
            },
    {
        let mut i: usize = 0;
        while i < self.names.len()
            invariant
                i <= self.names.len(),
                forall|j: int| 0 <= j < i ==> (#[trigger] self.names[j])@ != x@,
            decreases self.names.len() - i,
        {
            if self.names[i] == *x {
                return Some(i);
            }
            i = i + 1;
        }
        None
    }

    /// Whether `x` is bound.
    pub fn contains_key(&self, x: &String) -> (r: bool)
        requires
            self.well_formed(),
        ensures
            r == self@.contains_key(x@),
    {
        match self.find(x) {
            Some(i) => {
                assert(self@.contains_key(x@));
                true
            },
            None => false,
        }
    }

    /// A copy of the set bound to `x`, if `x` is bound.
    pub fn get(&self, x: &String) -> (r: Option<StateSet>)
        requires
            self.well_formed(),
        ensures
            match r {
                Some(s) => self@.contains_key(x@) && members(s) == self@[x@],
                None => !self@.contains_key(x@),
            },
    {
        match self.find(x) {
            Some(i) => {
                proof {
                    self.lemma_slot(i as int);
                    assert(self@.contains_key(x@));
                }
                Some(self.sets[i].copy())
            },
            None => None,
        }
    }

    /// Binds `x` to `v`, replacing what it was bound to.
    pub fn insert(&mut self, x: String, v: StateSet)
        requires
            old(self).well_formed(),
        ensures
            final(self).well_formed(),
            final(self)@ == old(self)@.insert(x@, members(v)),
    {
        let ghost before = *self;
        match self.find(&x) {
            Some(i) => {
                self.sets.set(i, v);
                proof {
                    let after = *self;
                    assert(after.names@ == before.names@);
                    after.lemma_slot(i as int);
                    assert forall|y: Seq<char>| #[trigger] after@.contains_key(y) && y != x@ implies after@[y]
                        == before@[y] by {
                        let j = after.slot(y);
                        before.lemma_slot(j);
                        after.lemma_slot(j);
                    }
                    assert(after@ =~= before@.insert(x@, members(v)));
                }
            },
            None => {
                self.names.push(x);
                self.sets.push(v);
                proof {
                    let after = *self;
                    let n = before.names.len() as int;
                    assert forall|i: int, j: int|
                        0 <= i < j < after.names.len() implies (#[trigger] after.names[i])@
                        != (#[trigger] after.names[j])@ by {
                        if j == n {
                            assert(after.names[i] == before.names[i]);
                            assert(0 <= i < before.names.len() && before.names[i]@ == before.names[i]@);
                            assert(before@.contains_key(before.names[i]@));
                        } else {
                            assert(before.names[i] == after.names[i]);
                            assert(before.names[j] == after.names[j]);
                        }
                    }
                    after.lemma_slot(n);
                    assert forall|y: Seq<char>| #[trigger] before@.contains_key(y) implies after@.contains_key(y)
                        && after@[y] == before@[y] by {
                        let j = before.slot(y);
                        before.lemma_slot(j);
                        assert(after.names[j] == before.names[j]);
                        after.lemma_slot(j);
                    }
                    assert forall|y: Seq<char>| #[trigger] after@.contains_key(y) implies before@.contains_key(y)
                        || y == x@ by {
                        let j = after.slot(y);
                        if j < n {
                            assert(after.names[j] == before.names[j]);
                        }
                    }
                    assert(after@ =~= before@.insert(x@, members(v)));
                }
            },
        }
    }

    /// A copy of the whole environment.
    pub fn copy(&self) -> (r: Environment)
        requires
            self.well_formed(),
        ensures
            r.well_formed(),
            r@ == self@,
    {
        let mut names: Vec<String> = Vec::new();
        let mut sets: Vec<StateSet> = Vec::new();
        let mut i: usize = 0;
        while i < self.names.len()
            invariant
                self.well_formed(),
                i <= self.names.len(),
                names.len() == i,
                sets.len() == i,
                forall|j: int| 0 <= j < i ==> (#[trigger] names[j]) == self.names[j],
                forall|j: int| 0 <= j < i ==> members(#[trigger] sets[j]) == members(self.sets[j]),
            decreases self.names.len() - i,
        {
            names.push(self.names[i].clone());
            sets.push(self.sets[i].copy());
            i = i + 1;
        }
        let r = Environment { names, sets };
        proof {
            assert(r.names@ =~= self.names@);
            assert forall|y: Seq<char>| #[trigger] r@.contains_key(y) implies r@[y] == self@[y] by {
                let j = r.slot(y);
                r.lemma_slot(j);
                self.lemma_slot(j);
            }
            assert(r@ =~= self@);
        }
        r
    }
}

} // verus!
