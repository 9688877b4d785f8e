//! The Emerson-Lei evaluator. Every fixpoint binder has a slot of its own,
//! seeded once at its lattice extreme before evaluation. A fixpoint continues
//! its iteration from the value its slot holds. Only when it is entered from
//! a binder of the other polarity (as the binder map records) are it and the
//! binders of its polarity below it that have a free variable re-seeded.
use crate::formula::{find_children, node_position, position, subformulas, MuFormula};
use crate::kripke::{KripkeModel, MixedKripkeStructure};
use crate::laws::lemma_emerson_lei_value_bounded;
pub use crate::semantics::MuErrors;
use crate::semantics::{box_states, diamond_states, iteration_bound, result_view};
use crate::state_set::{members, StateSet};
use std::collections::HashMap;
use vstd::prelude::*;

verus! {

/// The nearest fixpoint binder above a node, if any.
pub enum Bound {
    Unbound,
    Mu(MuFormula),
    Nu(MuFormula),
}

impl Clone for Bound {
    fn clone(&self) -> (r: Self)
        ensures
            r == *self,
    {
        match self {
            Bound::Unbound => Bound::Unbound,
            Bound::Mu(f) => Bound::Mu(f.clone()),
            Bound::Nu(f) => Bound::Nu(f.clone()),
        }
    }
}

/// Two binder entries are equal when they are of the same kind.
impl PartialEq for Bound {
    fn eq(&self, other: &Bound) -> (r: bool) {
        match (self, other) {
            (Bound::Unbound, Bound::Unbound) => true,
            (Bound::Mu(_), Bound::Mu(_)) => true,
            (Bound::Nu(_), Bound::Nu(_)) => true,
            _ => false,
        }
    }
}

impl vstd::std_specs::cmp::PartialEqSpecImpl for Bound {
    open spec fn obeys_eq_spec() -> bool {
        true
    }

    open spec fn eq_spec(&self, other: &Bound) -> bool {
        (self is Unbound && other is Unbound) || (self is Mu && other is Mu) || (self is Nu
            && other is Nu)
    }
}

impl Eq for Bound {}

/// Every node of `f`, in pre-order, with its nearest enclosing binder; `b` is
/// the binder above `f` itself.
pub open spec fn binder_entries(f: MuFormula, b: Bound) -> Seq<(MuFormula, Bound)>
    decreases f,
{
    seq![(f, b)] + match f {
        MuFormula::Mu(_, _, g) => binder_entries(*g, Bound::Mu(f)),
        MuFormula::Nu(_, _, g) => binder_entries(*g, Bound::Nu(f)),
        MuFormula::Not(_, g) | MuFormula::DiamondOp(_, _, g) | MuFormula::BoxOp(_, _, g) => {
            binder_entries(*g, b)
        },
        MuFormula::And(_, g, h) | MuFormula::Or(_, g, h) => binder_entries(*g, b) + binder_entries(
            *h,
            b,
        ),
        _ => Seq::empty(),
    }
}

/// The recursion variables that occur in `f` outside the scope of a binder
/// of the same name inside `f`.
pub open spec fn free_vars(f: MuFormula) -> Set<Seq<char>>
    decreases f,
{
    match f {
        MuFormula::RecursionValue(_, x) => set![x@],
        MuFormula::Mu(_, x, g) | MuFormula::Nu(_, x, g) => free_vars(*g).remove(x@),
        MuFormula::Not(_, g) | MuFormula::DiamondOp(_, _, g) | MuFormula::BoxOp(_, _, g) => free_vars(
            *g,
        ),
        MuFormula::And(_, g, h) | MuFormula::Or(_, g, h) => free_vars(*g).union(free_vars(*h)),
        _ => Set::empty(),
    }
}

/// The nodes and binders of `mu`, in pre-order; `bound` is the binder above `mu`.
pub fn find_variables(mu: &MuFormula, bound: Bound) -> (r: Vec<(MuFormula, Bound)>)
    ensures
        r@ == binder_entries(*mu, bound),
    decreases mu,
{
    let mut hm: Vec<(MuFormula, Bound)> = Vec::new();
    hm.push((mu.clone(), bound.clone()));
    match mu {
        MuFormula::Mu(_, _, f) => {
            let mut below = find_variables(f, Bound::Mu(mu.clone()));
            hm.append(&mut below);
        },
        MuFormula::Nu(_, _, f) => {
            let mut below = find_variables(f, Bound::Nu(mu.clone()));
            hm.append(&mut below);
        },
        MuFormula::Not(_, f) | MuFormula::DiamondOp(_, _, f) | MuFormula::BoxOp(_, _, f) => {
            let mut below = find_variables(f, bound);
            hm.append(&mut below);
        },
        MuFormula::And(_, f, g) | MuFormula::Or(_, f, g) => {
            let mut below_f = find_variables(f, bound.clone());
            let mut below_g = find_variables(g, bound);
            hm.append(&mut below_f);
            hm.append(&mut below_g);
        },
        _ => {},
    }
    proof {
        assert(hm@ =~= binder_entries(*mu, bound));
    }
    hm
}

/// Some string among the first `n` of `s` reads `v`.
pub open spec fn listed(s: Seq<String>, n: int, v: Seq<char>) -> bool {
    exists|i: int| 0 <= i < n && i < s.len() && (#[trigger] s[i])@ == v
}

/// The free recursion variables of `mu`, each listed at least once.
pub fn free_variables(mu: &MuFormula) -> (r: Vec<String>)
    ensures
        forall|v: Seq<char>| #[trigger] free_vars(*mu).contains(v) <==> listed(r@, r@.len() as int, v),
    decreases mu,
{
    match mu {
        MuFormula::RecursionValue(_, x) => {
            let mut hs: Vec<String> = Vec::new();
            hs.push(x.clone());
            proof {
                assert(hs@[0]@ == x@);
                assert forall|v: Seq<char>| #[trigger] free_vars(*mu).contains(v) <==> listed(hs@, hs@.len() as int, v) by {
                    assert(free_vars(*mu) == set![x@]);
                    if v == x@ {
                        assert(hs@[0]@ == v);
                    }
                    if listed(hs@, hs@.len() as int, v) {
                        let k = choose|k: int| 0 <= k < hs@.len() && k < hs@.len() && (#[trigger] hs@[k])@ == v;
                        assert(k == 0);
                    }
                }
            }
            hs
        },
        MuFormula::Mu(_, x, f) | MuFormula::Nu(_, x, f) => {
            let inner = free_variables(f);
            assert(free_vars(*mu) == free_vars(**f).remove(x@));
            let mut hs: Vec<String> = Vec::new();
            let mut i: usize = 0;
            while i < inner.len()
                invariant
                    i <= inner.len(),
                    forall|v: Seq<char>|
                        #[trigger] listed(hs@, hs@.len() as int, v) <==> (listed(inner@, i as int, v) && v != x@),
                decreases inner.len() - i,
            {
                let ghost before = hs@;
                let keep = inner[i] != *x;
                if keep {
                    hs.push(inner[i].clone());
                }
                proof {
                    let w = inner@[i as int]@;
                    assert forall|v: Seq<char>|
                        #[trigger] listed(hs@, hs@.len() as int, v) <==> (listed(inner@, i + 1, v) && v != x@) by {
                        if listed(inner@, i + 1, v) && v != x@ {
                            let j = choose|j: int| 0 <= j < i + 1 && j < inner@.len() && (#[trigger] inner@[j])@ == v;
                            if j < i {
                                assert(listed(inner@, i as int, v));
                                assert(before == hs@ || keep);
                                assert(listed(before, before.len() as int, v));
                                let k = choose|k: int| 0 <= k < before.len() && k < before.len() && (#[trigger] before[k])@ == v;
                                assert(hs@[k] == before[k]);
                            } else {
                                assert(hs@[hs.len() - 1]@ == v);
                            }
                        }
                        if listed(hs@, hs@.len() as int, v) {
                            let k = choose|k: int| 0 <= k < hs.len() && k < hs@.len() && (#[trigger] hs@[k])@ == v;
                            if k < before.len() {
                                assert(before[k] == hs@[k]);
                                assert(listed(before, before.len() as int, v));
                                assert(listed(inner@, i as int, v));
                                let j = choose|j: int| 0 <= j < i && j < inner@.len() && (#[trigger] inner@[j])@ == v;
                                assert(listed(inner@, i + 1, v));
                            } else {
                                assert(listed(inner@, i + 1, v));
                            }
                        }
                    }
                }
                i = i + 1;
            }
            hs
        },
        MuFormula::Not(_, f) | MuFormula::DiamondOp(_, _, f) | MuFormula::BoxOp(_, _, f) => {
            let hs = free_variables(f);
            assert(free_vars(*mu) == free_vars(**f));
            hs
        },
        MuFormula::And(_, f, g) | MuFormula::Or(_, f, g) => {
            let mut hs = free_variables(f);
            let mut below_g = free_variables(g);
            let ghost left = hs@;
            let ghost right = below_g@;
            hs.append(&mut below_g);
            proof {
                assert forall|v: Seq<char>| #[trigger] free_vars(*mu).contains(v) <==> listed(hs@, hs@.len() as int, v) by {
                    if free_vars(**f).contains(v) {
                        let i = choose|i: int| 0 <= i < left.len() && i < left.len() && (#[trigger] left[i])@ == v;
                        assert(hs@[i] == left[i]);
                    } else if free_vars(**g).contains(v) {
                        let i = choose|i: int| 0 <= i < right.len() && i < right.len() && (#[trigger] right[i])@ == v;
                        assert(hs@[left.len() + i] == right[i]);
                    }
                    if listed(hs@, hs@.len() as int, v) {
                        let i = choose|i: int| 0 <= i < hs.len() && i < hs@.len() && (#[trigger] hs@[i])@ == v;
                        if i < left.len() {
                            assert(left[i] == hs@[i]);
                            assert(listed(left, left.len() as int, v));
                        } else {
                            assert(right[i - left.len()] == hs@[i]);
                            assert(listed(right, right.len() as int, v));
                        }
                    }
                }
            }
            hs
        },
        _ => {
            let hs: Vec<String> = Vec::new();
            assert(free_vars(*mu) == Set::<Seq<char>>::empty());
            hs
        },
    }
}

/// Whether `mu` has a free recursion variable.
fn has_free_variables(mu: &MuFormula) -> (r: bool)
    ensures
        r == exists|v: Seq<char>| free_vars(*mu).contains(v),
{
    let fv = free_variables(mu);
    proof {
        if fv.len() > 0 {
            assert(listed(fv@, fv@.len() as int, fv@[0]@));
            assert(free_vars(*mu).contains(fv@[0]@));
        }
    }
    fv.len() > 0
}

broadcast use vstd::std_specs::hash::group_hash_axioms;

/// The binder recorded for the first entry from index `i` on whose node sits
/// at position `pos`; `Bound::Unbound` if there is none.
pub open spec fn binder_from(vars: Seq<(MuFormula, Bound)>, pos: usize, i: int) -> Bound
    decreases vars.len() - i,
{
    if i < 0 || i >= vars.len() {
        Bound::Unbound
    } else if node_position(vars[i].0) == pos {
        vars[i].1
    } else {
        binder_from(vars, pos, i + 1)
    }
}

/// The binder that the binder map records above the node at position `pos`.
pub open spec fn binder_of(vars: Seq<(MuFormula, Bound)>, pos: usize) -> Bound {
    binder_from(vars, pos, 0)
}

/// The index of the entry that `binder_of` reads for position `pos`.
fn find_binder(vars: &Vec<(MuFormula, Bound)>, pos: usize) -> (r: Option<usize>)
    ensures
        match r {
            Some(i) => i < vars.len() && binder_of(vars@, pos) == vars@[i as int].1,
            None => binder_of(vars@, pos) == Bound::Unbound,
        },
{
    let mut i: usize = 0;
    while i < vars.len()
        invariant
            i <= vars.len(),
            binder_from(vars@, pos, i as int) == binder_of(vars@, pos),
        decreases vars.len() - i,
    {
        if position(&vars[i].0) == pos {
            return Some(i);
        }
        i = i + 1;
    }
    None
}

/// The slot an occurrence of `x` reads: that of the innermost binder of `x`
/// in `scope`, which lists (name, binder position) from the outside in.
pub open spec fn resolve(scope: Seq<(Seq<char>, usize)>, x: Seq<char>) -> Option<usize>
    decreases scope.len(),
{
    if scope.len() == 0 {
        None
    } else if scope.last().0 == x {
        Some(scope.last().1)
    } else {
        resolve(scope.drop_last(), x)
    }
}

/// The names and binder positions of a scope.
pub open spec fn scope_view(scope: Seq<(String, usize)>) -> Seq<(Seq<char>, usize)> {
    scope.map_values(|e: (String, usize)| (e.0@, e.1))
}

/// The state set each slot holds.
pub open spec fn slots_view(slots: Map<usize, StateSet>) -> Map<usize, Set<nat>> {
    Map::new(|p: usize| slots.contains_key(p), |p: usize| members(slots[p]))
}

/// The binder `c` is re-seeded when it is entered from a binder of the other
/// polarity: it is a least fixpoint (`least`) or a greatest one (`!least`),
/// and it has a free variable.
pub open spec fn is_reset(c: MuFormula, least: bool) -> bool {
    (if least { c is Mu } else { c is Nu }) && exists|v: Seq<char>| free_vars(c).contains(v)
}

/// The lattice extreme that a least (the empty set) or greatest (all states)
/// fixpoint starts from.
pub open spec fn extreme(m: KripkeModel, least: bool) -> Set<nat> {
    if least {
        Set::empty()
    } else {
        m.states
    }
}

/// `slots` after re-seeding the binders that `is_reset` picks among `f`
/// itself and the first `n` strict sub-formulas of `f`.
pub open spec fn reset_binders(
    m: KripkeModel,
    f: MuFormula,
    least: bool,
    slots: Map<usize, Set<nat>>,
    n: nat,
) -> Map<usize, Set<nat>>
    decreases n,
{
    if n == 0 {
        if is_reset(f, least) {
            slots.insert(node_position(f), extreme(m, least))
        } else {
            slots
        }
    } else if n > subformulas(f).len() {
        slots
    } else {
        let before = reset_binders(m, f, least, slots, (n - 1) as nat);
        let c = subformulas(f)[n - 1];
        if is_reset(c, least) {
            before.insert(node_position(c), extreme(m, least))
        } else {
            before
        }
    }
}

/// The slots before evaluation, from the first `n` entries of the binder map:
/// the slot of each least fixpoint holds the empty set, that of each greatest
/// fixpoint all states.
pub open spec fn initial_slots(m: KripkeModel, vars: Seq<(MuFormula, Bound)>, n: nat) -> Map<
    usize,
    Set<nat>,
>
    decreases n,
{
    if n == 0 || n > vars.len() {
        Map::empty()
    } else {
        let before = initial_slots(m, vars, (n - 1) as nat);
        match vars[n - 1].0 {
            MuFormula::Mu(p, _, _) => before.insert(p, Set::empty()),
            MuFormula::Nu(p, _, _) => before.insert(p, m.states),
            _ => before,
        }
    }
}

/// The value of `f` and the slots after it, when `scope` lists the binders
/// around `f` and `slots` holds on entry. A binder enters its iteration from
/// the value its slot holds (its extreme, if it holds none); entering a binder
/// below one of the other polarity first re-seeds the binders that `is_reset`
/// picks. Each iterate is stored back into the binder's slot.
pub open spec fn el_value(
    m: KripkeModel,
    vars: Seq<(MuFormula, Bound)>,
    f: MuFormula,
    scope: Seq<(Seq<char>, usize)>,
    slots: Map<usize, Set<nat>>,
) -> Result<(Set<nat>, Map<usize, Set<nat>>), MuErrors>
    decreases f, 0nat,
{
    match f {
        MuFormula::Action(_, _) => Ok((Set::empty(), slots)),
        MuFormula::Bool(_, b) => Ok(
            (
                if b {
                    m.states
                } else {
                    Set::empty()
                },
                slots,
            ),
        ),
        MuFormula::RecursionValue(_, x) => match resolve(scope, x@) {
            Some(p) => if slots.contains_key(p) {
                Ok((slots[p], slots))
            } else {
                Err(MuErrors::VarNotFound(x))
            },
            None => Err(MuErrors::VarNotFound(x)),
        },
        MuFormula::Not(_, g) => match el_value(m, vars, *g, scope, slots) {
            Ok((v, e1)) => Ok((m.states.difference(v), e1)),
            Err(e) => Err(e),
        },
        MuFormula::And(_, g, h) => match el_value(m, vars, *g, scope, slots) {
            Ok((v, e1)) => match el_value(m, vars, *h, scope, e1) {
                Ok((w, e2)) => Ok((v.intersect(w), e2)),
                Err(e) => Err(e),
            },
            Err(e) => Err(e),
        },
        MuFormula::Or(_, g, h) => match el_value(m, vars, *g, scope, slots) {
            Ok((v, e1)) => match el_value(m, vars, *h, scope, e1) {
                Ok((w, e2)) => Ok((v.union(w), e2)),
                Err(e) => Err(e),
            },
            Err(e) => Err(e),
        },
        MuFormula::DiamondOp(_, a, g) => match el_value(m, vars, *g, scope, slots) {
            Ok((v, e1)) => Ok((diamond_states(m, a@, v), e1)),
            Err(e) => Err(e),
        },
        MuFormula::BoxOp(_, a, g) => match el_value(m, vars, *g, scope, slots) {
            Ok((v, e1)) => Ok((box_states(m, a@, v), e1)),
            Err(e) => Err(e),
        },
        MuFormula::Mu(p, x, g) | MuFormula::Nu(p, x, g) => {
            let least = f is Mu;
            let outer = binder_of(vars, p);
            let e1 = if (least && outer is Nu) || (!least && outer is Mu) {
                reset_binders(m, f, least, slots, subformulas(f).len())
            } else {
                slots
            };
            let e2 = if e1.contains_key(p) {
                e1
            } else {
                e1.insert(p, extreme(m, least))
            };
            el_fixpoint(m, vars, scope.push((x@, p)), *g, e2, iteration_bound(m), p)
        },
    }
}

/// Iteration of `body` for the binder at position `p`, from the value its
/// slot holds, with `fuel` more re-evaluations allowed; each iterate is stored
/// back into the slot.
pub open spec fn el_fixpoint(
    m: KripkeModel,
    vars: Seq<(MuFormula, Bound)>,
    scope: Seq<(Seq<char>, usize)>,
    body: MuFormula,
    slots: Map<usize, Set<nat>>,
    fuel: nat,
    p: usize,
) -> Result<(Set<nat>, Map<usize, Set<nat>>), MuErrors>
    decreases body, fuel + 1,
{
    let states = slots[p];
    match el_value(m, vars, body, scope, slots) {
        Ok((next, e1)) => {
            let e2 = e1.insert(p, next);
            if states == next {
                Ok((states, e2))
            } else if fuel == 0 {
                Err(MuErrors::NotConverging(p))
            } else {
                el_fixpoint(m, vars, scope, body, e2, (fuel - 1) as nat, p)
            }
        },
        Err(e) => Err(e),
    }
}

/// On success, the iteration leaves the binder's slot holding its value.
proof fn lemma_fixpoint_slot(
    m: KripkeModel,
    vars: Seq<(MuFormula, Bound)>,
    scope: Seq<(Seq<char>, usize)>,
    body: MuFormula,
    slots: Map<usize, Set<nat>>,
    fuel: nat,
    p: usize,
)
    ensures
        el_fixpoint(m, vars, scope, body, slots, fuel, p) is Ok ==> {
            let (v, e) = el_fixpoint(m, vars, scope, body, slots, fuel, p)->Ok_0;
            e.contains_key(p) && e[p] == v
        },
    decreases fuel,
{
    if let Ok((next, e1)) = el_value(m, vars, body, scope, slots) {
        if slots[p] != next && fuel > 0 {
            lemma_fixpoint_slot(m, vars, scope, body, e1.insert(p, next), (fuel - 1) as nat, p);
        }
    }
}

/// The Emerson-Lei value of the closed formula `f` on `m`.
pub open spec fn emerson_lei_value(m: KripkeModel, f: MuFormula) -> Result<Set<nat>, MuErrors> {
    let vars = binder_entries(f, Bound::Unbound);
    match el_value(m, vars, f, Seq::empty(), initial_slots(m, vars, vars.len())) {
        Ok((v, _)) => Ok(v),
        Err(e) => Err(e),
    }
}

/// What `eval` promises: on success the value and the slots that `el_value`
/// gives.
pub open spec fn el_outcome(
    r: Result<StateSet, MuErrors>,
    expected: Result<(Set<nat>, Map<usize, Set<nat>>), MuErrors>,
    slots_after: Map<usize, Set<nat>>,
) -> bool {
    match expected {
        Ok((v, e)) => r is Ok && members(r->Ok_0) == v && slots_after == e,
        Err(err) => r == Err::<StateSet, MuErrors>(err),
    }
}

/// The slot that an occurrence of `x` reads, as `resolve` says.
fn find_in_scope(scope: &Vec<(String, usize)>, x: &String) -> (r: Option<usize>)
    ensures
        r == resolve(scope_view(scope@), x@),
{
    let ghost view = scope_view(scope@);
    let mut i: usize = scope.len();
    proof {
        assert(view.take(i as int) =~= view);
    }
    while i > 0
        invariant
            i <= scope.len(),
            view == scope_view(scope@),
            resolve(view.take(i as int), x@) == resolve(view, x@),
        decreases i,
    {
        proof {
            assert(view.take(i as int).drop_last() =~= view.take(i - 1));
        }
        if scope[i - 1].0 == *x {
            return Some(scope[i - 1].1);
        }
        i = i - 1;
    }
    None
}

/// Whether the slot at `p` is set.
fn slot_of(slots: &HashMap<usize, StateSet>, p: usize) -> (r: Option<StateSet>)
    ensures
        match r {
            Some(v) => slots_view(slots@).contains_key(p) && members(v) == slots_view(slots@)[p],
            None => !slots_view(slots@).contains_key(p),
        },
{
    match slots.get(&p) {
        Some(v) => Some(v.copy()),
        None => None,
    }
}

/// Stores `v` in the slot at `p`.
fn set_slot(slots: &mut HashMap<usize, StateSet>, p: usize, v: StateSet)
    ensures
        slots_view(final(slots)@) == slots_view(old(slots)@).insert(p, members(v)),
{
    slots.insert(p, v);
    proof {
        assert(slots_view(slots@) =~= slots_view(old(slots)@).insert(p, members(v)));
    }
}

/// The states of `k` at which the closed formula `mu` holds.
pub fn evaluate<L: Clone + Copy>(k: &MixedKripkeStructure<L>, mu: MuFormula) -> (r: Result<
    StateSet,
    MuErrors,
>)
    requires
        k.well_formed(),
    ensures
        result_view(r) == emerson_lei_value(k@, mu),
        r is Ok ==> members(r->Ok_0).subset_of(members(k.states)),
{
    proof {
        lemma_emerson_lei_value_bounded(k@, mu);
    }
    let variables = find_variables(&mu, Bound::Unbound);
    let mut slots: HashMap<usize, StateSet> = HashMap::new();
    proof {
        assert(slots_view(slots@) =~= initial_slots(k@, variables@, 0));
    }
    let mut i: usize = 0;
    while i < variables.len()
        invariant
            k.well_formed(),
            i <= variables.len(),
            slots_view(slots@) == initial_slots(k@, variables@, i as nat),
        decreases variables.len() - i,
    {
        match &variables[i].0 {
            MuFormula::Mu(p, _, _) => set_slot(&mut slots, *p, StateSet::new()),
            MuFormula::Nu(p, _, _) => set_slot(&mut slots, *p, k.states.copy()),
            _ => {},
        }
        i = i + 1;
    }
    let mut scope: Vec<(String, usize)> = Vec::new();
    proof {
        assert(scope_view(scope@) =~= Seq::<(Seq<char>, usize)>::empty());
    }
    eval(&variables, k, &mu, &mut scope, &mut slots)
}

/// Re-seeds the binders that `is_reset` picks among `mu` itself and its
/// strict sub-formulas.
fn reset_children<L: Clone + Copy>(
    k: &MixedKripkeStructure<L>,
    mu: &MuFormula,
    least: bool,
    slots: &mut HashMap<usize, StateSet>,
)
    ensures
        slots_view(final(slots)@) == reset_binders(
            k@,
            *mu,
            least,
            slots_view(old(slots)@),
            subformulas(*mu).len(),
        ),
{
    let ghost start = slots_view(slots@);
    let own = (if least { matches!(mu, MuFormula::Mu(_, _, _)) } else { matches!(mu, MuFormula::Nu(_, _, _)) });
    if own && has_free_variables(mu) {
        if least {
            set_slot(slots, position(mu), StateSet::new());
        } else {
            set_slot(slots, position(mu), k.states.copy());
        }
    }
    let children = find_children(mu);
    let mut i: usize = 0;
    while i < children.len()
        invariant
            children@ == subformulas(*mu),
            i <= children.len(),
            slots_view(slots@) == reset_binders(k@, *mu, least, start, i as nat),
        decreases children.len() - i,
    {
        let child = &children[i];
        let kind = if least { matches!(child, MuFormula::Mu(_, _, _)) } else { matches!(child, MuFormula::Nu(_, _, _)) };
        if kind && has_free_variables(child) {
            if least {
                set_slot(slots, position(child), StateSet::new());
            } else {
                set_slot(slots, position(child), k.states.copy());
            }
        }
        i = i + 1;
    }
}

fn eval<L: Clone + Copy>(
    vars: &Vec<(MuFormula, Bound)>,
    k: &MixedKripkeStructure<L>,
    mu: &MuFormula,
    scope: &mut Vec<(String, usize)>,
    slots: &mut HashMap<usize, StateSet>,
) -> (r: Result<StateSet, MuErrors>)
    requires
        k.well_formed(),
    ensures
        final(scope)@ == old(scope)@,
        el_outcome(
            r,
            el_value(k@, vars@, *mu, scope_view(old(scope)@), slots_view(old(slots)@)),
            slots_view(final(slots)@),
        ),
        (*mu is Mu || *mu is Nu) && r is Ok ==> slots_view(final(slots)@).contains_key(
            node_position(*mu),
        ) && slots_view(final(slots)@)[node_position(*mu)] == members(r->Ok_0),
    decreases mu, 0nat,
{
    match mu {
        MuFormula::Bool(_, b) => {
            if *b {
                Ok(k.states.copy())
            } else {
                Ok(StateSet::new())
            }
        },
        MuFormula::Action(_, _) => Ok(StateSet::new()),
        MuFormula::Not(_, f) => {
            match eval(vars, k, f, scope, slots) {
                Ok(v) => {
                    let mut r = k.states.copy();
                    r.difference_with(&v);
                    Ok(r)
                },
                Err(err) => Err(err),
            }
        },
        MuFormula::And(_, f, g) => {
            match eval(vars, k, f, scope, slots) {
                Ok(left) => match eval(vars, k, g, scope, slots) {
                    Ok(right) => {
                        let mut r = left;
                        r.intersect_with(&right);
                        Ok(r)
                    },
                    Err(err) => Err(err),
                },
                Err(err) => Err(err),
            }
        },
        MuFormula::Or(_, f, g) => {
            match eval(vars, k, f, scope, slots) {
                Ok(left) => match eval(vars, k, g, scope, slots) {
                    Ok(right) => {
                        let mut r = left;
                        r.union_with(&right);
                        Ok(r)
                    },
                    Err(err) => Err(err),
                },
                Err(err) => Err(err),
            }
        },
        MuFormula::DiamondOp(_, a, f) => {
            match eval(vars, k, f, scope, slots) {
                Ok(v) => Ok(k.some_successor_in(a, &v)),
                Err(err) => Err(err),
            }
        },
        MuFormula::BoxOp(_, a, f) => {
            match eval(vars, k, f, scope, slots) {
                Ok(v) => Ok(k.all_successors_in(a, &v)),
                Err(err) => Err(err),
            }
        },
        MuFormula::RecursionValue(_, c) => {
            match find_in_scope(scope, c) {
                Some(p) => match slot_of(slots, p) {
                    Some(v) => Ok(v),
                    None => Err(MuErrors::VarNotFound(c.clone())),
                },
                None => Err(MuErrors::VarNotFound(c.clone())),
            }
        },
        MuFormula::Mu(p, c, f) | MuFormula::Nu(p, c, f) => {
            let least = matches!(mu, MuFormula::Mu(_, _, _));
            let outer_opposite = match find_binder(vars, *p) {
                Some(j) => match &vars[j].1 {
                    Bound::Nu(_) => least,
                    Bound::Mu(_) => !least,
                    Bound::Unbound => false,
                },
                None => false,
            };
            if outer_opposite {
                reset_children(k, mu, least, slots);
            }
            if slot_of(slots, *p).is_none() {
                if least {
                    set_slot(slots, *p, StateSet::new());
                } else {
                    set_slot(slots, *p, k.states.copy());
                }
            }
            let ghost inner = scope_view(scope@).push((c@, *p));
            scope.push((c.clone(), *p));
            proof {
                assert(scope_view(scope@) =~= inner);
            }
            let ghost before = slots_view(slots@);
            let r = fixpoint(vars, k, f, scope, slots, *p);
            scope.pop();
            proof {
                lemma_fixpoint_slot(k@, vars@, inner, **f, before, iteration_bound(k@), *p);
                assert(scope@ =~= old(scope)@);
            }
            r
        },
    }
}

/// Iterates `body` for the binder at position `p` from the value its slot
/// holds, storing each iterate back, until two iterates agree; at most once
/// more per state.
fn fixpoint<L: Clone + Copy>(
    vars: &Vec<(MuFormula, Bound)>,
    k: &MixedKripkeStructure<L>,
    body: &MuFormula,
    scope: &mut Vec<(String, usize)>,
    slots: &mut HashMap<usize, StateSet>,
    p: usize,
) -> (r: Result<StateSet, MuErrors>)
    requires
        k.well_formed(),
        slots_view(old(slots)@).contains_key(p),
    ensures
        final(scope)@ == old(scope)@,
        el_outcome(
            r,
            el_fixpoint(
                k@,
                vars@,
                scope_view(old(scope)@),
                *body,
                slots_view(old(slots)@),
                iteration_bound(k@),
                p,
            ),
            slots_view(final(slots)@),
        ),
    decreases body, 1nat,
{
    let ghost goal = el_fixpoint(
        k@,
        vars@,
        scope_view(scope@),
        *body,
        slots_view(slots@),
        iteration_bound(k@),
        p,
    );
    let mut fuel = k.states.len();
    loop
        invariant
            k.well_formed(),
            scope@ == old(scope)@,
            slots_view(slots@).contains_key(p),
            el_fixpoint(k@, vars@, scope_view(scope@), *body, slots_view(slots@), fuel as nat, p)
                == goal,
            goal == el_fixpoint(
                k@,
                vars@,
                scope_view(old(scope)@),
                *body,
                slots_view(old(slots)@),
                iteration_bound(k@),
                p,
            ),
        decreases fuel,
    {
        let states = match slot_of(slots, p) {
            Some(v) => v,
            None => {
                return Err(MuErrors::NotConverging(p));
            },
        };
        match eval(vars, k, body, scope, slots) {
            Ok(nstates) => {
                set_slot(slots, p, nstates.copy());
                if states.equals(&nstates) {
                    return Ok(states);
                }
                if fuel == 0 {
                    return Err(MuErrors::NotConverging(p));
                }
                fuel = fuel - 1;
            },
            Err(err) => {
                return Err(err);
            },
        }
    }
}

} // verus!
