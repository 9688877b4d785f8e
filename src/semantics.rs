//! What a formula means on a Kripke structure.
use crate::formula::MuFormula;
use crate::kripke::KripkeModel;
use crate::state_set::{members, StateSet};
use vstd::prelude::*;

verus! {

/// Why an evaluation failed.
#[derive(Debug)]
pub enum MuErrors {
    /// A recursion variable was read where nothing binds it.
    VarNotFound(String),
    /// The fixpoint at this position did not settle within the iteration bound.
    NotConverging(usize),
}

/// The result of an evaluation, with the state set read as a set of states.
pub open spec fn result_view(r: Result<StateSet, MuErrors>) -> Result<Set<nat>, MuErrors> {
    match r {
        Ok(s) => Ok(members(s)),
        Err(e) => Err(e),
    }
}

/// The states with at least one `a`-successor in `v`.
pub open spec fn diamond_states(m: KripkeModel, a: Seq<char>, v: Set<nat>) -> Set<nat> {
    m.states.filter(|s: nat| exists|t: nat| m.transitions.contains((s, a, t)) && v.contains(t))
}

/// The states whose `a`-successors all lie in `v`.
pub open spec fn box_states(m: KripkeModel, a: Seq<char>, v: Set<nat>) -> Set<nat> {
    m.states.filter(|s: nat| forall|t: nat| m.transitions.contains((s, a, t)) ==> v.contains(t))
}

/// How many times a fixpoint body may be re-evaluated after the first time
/// before the iteration is given up: one per state.
pub open spec fn iteration_bound(m: KripkeModel) -> nat {
    m.states.len()
}

/// The value of a formula under an environment that maps recursion variables
/// to state sets. A least fixpoint is iterated from the empty set and a
/// greatest fixpoint from all states, until two iterates agree.
pub open spec fn naive_value(m: KripkeModel, f: MuFormula, env: Map<Seq<char>, Set<nat>>) -> Result<
    Set<nat>,
    MuErrors,
>
    decreases f, 0nat,
{
    match f {
        MuFormula::Action(_, _) => Ok(Set::empty()),
        MuFormula::Bool(_, b) => Ok(
            if b {
                m.states
            } else {
                Set::empty()
            },
        ),
        MuFormula::RecursionValue(_, x) => if env.contains_key(x@) {
            Ok(env[x@])
        } else {
            Err(MuErrors::VarNotFound(x))
        },
        MuFormula::Not(_, g) => match naive_value(m, *g, env) {
            Ok(v) => Ok(m.states.difference(v)),
            Err(e) => Err(e),
        },
        MuFormula::And(_, g, h) => match naive_value(m, *g, env) {
            Ok(v) => match naive_value(m, *h, env) {
                Ok(w) => Ok(v.intersect(w)),
                Err(e) => Err(e),
            },
            Err(e) => Err(e),
        },
        MuFormula::Or(_, g, h) => match naive_value(m, *g, env) {
            Ok(v) => match naive_value(m, *h, env) {
                Ok(w) => Ok(v.union(w)),
                Err(e) => Err(e),
            },
            Err(e) => Err(e),
        },
        MuFormula::DiamondOp(_, a, g) => match naive_value(m, *g, env) {
            Ok(v) => Ok(diamond_states(m, a@, v)),
            Err(e) => Err(e),
        },
        MuFormula::BoxOp(_, a, g) => match naive_value(m, *g, env) {
            Ok(v) => Ok(box_states(m, a@, v)),
            Err(e) => Err(e),
        },
        MuFormula::Mu(p, x, g) => naive_fixpoint(m, x@, *g, env, Set::empty(), iteration_bound(m), p),
        MuFormula::Nu(p, x, g) => naive_fixpoint(m, x@, *g, env, m.states, iteration_bound(m), p),
    }
}

/// Fixpoint iteration of `body` in `x`, from the iterate `cur`, with `fuel`
/// more re-evaluations allowed.
pub open spec fn naive_fixpoint(
    m: KripkeModel,
    x: Seq<char>,
    body: MuFormula,
    env: Map<Seq<char>, Set<nat>>,
    cur: Set<nat>,
    fuel: nat,
    pos: usize,
) -> Result<Set<nat>, MuErrors>
    decreases body, fuel + 1,
{
    match naive_value(m, body, env.insert(x, cur)) {
        Ok(next) => if next == cur {
            Ok(cur)
        } else if fuel == 0 {
            Err(MuErrors::NotConverging(pos))
        } else {
            naive_fixpoint(m, x, body, env, next, (fuel - 1) as nat, pos)
        },
        Err(e) => Err(e),
    }
}

} // verus!
