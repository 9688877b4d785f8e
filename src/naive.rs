//! The naive evaluator: every fixpoint is iterated from its lattice extreme
//! each time it is reached.
use crate::environment::Environment;
use crate::formula::MuFormula;
use crate::kripke::MixedKripkeStructure;
use crate::laws::lemma_naive_bounded;
pub use crate::semantics::MuErrors;
use crate::semantics::{iteration_bound, naive_fixpoint, naive_value, result_view};
use crate::state_set::{members, StateSet};
use vstd::prelude::*;

verus! {

/// The states of `k` at which the closed formula `mu` holds.
pub fn evaluate<L: Clone + Copy>(k: &MixedKripkeStructure<L>, mu: MuFormula) -> (r: Result<
    StateSet,
    MuErrors,
>)
    requires
        k.well_formed(),
    ensures
        result_view(r) == naive_value(k@, mu, Map::empty()),
        r is Ok ==> members(r->Ok_0).subset_of(members(k.states)),
{
    proof {
        lemma_naive_bounded(k@, mu, Map::empty());
    }
    let env = Environment::new();
    eval(k, &mu, &env)
}

fn eval<L: Clone + Copy>(k: &MixedKripkeStructure<L>, mu: &MuFormula, e: &Environment) -> (r:
    Result<StateSet, MuErrors>)
    requires
        k.well_formed(),
        e.well_formed(),
    ensures
        result_view(r) == naive_value(k@, *mu, e@),
    decreases mu, 0nat,
{
    match mu {
        MuFormula::Bool(_, b) => {
            if *b {
                Ok(k.states.copy())
            } else {
                Ok(StateSet::new())
            }
        },
        MuFormula::Action(_, _) => Ok(StateSet::new()),
        MuFormula::Not(_, f) => {
            match eval(k, f, e) {
                Ok(v) => {
                    let mut r = k.states.copy();
                    r.difference_with(&v);
                    Ok(r)
                },
                Err(err) => Err(err),
            }
        },
        MuFormula::And(_, f, g) => {
            match eval(k, f, e) {
                Ok(left) => match eval(k, g, e) {
                    Ok(right) => {
                        let mut r = left;
                        r.intersect_with(&right);
                        Ok(r)
                    },
                    Err(err) => Err(err),
                },
                Err(err) => Err(err),
            }
        },
        MuFormula::Or(_, f, g) => {
            match eval(k, f, e) {
                Ok(left) => match eval(k, g, e) {
                    Ok(right) => {
                        let mut r = left;
                        r.union_with(&right);
                        Ok(r)
                    },
                    Err(err) => Err(err),
                },
                Err(err) => Err(err),
            }
        },
        MuFormula::DiamondOp(_, a, f) => {
            match eval(k, f, e) {
                Ok(v) => Ok(k.some_successor_in(a, &v)),
                Err(err) => Err(err),
            }
        },
        MuFormula::BoxOp(_, a, f) => {
            match eval(k, f, e) {
                Ok(v) => Ok(k.all_successors_in(a, &v)),
                Err(err) => Err(err),
            }
        },
        MuFormula::RecursionValue(_, c) => {
            match e.get(c) {
                Some(v) => Ok(v),
                None => Err(MuErrors::VarNotFound(c.clone())),
            }
        },
        MuFormula::Mu(p, c, f) => fixpoint(k, c, f, e, StateSet::new(), *p),
        MuFormula::Nu(p, c, f) => fixpoint(k, c, f, e, k.states.copy(), *p),
    }
}

/// Iterates `body` in `x` from `start` until two iterates agree, at most
/// once more per state.
fn fixpoint<L: Clone + Copy>(
    k: &MixedKripkeStructure<L>,
    x: &String,
    body: &MuFormula,
    e: &Environment,
    start: StateSet,
    pos: usize,
) -> (r: Result<StateSet, MuErrors>)
    requires
        k.well_formed(),
        e.well_formed(),
    ensures
        result_view(r) == naive_fixpoint(
            k@,
            x@,
            *body,
            e@,
            members(start),
            iteration_bound(k@),
            pos,
        ),
    decreases body, 1nat,
{
    let ghost start_set = members(start);
    let ghost goal = naive_fixpoint(k@, x@, *body, e@, start_set, iteration_bound(k@), pos);
    let mut fuel = k.states.len();
    let mut cur = start;
    loop
        invariant
            k.well_formed(),
            e.well_formed(),
            naive_fixpoint(k@, x@, *body, e@, members(cur), fuel as nat, pos) == goal,
            goal == naive_fixpoint(k@, x@, *body, e@, start_set, iteration_bound(k@), pos),
            start_set == members(start),
        decreases fuel,
    {
        let mut inner = e.copy();
        inner.insert(x.clone(), cur.copy());
        let res = eval(k, body, &inner);
        match res {
            Ok(next) => {
                if next.equals(&cur) {
                    return Ok(cur);
                }
                if fuel == 0 {
                    return Err(MuErrors::NotConverging(pos));
                }
                fuel = fuel - 1;
                cur = next;
            },
            Err(err) => {
                return Err(err);
            },
        }
    }
}

} // verus!
