//! Nesting depth, alternation depth and dependent alternation depth.
use crate::formula::{find_children, lemma_subformula_smaller, size, subformulas, MuFormula};
use vstd::prelude::*;

verus! {

/// The number of fixpoint binders on the longest path from the root to a leaf.
pub open spec fn nesting_depth_of(f: MuFormula) -> nat
    decreases f,
{
    match f {
        MuFormula::Not(_, g) | MuFormula::DiamondOp(_, _, g) | MuFormula::BoxOp(_, _, g) => {
            nesting_depth_of(*g)
        },
        MuFormula::And(_, g, h) | MuFormula::Or(_, g, h) => {
            let a = nesting_depth_of(*g);
            let b = nesting_depth_of(*h);
            if a >= b { a } else { b }
        },
        MuFormula::Mu(_, _, g) | MuFormula::Nu(_, _, g) => 1 + nesting_depth_of(*g),
        _ => 0,
    }
}

/// `inner` is a fixpoint of the polarity opposite to that of `outer`.
pub open spec fn opposite_binder(outer: MuFormula, inner: MuFormula) -> bool {
    (outer is Mu && inner is Nu) || (outer is Nu && inner is Mu)
}

/// The variable that a fixpoint binder introduces.
pub open spec fn binder_variable(f: MuFormula) -> Seq<char> {
    match f {
        MuFormula::Mu(_, c, _) | MuFormula::Nu(_, c, _) => c@,
        _ => Seq::empty(),
    }
}

/// Some strict sub-formula of `f` is an occurrence of the variable `x`.
pub open spec fn variable_occurs(f: MuFormula, x: Seq<char>) -> bool {
    exists|j: int|
        0 <= j < subformulas(f).len() && (#[trigger] subformulas(f)[j]) is RecursionValue
            && subformulas(f)[j]->RecursionValue_1@ == x
}

/// `inner` is a fixpoint of opposite polarity that mentions the variable of `outer`.
pub open spec fn tied_binder(outer: MuFormula, inner: MuFormula) -> bool {
    opposite_binder(outer, inner) && variable_occurs(inner, binder_variable(outer))
}

/// The alternation depth of a formula.
pub open spec fn alternation_depth_of(f: MuFormula) -> nat
    decreases size(f), subformulas(f).len() + 2,
{
    match f {
        MuFormula::Not(_, g) | MuFormula::DiamondOp(_, _, g) | MuFormula::BoxOp(_, _, g) => {
            alternation_depth_of(*g)
        },
        MuFormula::And(_, g, h) | MuFormula::Or(_, g, h) => {
            let a = alternation_depth_of(*g);
            let b = alternation_depth_of(*h);
            if a >= b { a } else { b }
        },
        MuFormula::Mu(_, _, _) | MuFormula::Nu(_, _, _) => 1 + alternation_max(
            f,
            subformulas(f).len(),
        ),
        _ => 0,
    }
}

/// The largest alternation depth among the first `n` strict sub-formulas of
/// `f` that are binders of the opposite polarity (0 if there is none).
pub open spec fn alternation_max(f: MuFormula, n: nat) -> nat
    decreases size(f), n + 1,
{
    if n == 0 || n > subformulas(f).len() {
        0
    } else {
        let c = subformulas(f)[n - 1];
        let before = alternation_max(f, (n - 1) as nat);
        let here = if opposite_binder(f, c) {
            proof {
                lemma_subformula_smaller(f, n - 1);
            }
            alternation_depth_of(c)
        } else {
            0
        };
        if here > before { here } else { before }
    }
}

/// The dependent alternation depth of a formula.
pub open spec fn dependent_alternation_depth_of(f: MuFormula) -> nat
    decreases size(f), subformulas(f).len() + 2,
{
    match f {
        MuFormula::Not(_, g) | MuFormula::DiamondOp(_, _, g) | MuFormula::BoxOp(_, _, g) => {
            dependent_alternation_depth_of(*g)
        },
        MuFormula::And(_, g, h) | MuFormula::Or(_, g, h) => {
            let a = dependent_alternation_depth_of(*g);
            let b = dependent_alternation_depth_of(*h);
            if a >= b { a } else { b }
        },
        MuFormula::Mu(_, _, _) | MuFormula::Nu(_, _, _) => 1 + dependent_alternation_max(
            f,
            subformulas(f).len(),
        ),
        _ => 0,
    }
}

/// The largest dependent alternation depth among the first `n` strict
/// sub-formulas of `f` that are tied to `f` (0 if there is none).
pub open spec fn dependent_alternation_max(f: MuFormula, n: nat) -> nat
    decreases size(f), n + 1,
{
    if n == 0 || n > subformulas(f).len() {
        0
    } else {
        let c = subformulas(f)[n - 1];
        let before = dependent_alternation_max(f, (n - 1) as nat);
        let here = if tied_binder(f, c) {
            proof {
                lemma_subformula_smaller(f, n - 1);
            }
            dependent_alternation_depth_of(c)
        } else {
            0
        };
        if here > before { here } else { before }
    }
}

/// A strict sub-formula is nested no deeper than the formula.
pub proof fn lemma_subformula_nesting(f: MuFormula, i: int)
    requires
        0 <= i < subformulas(f).len(),
    ensures
        nesting_depth_of(subformulas(f)[i]) <= nesting_depth_of(f),
    decreases f,
{
    match f {
        MuFormula::And(_, g, h) | MuFormula::Or(_, g, h) => {
            let sg = subformulas(*g);
            let sh = subformulas(*h);
            assert(subformulas(f) == seq![*g, *h] + sg + sh);
            if i >= 2 && i < 2 + sg.len() {
                lemma_subformula_nesting(*g, i - 2);
                assert(subformulas(f)[i] == sg[i - 2]);
            } else if i >= 2 + sg.len() {
                lemma_subformula_nesting(*h, i - 2 - sg.len());
                assert(subformulas(f)[i] == sh[i - 2 - sg.len()]);
            }
        },
        MuFormula::Not(_, g) | MuFormula::DiamondOp(_, _, g) | MuFormula::BoxOp(_, _, g)
        | MuFormula::Mu(_, _, g) | MuFormula::Nu(_, _, g) => {
            assert(subformulas(f) == seq![*g] + subformulas(*g));
            if i >= 1 {
                lemma_subformula_nesting(*g, i - 1);
                assert(subformulas(f)[i] == subformulas(*g)[i - 1]);
            }
        },
        _ => {},
    }
}

/// Below a binder, every strict sub-formula is nested at least one level less.
proof fn lemma_below_binder(f: MuFormula, i: int)
    requires
        f is Mu || f is Nu,
        0 <= i < subformulas(f).len(),
    ensures
        nesting_depth_of(subformulas(f)[i]) + 1 <= nesting_depth_of(f),
{
    match f {
        MuFormula::Mu(_, _, g) | MuFormula::Nu(_, _, g) => {
            assert(subformulas(f) == seq![*g] + subformulas(*g));
            if i >= 1 {
                lemma_subformula_nesting(*g, i - 1);
                assert(subformulas(f)[i] == subformulas(*g)[i - 1]);
            }
        },
        _ => {},
    }
}

proof fn lemma_alternation_max_bound(f: MuFormula, n: nat)
    requires
        f is Mu || f is Nu,
    ensures
        alternation_max(f, n) + 1 <= nesting_depth_of(f),
    decreases size(f), n + 1,
{
    if n == 0 || n > subformulas(f).len() {
        assert(nesting_depth_of(f) >= 1);
    } else {
        let c = subformulas(f)[n - 1];
        lemma_alternation_max_bound(f, (n - 1) as nat);
        if opposite_binder(f, c) {
            lemma_subformula_smaller(f, n - 1);
            lemma_alternation_le_nesting(c);
            lemma_below_binder(f, n - 1);
        }
    }
}

/// The alternation depth never exceeds the nesting depth.
pub proof fn lemma_alternation_le_nesting(f: MuFormula)
    ensures
        alternation_depth_of(f) <= nesting_depth_of(f),
    decreases size(f), subformulas(f).len() + 2,
{
    match f {
        MuFormula::Not(_, g) | MuFormula::DiamondOp(_, _, g) | MuFormula::BoxOp(_, _, g) => {
            lemma_alternation_le_nesting(*g);
        },
        MuFormula::And(_, g, h) | MuFormula::Or(_, g, h) => {
            lemma_alternation_le_nesting(*g);
            lemma_alternation_le_nesting(*h);
        },
        MuFormula::Mu(_, _, _) | MuFormula::Nu(_, _, _) => {
            lemma_alternation_max_bound(f, subformulas(f).len());
        },
        _ => {},
    }
}

proof fn lemma_dependent_max_bound(f: MuFormula, n: nat)
    ensures
        dependent_alternation_max(f, n) <= alternation_max(f, n),
    decreases size(f), n + 1,
{
    if n > 0 && n <= subformulas(f).len() {
        let c = subformulas(f)[n - 1];
        lemma_dependent_max_bound(f, (n - 1) as nat);
        if tied_binder(f, c) {
            lemma_subformula_smaller(f, n - 1);
            lemma_dependent_le_alternation(c);
        }
    }
}

/// The dependent alternation depth never exceeds the alternation depth.
pub proof fn lemma_dependent_le_alternation(f: MuFormula)
    ensures
        dependent_alternation_depth_of(f) <= alternation_depth_of(f),
    decreases size(f), subformulas(f).len() + 2,
{
    match f {
        MuFormula::Not(_, g) | MuFormula::DiamondOp(_, _, g) | MuFormula::BoxOp(_, _, g) => {
            lemma_dependent_le_alternation(*g);
        },
        MuFormula::And(_, g, h) | MuFormula::Or(_, g, h) => {
            lemma_dependent_le_alternation(*g);
            lemma_dependent_le_alternation(*h);
        },
        MuFormula::Mu(_, _, _) | MuFormula::Nu(_, _, _) => {
            lemma_dependent_max_bound(f, subformulas(f).len());
        },
        _ => {},
    }
}

/// For every formula, the dependent alternation depth is at most the
/// alternation depth, which is at most the nesting depth.
pub proof fn lemma_depths_ordered(f: MuFormula)
    ensures
        dependent_alternation_depth_of(f) <= alternation_depth_of(f),
        alternation_depth_of(f) <= nesting_depth_of(f),
{
    lemma_dependent_le_alternation(f);
    lemma_alternation_le_nesting(f);
}

/// The nesting depth of `mu`: the number of fixpoint binders on its longest
/// root-to-leaf path.
pub fn nesting_depth(mu: &MuFormula) -> (r: u64)
    requires
        nesting_depth_of(*mu) <= u64::MAX,
    ensures
        r == nesting_depth_of(*mu),
    decreases mu,
{
    match mu {
        MuFormula::RecursionValue(_, _) | MuFormula::Bool(_, _) | MuFormula::Action(_, _) => 0,
        MuFormula::Not(_, f) | MuFormula::DiamondOp(_, _, f) | MuFormula::BoxOp(_, _, f) => {
            nesting_depth(f)
        },
        MuFormula::And(_, f, g) | MuFormula::Or(_, f, g) => {
            let a = nesting_depth(f);
            let b = nesting_depth(g);
            if a >= b {
                a
            } else {
                b
            }
        },
        MuFormula::Mu(_, _, f) | MuFormula::Nu(_, _, f) => 1 + nesting_depth(f),
    }
}

/// The alternation depth of `mu`: at a binder, one more than the largest
/// alternation depth of a strict sub-formula that is a binder of the other
/// polarity.
pub fn alternation_depth(mu: &MuFormula) -> (r: u64)
    requires
        nesting_depth_of(*mu) <= u64::MAX,
    ensures
        r == alternation_depth_of(*mu),
    decreases size(*mu),
{
    proof {
        lemma_alternation_le_nesting(*mu);
    }
    match mu {
        MuFormula::RecursionValue(_, _) | MuFormula::Bool(_, _) | MuFormula::Action(_, _) => 0,
        MuFormula::Not(_, f) | MuFormula::DiamondOp(_, _, f) | MuFormula::BoxOp(_, _, f) => {
            alternation_depth(f)
        },
        MuFormula::And(_, f, g) | MuFormula::Or(_, f, g) => {
            let a = alternation_depth(f);
            let b = alternation_depth(g);
            if a >= b {
                a
            } else {
                b
            }
        },
        MuFormula::Mu(_, _, _) | MuFormula::Nu(_, _, _) => {
            let children = find_children(mu);
            let mut m: u64 = 0;
            let mut i: usize = 0;
            while i < children.len()
                invariant
                    children@ == subformulas(*mu),
                    i <= children.len(),
                    m == alternation_max(*mu, i as nat),
                    nesting_depth_of(*mu) <= u64::MAX,
                    *mu is Mu || *mu is Nu,
                decreases children.len() - i,
            {
                let child = &children[i];
                if is_opposite_binder(mu, child) {
                    proof {
                        lemma_subformula_smaller(*mu, i as int);
                        lemma_subformula_nesting(*mu, i as int);
                    }
                    let contender = alternation_depth(child);
                    if contender > m {
                        m = contender;
                    }
                }
                i = i + 1;
            }
            proof {
                lemma_alternation_max_bound(*mu, i as nat);
            }
            1 + m
        },
    }
}

/// Whether `inner` is a fixpoint of the polarity opposite to that of `outer`.
fn is_opposite_binder(outer: &MuFormula, inner: &MuFormula) -> (r: bool)
    ensures
        r == opposite_binder(*outer, *inner),
{
    match (outer, inner) {
        (MuFormula::Mu(_, _, _), MuFormula::Nu(_, _, _)) => true,
        (MuFormula::Nu(_, _, _), MuFormula::Mu(_, _, _)) => true,
        _ => false,
    }
}

/// Whether some strict sub-formula of `mu` is an occurrence of the variable `x`.
fn mentions_variable(mu: &MuFormula, x: &String) -> (r: bool)
    ensures
        r == variable_occurs(*mu, x@),
{
    let below = find_children(mu);
    let mut does_occur = false;
    let mut j: usize = 0;
    while j < below.len()
        invariant
            below@ == subformulas(*mu),
            j <= below.len(),
            does_occur == exists|k: int|
                0 <= k < j && (#[trigger] subformulas(*mu)[k]) is RecursionValue
                    && subformulas(*mu)[k]->RecursionValue_1@ == x@,
        decreases below.len() - j,
    {
        let hit = match &below[j] {
            MuFormula::RecursionValue(_, c) => *c == *x,
            _ => false,
        };
        proof {
            let k = j as int;
            assert(hit == (subformulas(*mu)[k] is RecursionValue
                && subformulas(*mu)[k]->RecursionValue_1@ == x@));
        }
        does_occur = does_occur || hit;
        j = j + 1;
    }
    does_occur
}

/// The dependent alternation depth of `mu`: as the alternation depth, but at a
/// binder only the binders of the other polarity that mention its variable count.
pub fn dependent_alternation_depth(mu: &MuFormula) -> (r: u64)
    requires
        nesting_depth_of(*mu) <= u64::MAX,
    ensures
        r == dependent_alternation_depth_of(*mu),
    decreases size(*mu),
{
    proof {
        lemma_dependent_le_alternation(*mu);
        lemma_alternation_le_nesting(*mu);
    }
    match mu {
        MuFormula::RecursionValue(_, _) | MuFormula::Bool(_, _) | MuFormula::Action(_, _) => 0,
        MuFormula::Not(_, f) | MuFormula::DiamondOp(_, _, f) | MuFormula::BoxOp(_, _, f) => {
            dependent_alternation_depth(f)
        },
        MuFormula::And(_, f, g) | MuFormula::Or(_, f, g) => {
            let a = dependent_alternation_depth(f);
            let b = dependent_alternation_depth(g);
            if a >= b {
                a
            } else {
                b
            }
        },
        MuFormula::Mu(_, c1, _) | MuFormula::Nu(_, c1, _) => {
            let children = find_children(mu);
            let mut m: u64 = 0;
            let mut i: usize = 0;
            while i < children.len()
                invariant
                    children@ == subformulas(*mu),
                    i <= children.len(),
                    m == dependent_alternation_max(*mu, i as nat),
                    m <= alternation_max(*mu, i as nat),
                    nesting_depth_of(*mu) <= u64::MAX,
                    *mu is Mu || *mu is Nu,
                    c1@ == binder_variable(*mu),
                decreases children.len() - i,
            {
                let child = &children[i];
                if is_opposite_binder(mu, child) {
                    if mentions_variable(child, c1) {
                        proof {
                            lemma_subformula_smaller(*mu, i as int);
                            lemma_subformula_nesting(*mu, i as int);
                        }
                        let contender = dependent_alternation_depth(child);
                        if contender > m {
                            m = contender;
                        }
                    }
                }
                proof {
                    lemma_dependent_max_bound(*mu, (i + 1) as nat);
                }
                i = i + 1;
            }
            proof {
                lemma_alternation_max_bound(*mu, i as nat);
            }
            1 + m
        },
    }
}

} // verus!
