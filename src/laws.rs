//! Laws that the semantics obey.
use crate::depth::nesting_depth_of;
use crate::emerson_lei::{
    binder_entries, binder_of, el_fixpoint, el_value, emerson_lei_value, extreme, initial_slots,
    reset_binders, resolve, Bound,
};
use crate::formula::{node_position, subformulas, MuFormula};
use crate::kripke::KripkeModel;
use crate::semantics::{box_states, diamond_states, naive_fixpoint, naive_value, MuErrors};
use vstd::prelude::*;

verus! {

/// Every variable of `env` is bound to a set of states of `m`.
pub open spec fn env_within(m: KripkeModel, env: Map<Seq<char>, Set<nat>>) -> bool {
    forall|x: Seq<char>| #[trigger] env.contains_key(x) ==> env[x].subset_of(m.states)
}

/// On success, the value of a formula is a set of states of the structure.
pub proof fn lemma_naive_bounded(m: KripkeModel, f: MuFormula, env: Map<Seq<char>, Set<nat>>)
    requires
        m.well_formed(),
        env_within(m, env),
    ensures
        naive_value(m, f, env) is Ok ==> naive_value(m, f, env)->Ok_0.subset_of(m.states),
    decreases f, 0nat,
{
    match f {
        MuFormula::Not(_, g) | MuFormula::DiamondOp(_, _, g) | MuFormula::BoxOp(_, _, g) => {
            lemma_naive_bounded(m, *g, env);
        },
        MuFormula::And(_, g, h) | MuFormula::Or(_, g, h) => {
            lemma_naive_bounded(m, *g, env);
            lemma_naive_bounded(m, *h, env);
        },
        MuFormula::Mu(p, x, g) => {
            lemma_fixpoint_bounded(m, x@, *g, env, Set::empty(), m.states.len(), p);
        },
        MuFormula::Nu(p, x, g) => {
            lemma_fixpoint_bounded(m, x@, *g, env, m.states, m.states.len(), p);
        },
        _ => {},
    }
}

proof fn lemma_fixpoint_bounded(
    m: KripkeModel,
    x: Seq<char>,
    body: MuFormula,
    env: Map<Seq<char>, Set<nat>>,
    cur: Set<nat>,
    fuel: nat,
    pos: usize,
)
    requires
        m.well_formed(),
        env_within(m, env),
        cur.subset_of(m.states),
    ensures
        naive_fixpoint(m, x, body, env, cur, fuel, pos) is Ok ==> naive_fixpoint(
            m,
            x,
            body,
            env,
            cur,
            fuel,
            pos,
        )->Ok_0.subset_of(m.states),
    decreases body, fuel + 1,
{
    let inner = env.insert(x, cur);
    assert(env_within(m, inner));
    lemma_naive_bounded(m, body, inner);
    if fuel > 0 {
        if let Ok(next) = naive_value(m, body, inner) {
            lemma_fixpoint_bounded(m, x, body, env, next, (fuel - 1) as nat, pos);
        }
    }
}

/// The value of a formula depends only on the structure, the formula and the
/// environment: two evaluations of the same inputs agree.
pub proof fn lemma_naive_deterministic(
    m1: KripkeModel,
    m2: KripkeModel,
    f: MuFormula,
    env: Map<Seq<char>, Set<nat>>,
)
    requires
        m1 == m2,
    ensures
        naive_value(m1, f, env) == naive_value(m2, f, env),
{
}

/// `<a>f` holds exactly where `[a]!f` does not.
pub proof fn lemma_diamond_box_duality(
    m: KripkeModel,
    env: Map<Seq<char>, Set<nat>>,
    p: usize,
    q: usize,
    r: usize,
    a: String,
    f: MuFormula,
)
    requires
        m.well_formed(),
    ensures
        ({
            let d = naive_value(m, MuFormula::DiamondOp(p, a, Box::new(f)), env);
            let b = naive_value(
                m,
                MuFormula::BoxOp(q, a, Box::new(MuFormula::Not(r, Box::new(f)))),
                env,
            );
            match (d, b) {
                (Ok(dv), Ok(bv)) => dv == m.states.difference(bv),
                (Err(e1), Err(e2)) => e1 == e2,
                _ => false,
            }
        }),
{
    reveal_with_fuel(naive_value, 3);
    if let Ok(v) = naive_value(m, f, env) {
        let d = diamond_states(m, a@, v);
        let w = m.states.difference(v);
        let b = box_states(m, a@, w);
        assert forall|s: nat| #[trigger] d.contains(s) implies !b.contains(s) by {
            let t = choose|t: nat| m.transitions.contains((s, a@, t)) && v.contains(t);
            assert(!w.contains(t));
        }
        assert forall|s: nat| m.states.contains(s) && !b.contains(s) implies #[trigger] d.contains(s) by {
            let t = choose|t: nat| !(m.transitions.contains((s, a@, t)) ==> w.contains(t));
            assert(m.transitions.contains((s, a@, t)));
            assert(m.states.contains(t));
            assert(v.contains(t));
        }
        assert(d =~= m.states.difference(b));
    }
}

/// Negating twice gives the value back.
pub proof fn lemma_double_negation(
    m: KripkeModel,
    env: Map<Seq<char>, Set<nat>>,
    p: usize,
    q: usize,
    f: MuFormula,
)
    requires
        m.well_formed(),
        env_within(m, env),
    ensures
        naive_value(m, MuFormula::Not(p, Box::new(MuFormula::Not(q, Box::new(f)))), env)
            == naive_value(m, f, env),
{
    reveal_with_fuel(naive_value, 3);
    lemma_naive_bounded(m, f, env);
    if let Ok(v) = naive_value(m, f, env) {
        assert(m.states.difference(m.states.difference(v)) =~= v);
    }
}

/// Where no transition carries the label `a`, `<a>f` holds nowhere and
/// `[a]f` holds everywhere.
pub proof fn lemma_unused_action(
    m: KripkeModel,
    env: Map<Seq<char>, Set<nat>>,
    p: usize,
    a: String,
    f: MuFormula,
)
    requires
        forall|t: (nat, Seq<char>, nat)| #[trigger] m.transitions.contains(t) ==> t.1 != a@,
    ensures
        naive_value(m, f, env) is Ok ==> naive_value(m, MuFormula::DiamondOp(p, a, Box::new(f)), env)
            == Ok::<Set<nat>, MuErrors>(Set::empty()),
        naive_value(m, f, env) is Ok ==> naive_value(m, MuFormula::BoxOp(p, a, Box::new(f)), env)
            == Ok::<Set<nat>, MuErrors>(m.states),
{
    if let Ok(v) = naive_value(m, f, env) {
        assert forall|s: nat, t: nat| !m.transitions.contains((s, a@, t)) by {
            if m.transitions.contains((s, a@, t)) {
                assert((s, a@, t).1 == a@);
            }
        }
        assert(diamond_states(m, a@, v) =~= Set::empty());
        assert(box_states(m, a@, v) =~= m.states);
    }
}

/// `f` with every free occurrence of the variable `x` replaced by its
/// negation (the negation takes the occurrence's position).
pub open spec fn negate_occurrences(f: MuFormula, x: Seq<char>) -> MuFormula
    decreases f,
{
    match f {
        MuFormula::RecursionValue(p, y) => if y@ == x {
            MuFormula::Not(p, Box::new(f))
        } else {
            f
        },
        MuFormula::Not(p, g) => MuFormula::Not(p, Box::new(negate_occurrences(*g, x))),
        MuFormula::And(p, g, h) => MuFormula::And(
            p,
            Box::new(negate_occurrences(*g, x)),
            Box::new(negate_occurrences(*h, x)),
        ),
        MuFormula::Or(p, g, h) => MuFormula::Or(
            p,
            Box::new(negate_occurrences(*g, x)),
            Box::new(negate_occurrences(*h, x)),
        ),
        MuFormula::DiamondOp(p, a, g) => MuFormula::DiamondOp(p, a, Box::new(negate_occurrences(*g, x))),
        MuFormula::BoxOp(p, a, g) => MuFormula::BoxOp(p, a, Box::new(negate_occurrences(*g, x))),
        MuFormula::Mu(p, y, g) => if y@ == x {
            f
        } else {
            MuFormula::Mu(p, y, Box::new(negate_occurrences(*g, x)))
        },
        MuFormula::Nu(p, y, g) => if y@ == x {
            f
        } else {
            MuFormula::Nu(p, y, Box::new(negate_occurrences(*g, x)))
        },
        _ => f,
    }
}

proof fn lemma_fixpoint_ignores_shadowed(
    m: KripkeModel,
    x: Seq<char>,
    body: MuFormula,
    e1: Map<Seq<char>, Set<nat>>,
    e2: Map<Seq<char>, Set<nat>>,
    cur: Set<nat>,
    fuel: nat,
    pos: usize,
)
    requires
        forall|c: Set<nat>| #[trigger] e1.insert(x, c) == e2.insert(x, c),
    ensures
        naive_fixpoint(m, x, body, e1, cur, fuel, pos) == naive_fixpoint(m, x, body, e2, cur, fuel, pos),
    decreases fuel,
{
    assert(e1.insert(x, cur) == e2.insert(x, cur));
    if fuel > 0 {
        if let Ok(next) = naive_value(m, body, e1.insert(x, cur)) {
            lemma_fixpoint_ignores_shadowed(m, x, body, e1, e2, next, (fuel - 1) as nat, pos);
        }
    }
}

/// Evaluating `f` with `x` negated where it occurs, and `x` bound to `v`, is
/// evaluating `f` with `x` bound to the complement of `v`.
proof fn lemma_negate_occurrences(
    m: KripkeModel,
    f: MuFormula,
    x: Seq<char>,
    env: Map<Seq<char>, Set<nat>>,
    v: Set<nat>,
)
    requires
        m.well_formed(),
        env_within(m, env),
        v.subset_of(m.states),
    ensures
        naive_value(m, negate_occurrences(f, x), env.insert(x, v)) == naive_value(
            m,
            f,
            env.insert(x, m.states.difference(v)),
        ),
    decreases f, 0nat,
{
    let w = m.states.difference(v);
    match f {
        MuFormula::RecursionValue(p, y) => {
            if y@ == x {
                assert(naive_value(m, MuFormula::RecursionValue(p, y), env.insert(x, v)) == Ok::<
                    Set<nat>,
                    MuErrors,
                >(v));
            } else {
                assert(env.insert(x, v).contains_key(y@) == env.contains_key(y@));
                assert(env.insert(x, w).contains_key(y@) == env.contains_key(y@));
            }
        },
        MuFormula::Not(_, g) | MuFormula::DiamondOp(_, _, g) | MuFormula::BoxOp(_, _, g) => {
            lemma_negate_occurrences(m, *g, x, env, v);
        },
        MuFormula::And(_, g, h) | MuFormula::Or(_, g, h) => {
            lemma_negate_occurrences(m, *g, x, env, v);
            lemma_negate_occurrences(m, *h, x, env, v);
        },
        MuFormula::Mu(p, y, g) | MuFormula::Nu(p, y, g) => {
            let start = if f is Mu {
                Set::<nat>::empty()
            } else {
                m.states
            };
            if y@ == x {
                assert forall|c: Set<nat>| #[trigger] env.insert(x, v).insert(x, c) == env.insert(
                    x,
                    w,
                ).insert(x, c) by {
                    assert(env.insert(x, v).insert(x, c) =~= env.insert(x, w).insert(x, c));
                }
                lemma_fixpoint_ignores_shadowed(
                    m,
                    x,
                    *g,
                    env.insert(x, v),
                    env.insert(x, w),
                    start,
                    m.states.len(),
                    p,
                );
            } else {
                lemma_negate_fixpoint(m, y@, *g, x, env, v, start, m.states.len(), p);
            }
        },
        _ => {},
    }
}

proof fn lemma_negate_fixpoint(
    m: KripkeModel,
    y: Seq<char>,
    body: MuFormula,
    x: Seq<char>,
    env: Map<Seq<char>, Set<nat>>,
    v: Set<nat>,
    cur: Set<nat>,
    fuel: nat,
    pos: usize,
)
    requires
        m.well_formed(),
        env_within(m, env),
        v.subset_of(m.states),
        cur.subset_of(m.states),
        y != x,
    ensures
        naive_fixpoint(m, y, negate_occurrences(body, x), env.insert(x, v), cur, fuel, pos)
            == naive_fixpoint(m, y, body, env.insert(x, m.states.difference(v)), cur, fuel, pos),
    decreases body, fuel + 1,
{
    let w = m.states.difference(v);
    let inner = env.insert(y, cur);
    assert(env.insert(x, v).insert(y, cur) =~= inner.insert(x, v));
    assert(env.insert(x, w).insert(y, cur) =~= inner.insert(x, w));
    assert(env_within(m, inner));
    lemma_negate_occurrences(m, body, x, inner, v);
    assert(env_within(m, inner.insert(x, w)));
    lemma_naive_bounded(m, body, inner.insert(x, w));
    if fuel > 0 {
        if let Ok(next) = naive_value(m, body, inner.insert(x, w)) {
            lemma_negate_fixpoint(m, y, body, x, env, v, next, (fuel - 1) as nat, pos);
        }
    }
}

proof fn lemma_dual_iteration(
    m: KripkeModel,
    x: Seq<char>,
    g: MuFormula,
    q: usize,
    env: Map<Seq<char>, Set<nat>>,
    cur: Set<nat>,
    fuel: nat,
    pos: usize,
)
    requires
        m.well_formed(),
        env_within(m, env),
        cur.subset_of(m.states),
    ensures
        ({
            let least = naive_fixpoint(m, x, g, env, cur, fuel, pos);
            let greatest = naive_fixpoint(
                m,
                x,
                MuFormula::Not(q, Box::new(negate_occurrences(g, x))),
                env,
                m.states.difference(cur),
                fuel,
                pos,
            );
            match (least, greatest) {
                (Ok(a), Ok(b)) => a == m.states.difference(b),
                (Err(e1), Err(e2)) => e1 == e2,
                _ => false,
            }
        }),
    decreases fuel,
{
    let dual = m.states.difference(cur);
    let ng = negate_occurrences(g, x);
    assert(m.states.difference(dual) =~= cur);
    lemma_negate_occurrences(m, g, x, env, dual);
    assert(env_within(m, env.insert(x, cur)));
    lemma_naive_bounded(m, g, env.insert(x, cur));
    assert(naive_value(m, MuFormula::Not(q, Box::new(ng)), env.insert(x, dual)) == match naive_value(
        m,
        ng,
        env.insert(x, dual),
    ) {
        Ok(a) => Ok(m.states.difference(a)),
        Err(e) => Err::<Set<nat>, MuErrors>(e),
    });
    if let Ok(next) = naive_value(m, g, env.insert(x, cur)) {
        let dnext = m.states.difference(next);
        assert(m.states.difference(dnext) =~= next);
        if next == cur {
            assert(dnext == dual);
        } else {
            if dnext == dual {
                assert(m.states.difference(dnext) == m.states.difference(dual));
            }
            if fuel > 0 {
                lemma_dual_iteration(m, x, g, q, env, next, (fuel - 1) as nat, pos);
            }
        }
    }
}

/// A least fixpoint holds exactly where the greatest fixpoint of the dual body
/// does not: `muX.g` against `nuX.!g'`, where `g'` is `g` with `X` negated.
pub proof fn lemma_least_greatest_duality(
    m: KripkeModel,
    env: Map<Seq<char>, Set<nat>>,
    p: usize,
    q: usize,
    x: String,
    g: MuFormula,
)
    requires
        m.well_formed(),
        env_within(m, env),
    ensures
        ({
            let least = naive_value(m, MuFormula::Mu(p, x, Box::new(g)), env);
            let greatest = naive_value(
                m,
                MuFormula::Nu(
                    p,
                    x,
                    Box::new(MuFormula::Not(q, Box::new(negate_occurrences(g, x@)))),
                ),
                env,
            );
            match (least, greatest) {
                (Ok(a), Ok(b)) => a == m.states.difference(b),
                (Err(e1), Err(e2)) => e1 == e2,
                _ => false,
            }
        }),
{
    assert(m.states.difference(Set::empty()) =~= m.states);
    lemma_dual_iteration(m, x@, g, q, env, Set::empty(), m.states.len(), p);
}

/// The environment that a scope and its slots stand for: each name maps to
/// what the slot of its innermost binder holds.
pub open spec fn scoped_env(scope: Seq<(Seq<char>, usize)>, slots: Map<usize, Set<nat>>) -> Map<
    Seq<char>,
    Set<nat>,
> {
    Map::new(
        |x: Seq<char>| resolve(scope, x) is Some && slots.contains_key(resolve(scope, x)->Some_0),
        |x: Seq<char>| slots[resolve(scope, x)->Some_0],
    )
}

proof fn lemma_agree_without_binders(
    m: KripkeModel,
    vars: Seq<(MuFormula, Bound)>,
    f: MuFormula,
    scope: Seq<(Seq<char>, usize)>,
    slots: Map<usize, Set<nat>>,
)
    requires
        nesting_depth_of(f) == 0,
    ensures
        el_value(m, vars, f, scope, slots) == match naive_value(m, f, scoped_env(scope, slots)) {
            Ok(v) => Ok((v, slots)),
            Err(e) => Err(e),
        },
    decreases f,
{
    match f {
        MuFormula::Not(_, g) | MuFormula::DiamondOp(_, _, g) | MuFormula::BoxOp(_, _, g) => {
            lemma_agree_without_binders(m, vars, *g, scope, slots);
        },
        MuFormula::And(_, g, h) | MuFormula::Or(_, g, h) => {
            lemma_agree_without_binders(m, vars, *g, scope, slots);
            lemma_agree_without_binders(m, vars, *h, scope, slots);
        },
        _ => {},
    }
}

/// On formulas without fixpoint binders, the Emerson-Lei evaluator and the
/// naive evaluator agree.
pub proof fn lemma_evaluators_agree_without_binders(m: KripkeModel, f: MuFormula)
    requires
        nesting_depth_of(f) == 0,
    ensures
        emerson_lei_value(m, f) == naive_value(m, f, Map::empty()),
{
    let vars = binder_entries(f, Bound::Unbound);
    let slots = initial_slots(m, vars, vars.len());
    lemma_agree_without_binders(m, vars, f, Seq::empty(), slots);
    assert(scoped_env(Seq::empty(), slots) =~= Map::<Seq<char>, Set<nat>>::empty());
}

proof fn lemma_entries_without_binders(f: MuFormula, b: Bound)
    requires
        nesting_depth_of(f) == 0,
    ensures
        forall|i: int|
            0 <= i < binder_entries(f, b).len() ==> !((#[trigger] binder_entries(f, b)[i]).0 is Mu
                || binder_entries(f, b)[i].0 is Nu),
    decreases f,
{
    match f {
        MuFormula::Not(_, g) | MuFormula::DiamondOp(_, _, g) | MuFormula::BoxOp(_, _, g) => {
            lemma_entries_without_binders(*g, b);
            assert(binder_entries(f, b) == seq![(f, b)] + binder_entries(*g, b));
        },
        MuFormula::And(_, g, h) | MuFormula::Or(_, g, h) => {
            lemma_entries_without_binders(*g, b);
            lemma_entries_without_binders(*h, b);
            assert(binder_entries(f, b) == seq![(f, b)] + binder_entries(*g, b) + binder_entries(*h, b));
        },
        _ => {
            assert(binder_entries(f, b) == seq![(f, b)]);
        },
    }
}

proof fn lemma_single_binder_slots(m: KripkeModel, f: MuFormula, n: nat)
    requires
        f is Mu || f is Nu,
        forall|i: int|
            1 <= i < binder_entries(f, Bound::Unbound).len() ==> !((#[trigger] binder_entries(
                f,
                Bound::Unbound,
            )[i]).0 is Mu || binder_entries(f, Bound::Unbound)[i].0 is Nu),
        binder_entries(f, Bound::Unbound)[0] == (f, Bound::Unbound),
        1 <= n <= binder_entries(f, Bound::Unbound).len(),
    ensures
        initial_slots(m, binder_entries(f, Bound::Unbound), n) == Map::<usize, Set<nat>>::empty().insert(
            node_position(f),
            extreme(m, f is Mu),
        ),
    decreases n,
{
    let vars = binder_entries(f, Bound::Unbound);
    if n == 1 {
        assert(initial_slots(m, vars, 0) == Map::<usize, Set<nat>>::empty());
    } else {
        lemma_single_binder_slots(m, f, (n - 1) as nat);
        assert(!(vars[n - 1].0 is Mu || vars[n - 1].0 is Nu));
    }
}

proof fn lemma_single_binder_iteration(
    m: KripkeModel,
    vars: Seq<(MuFormula, Bound)>,
    x: Seq<char>,
    p: usize,
    g: MuFormula,
    cur: Set<nat>,
    fuel: nat,
)
    requires
        nesting_depth_of(g) == 0,
    ensures
        match el_fixpoint(
            m,
            vars,
            seq![(x, p)],
            g,
            Map::empty().insert(p, cur),
            fuel,
            p,
        ) {
            Ok((v, _)) => naive_fixpoint(m, x, g, Map::empty(), cur, fuel, p) == Ok::<
                Set<nat>,
                MuErrors,
            >(v),
            Err(e) => naive_fixpoint(m, x, g, Map::empty(), cur, fuel, p) == Err::<Set<nat>, MuErrors>(e),
        },
    decreases fuel,
{
    let slots = Map::<usize, Set<nat>>::empty().insert(p, cur);
    let scope = seq![(x, p)];
    lemma_agree_without_binders(m, vars, g, scope, slots);
    assert(scope.drop_last() =~= Seq::<(Seq<char>, usize)>::empty());
    assert(scope.last() == (x, p));
    assert forall|y: Seq<char>| #[trigger] resolve(scope, y) == (if y == x {
        Some(p)
    } else {
        None::<usize>
    }) by {
        assert(resolve(Seq::<(Seq<char>, usize)>::empty(), y) is None);
    }
    assert(scoped_env(scope, slots) =~= Map::<Seq<char>, Set<nat>>::empty().insert(x, cur));
    if let Ok(next) = naive_value(m, g, Map::<Seq<char>, Set<nat>>::empty().insert(x, cur)) {
        assert(slots.insert(p, next) =~= Map::<usize, Set<nat>>::empty().insert(p, next));
        if fuel > 0 {
            lemma_single_binder_iteration(m, vars, x, p, g, next, (fuel - 1) as nat);
        }
    }
}

/// On a single fixpoint binder over a body without binders, the Emerson-Lei
/// evaluator and the naive evaluator agree.
pub proof fn lemma_evaluators_agree_on_single_binder(m: KripkeModel, f: MuFormula)
    requires
        f is Mu || f is Nu,
        nesting_depth_of(f) == 1,
    ensures
        emerson_lei_value(m, f) == naive_value(m, f, Map::empty()),
{
    let vars = binder_entries(f, Bound::Unbound);
    match f {
        MuFormula::Mu(p, x, g) | MuFormula::Nu(p, x, g) => {
            let b = if f is Mu {
                Bound::Mu(f)
            } else {
                Bound::Nu(f)
            };
            lemma_entries_without_binders(*g, b);
            assert(vars == seq![(f, Bound::Unbound)] + binder_entries(*g, b));
            assert forall|i: int| 1 <= i < vars.len() implies !((#[trigger] vars[i]).0 is Mu
                || vars[i].0 is Nu) by {
                assert(vars[i] == binder_entries(*g, b)[i - 1]);
            }
            lemma_single_binder_slots(m, f, vars.len());
            assert(binder_of(vars, p) == Bound::Unbound);
            assert(Seq::<(Seq<char>, usize)>::empty().push((x@, p)) =~= seq![(x@, p)]);
            lemma_single_binder_iteration(m, vars, x@, p, *g, extreme(m, f is Mu), m.states.len());
        },
        _ => {},
    }
}

/// Every slot holds a set of states of `m`.
pub open spec fn slots_within(m: KripkeModel, slots: Map<usize, Set<nat>>) -> bool {
    forall|p: usize| #[trigger] slots.contains_key(p) ==> slots[p].subset_of(m.states)
}

proof fn lemma_initial_slots_within(m: KripkeModel, vars: Seq<(MuFormula, Bound)>, n: nat)
    ensures
        slots_within(m, initial_slots(m, vars, n)),
    decreases n,
{
    if n > 0 && n <= vars.len() {
        lemma_initial_slots_within(m, vars, (n - 1) as nat);
    }
}

proof fn lemma_reset_within(
    m: KripkeModel,
    f: MuFormula,
    least: bool,
    slots: Map<usize, Set<nat>>,
    n: nat,
)
    requires
        slots_within(m, slots),
    ensures
        slots_within(m, reset_binders(m, f, least, slots, n)),
    decreases n,
{
    assert(extreme(m, least).subset_of(m.states));
    if n > 0 && n <= subformulas(f).len() {
        lemma_reset_within(m, f, least, slots, (n - 1) as nat);
    }
}

/// Under the Emerson-Lei discipline too, values and the slots they leave
/// behind stay within the states of the structure.
pub proof fn lemma_emerson_lei_bounded(
    m: KripkeModel,
    vars: Seq<(MuFormula, Bound)>,
    f: MuFormula,
    scope: Seq<(Seq<char>, usize)>,
    slots: Map<usize, Set<nat>>,
)
    requires
        m.well_formed(),
        slots_within(m, slots),
    ensures
        el_value(m, vars, f, scope, slots) is Ok ==> el_value(m, vars, f, scope, slots)->Ok_0.0.subset_of(
            m.states,
        ) && slots_within(m, el_value(m, vars, f, scope, slots)->Ok_0.1),
    decreases f, 0nat,
{
    match f {
        MuFormula::Not(_, g) | MuFormula::DiamondOp(_, _, g) | MuFormula::BoxOp(_, _, g) => {
            lemma_emerson_lei_bounded(m, vars, *g, scope, slots);
        },
        MuFormula::And(_, g, h) | MuFormula::Or(_, g, h) => {
            lemma_emerson_lei_bounded(m, vars, *g, scope, slots);
            if let Ok((_, e1)) = el_value(m, vars, *g, scope, slots) {
                lemma_emerson_lei_bounded(m, vars, *h, scope, e1);
            }
        },
        MuFormula::Mu(p, x, g) | MuFormula::Nu(p, x, g) => {
            let least = f is Mu;
            lemma_reset_within(m, f, least, slots, subformulas(f).len());
            let outer = binder_of(vars, p);
            let e1 = if (least && outer is Nu) || (!least && outer is Mu) {
                reset_binders(m, f, least, slots, subformulas(f).len())
            } else {
                slots
            };
            let e2 = if e1.contains_key(p) {
                e1
            } else {
                e1.insert(p, extreme(m, least))
            };
            assert(slots_within(m, e2));
            lemma_el_fixpoint_bounded(m, vars, scope.push((x@, p)), *g, e2, m.states.len(), p);
        },
        _ => {},
    }
}

proof fn lemma_el_fixpoint_bounded(
    m: KripkeModel,
    vars: Seq<(MuFormula, Bound)>,
    scope: Seq<(Seq<char>, usize)>,
    body: MuFormula,
    slots: Map<usize, Set<nat>>,
    fuel: nat,
    p: usize,
)
    requires
        m.well_formed(),
        slots_within(m, slots),
        slots.contains_key(p),
    ensures
        el_fixpoint(m, vars, scope, body, slots, fuel, p) is Ok ==> el_fixpoint(
            m,
            vars,
            scope,
            body,
            slots,
            fuel,
            p,
        )->Ok_0.0.subset_of(m.states) && slots_within(
            m,
            el_fixpoint(m, vars, scope, body, slots, fuel, p)->Ok_0.1,
        ),
    decreases body, fuel + 1,
{
    lemma_emerson_lei_bounded(m, vars, body, scope, slots);
    if let Ok((next, e1)) = el_value(m, vars, body, scope, slots) {
        assert(slots_within(m, e1.insert(p, next)));
        if fuel > 0 {
            lemma_el_fixpoint_bounded(m, vars, scope, body, e1.insert(p, next), (fuel - 1) as nat, p);
        }
    }
}

/// The Emerson-Lei value of a closed formula is a set of states of the structure.
pub proof fn lemma_emerson_lei_value_bounded(m: KripkeModel, f: MuFormula)
    requires
        m.well_formed(),
    ensures
        emerson_lei_value(m, f) is Ok ==> emerson_lei_value(m, f)->Ok_0.subset_of(m.states),
{
    let vars = binder_entries(f, Bound::Unbound);
    lemma_initial_slots_within(m, vars, vars.len());
    lemma_emerson_lei_bounded(m, vars, f, Seq::empty(), initial_slots(m, vars, vars.len()));
}

} // verus!
