use mu_calculus::emerson_lei;
use mu_calculus::formula::MuFormula;
use mu_calculus::aldebaran::{AutEdge, AutFile, AutHeader};
use mu_calculus::kripke::{from_aut_to_kripke, MixedKripkeStructure};
use mu_calculus::naive;
use mu_calculus::semantics::MuErrors;

fn lts(first: u64, n_states: usize, edges: &[(u64, &str, u64)]) -> MixedKripkeStructure<()> {
    let aut = AutFile {
        header: AutHeader {
            first_state: first,
            nr_of_transitions: edges.len(),
            nr_of_states: n_states,
        },
        edges: edges
            .iter()
            .map(|(s, l, e)| AutEdge {
                start_state: *s,
                end_state: *e,
                label: l.to_string(),
            })
            .collect(),
    };
    from_aut_to_kripke(&aut)
}

fn tt(p: usize) -> MuFormula {
    MuFormula::Bool(p, true)
}

fn ff(p: usize) -> MuFormula {
    MuFormula::Bool(p, false)
}

fn var(p: usize, x: &str) -> MuFormula {
    MuFormula::RecursionValue(p, x.to_string())
}

fn dia(p: usize, a: &str, f: MuFormula) -> MuFormula {
    MuFormula::DiamondOp(p, a.to_string(), Box::new(f))
}

fn bx(p: usize, a: &str, f: MuFormula) -> MuFormula {
    MuFormula::BoxOp(p, a.to_string(), Box::new(f))
}

fn or(p: usize, f: MuFormula, g: MuFormula) -> MuFormula {
    MuFormula::Or(p, Box::new(f), Box::new(g))
}

fn mu(p: usize, x: &str, f: MuFormula) -> MuFormula {
    MuFormula::Mu(p, x.to_string(), Box::new(f))
}

fn nu(p: usize, x: &str, f: MuFormula) -> MuFormula {
    MuFormula::Nu(p, x.to_string(), Box::new(f))
}

fn both(k: &MixedKripkeStructure<()>, f: MuFormula) -> Vec<usize> {
    let a = naive::evaluate(k, f.clone()).unwrap().elements();
    let b = emerson_lei::evaluate(k, f).unwrap().elements();
    assert_eq!(a, b);
    a
}

#[test]
fn two_state_sink() {
    let k = lts(0, 2, &[(0, "a", 1)]);
    assert_eq!(both(&k, dia(0, "a", tt(3))), vec![0]);
    assert_eq!(both(&k, bx(0, "a", ff(3))), vec![1]);
}

#[test]
fn self_loop() {
    let k = lts(0, 1, &[(0, "a", 0)]);
    assert_eq!(both(&k, nu(0, "X", dia(4, "a", var(7, "X")))), vec![0]);
    assert_eq!(both(&k, mu(0, "X", dia(4, "a", var(7, "X")))), Vec::<usize>::new());
}

#[test]
fn reachability() {
    let k = lts(0, 3, &[(0, "a", 1), (1, "a", 2), (2, "end", 2)]);
    let f = mu(0, "X", or(4, dia(5, "end", tt(10)), dia(16, "a", var(19, "X"))));
    assert_eq!(both(&k, f), vec![0, 1, 2]);
}

#[test]
fn liveness_cycle() {
    let k = lts(0, 2, &[(0, "a", 1), (1, "a", 0)]);
    let f = nu(0, "Y", mu(4, "X", or(8, dia(9, "a", var(12, "X")), dia(15, "a", var(18, "Y")))));
    assert_eq!(both(&k, f), vec![0, 1]);
}

#[test]
fn disjoint_components() {
    let k = lts(0, 3, &[(0, "a", 0), (1, "b", 1), (2, "c", 2)]);
    assert_eq!(both(&k, dia(0, "a", tt(3))), vec![0]);
    assert_eq!(both(&k, dia(0, "b", tt(3))), vec![1]);
}

#[test]
fn nested_alternation() {
    // 0 -a-> 1 -a-> 2 -a-> 0, and 2 -b-> 3; 3 has no way back.
    let k = lts(0, 4, &[(0, "a", 1), (1, "a", 2), (2, "a", 0), (2, "b", 3)]);
    let f = nu(0, "Y", mu(4, "X", or(8, dia(9, "a", var(12, "X")), dia(15, "b", var(18, "Y")))));
    assert_eq!(both(&k, f), Vec::<usize>::new());
    // With 3 -b-> 3 every state of the a-cycle reaches a b-step back into the set.
    let k = lts(0, 4, &[(0, "a", 1), (1, "a", 2), (2, "a", 0), (2, "b", 3), (3, "b", 3)]);
    let f = nu(0, "Y", mu(4, "X", or(8, dia(9, "a", var(12, "X")), dia(15, "b", var(18, "Y")))));
    assert_eq!(both(&k, f), vec![0, 1, 2, 3]);
}

#[test]
fn unbound_variable_is_reported() {
    let k = lts(0, 1, &[(0, "a", 0)]);
    match naive::evaluate(&k, dia(0, "a", var(3, "Z"))) {
        Err(MuErrors::VarNotFound(x)) => assert_eq!(x, "Z"),
        other => panic!("unexpected {:?}", other.map(|s| s.elements())),
    }
    match emerson_lei::evaluate(&k, var(0, "Z")) {
        Err(MuErrors::VarNotFound(x)) => assert_eq!(x, "Z"),
        other => panic!("unexpected {:?}", other.map(|s| s.elements())),
    }
}

#[test]
fn non_monotone_fixpoint_is_reported() {
    let k = lts(0, 1, &[(0, "a", 0)]);
    let f = mu(5, "X", MuFormula::Not(8, Box::new(var(9, "X"))));
    match naive::evaluate(&k, f.clone()) {
        Err(MuErrors::NotConverging(p)) => assert_eq!(p, 5),
        other => panic!("unexpected {:?}", other.map(|s| s.elements())),
    }
    match emerson_lei::evaluate(&k, f) {
        Err(MuErrors::NotConverging(p)) => assert_eq!(p, 5),
        other => panic!("unexpected {:?}", other.map(|s| s.elements())),
    }
}

#[test]
fn sibling_binders_sharing_a_name_are_independent() {
    let one = lts(0, 1, &[]);
    let f = or(0, nu(1, "X", var(5, "X")), mu(7, "X", var(11, "X")));
    assert_eq!(both(&one, f), vec![0]);
    let g = MuFormula::And(0, Box::new(mu(1, "X", tt(5))), Box::new(mu(11, "X", var(15, "X"))));
    assert_eq!(both(&one, g), Vec::<usize>::new());
    let k = lts(0, 2, &[(0, "a", 1), (1, "a", 0), (0, "b", 0)]);
    let h = MuFormula::And(
        0,
        Box::new(mu(1, "X", dia(5, "b", tt(8)))),
        Box::new(mu(14, "X", dia(18, "a", var(21, "X")))),
    );
    assert_eq!(both(&k, h), Vec::<usize>::new());
}

#[test]
fn closed_inner_fixpoint_is_reused() {
    // The inner fixpoint has no free variable; its value is the same on each
    // iteration of the outer one.
    let k = lts(0, 4, &[(0, "a", 1), (1, "a", 2), (2, "a", 2), (2, "b", 2), (3, "a", 3)]);
    let inner = mu(10, "Z", or(14, dia(15, "b", tt(18)), dia(24, "a", var(27, "Z"))));
    let f = nu(0, "Y", MuFormula::And(4, Box::new(inner), Box::new(dia(30, "a", var(33, "Y")))));
    assert_eq!(both(&k, f), vec![0, 1, 2]);
}

#[test]
fn built_structure_has_no_state_labels() {
    let k = lts(0, 2, &[(0, "a", 1)]);
    assert!(k.label.is_empty());
}
