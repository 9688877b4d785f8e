use mu_calculus::aldebaran::{AutEdge, AutFile, AutHeader};
use mu_calculus::depth::{alternation_depth, dependent_alternation_depth, nesting_depth};
use mu_calculus::emerson_lei;
use mu_calculus::formula::MuFormula;
use mu_calculus::kripke::{from_aut_to_kripke, MixedKripkeStructure};
use mu_calculus::naive;
use mu_calculus::parser::read_mu_formula;

fn structure(first: u64, edges: &[(u64, &str, u64)]) -> MixedKripkeStructure<()> {
    let aut = AutFile {
        header: AutHeader {
            first_state: first,
            nr_of_transitions: edges.len(),
            nr_of_states: 0,
        },
        edges: edges
            .iter()
            .map(|(s, l, e)| AutEdge {
                start_state: *s,
                end_state: *e,
                label: l.to_string(),
            })
            .collect(),
    };
    from_aut_to_kripke(&aut)
}

fn parse(s: &str) -> MuFormula {
    read_mu_formula(s).ok().unwrap()
}

fn not(p: usize, f: MuFormula) -> MuFormula {
    MuFormula::Not(p, Box::new(f))
}

fn naive_states(k: &MixedKripkeStructure<()>, f: MuFormula) -> Vec<usize> {
    naive::evaluate(k, f).ok().unwrap().elements()
}

fn el_states(k: &MixedKripkeStructure<()>, f: MuFormula) -> Vec<usize> {
    emerson_lei::evaluate(k, f).ok().unwrap().elements()
}

fn complement(k: &MixedKripkeStructure<()>, v: &[usize]) -> Vec<usize> {
    k.states.elements().into_iter().filter(|s| !v.contains(s)).collect()
}

fn sample() -> MixedKripkeStructure<()> {
    structure(0, &[(0, "a", 1), (1, "a", 2), (2, "b", 0), (2, "a", 3), (3, "b", 3), (4, "a", 4)])
}

#[test]
fn results_are_states_of_the_structure() {
    let k = sample();
    let all = k.states.elements();
    for text in ["true", "<a>true", "[b]false", "nuX.<a>X", "muX.(<b>true||<a>X)"] {
        for s in naive_states(&k, parse(text)) {
            assert!(all.contains(&s));
        }
        for s in el_states(&k, parse(text)) {
            assert!(all.contains(&s));
        }
    }
    assert_eq!(naive_states(&k, not(0, MuFormula::Bool(1, false))), all);
}

#[test]
fn repeated_evaluation_gives_equal_sets() {
    let k = sample();
    let f = parse("nuY.muX.(<a>X||<b>Y)");
    assert_eq!(naive_states(&k, f.clone()), naive_states(&k, f.clone()));
    assert_eq!(el_states(&k, f.clone()), el_states(&k, f));
}

#[test]
fn evaluators_agree() {
    let k = sample();
    for text in [
        "<a>[b]false",
        "(<a>true&&[a]<a>true)",
        "muX.(<b>true||<a>X)",
        "nuX.<a>X",
        "nuY.muX.(<a>X||<b>Y)",
        "muY.nuX.(<a>X&&<b>Y)",
        "nuZ.muY.nuX.((<a>X||<b>Y)&&[a]Z)",
        "muX.(<b>true||muY.(<a>X||<a>Y))",
        "nuX.(<a>true&&nuY.([a]X&&[b]Y))",
        "nuW.muX.(muY.(<a>Y||<b>W)||<a>X)",
    ] {
        assert_eq!(naive_states(&k, parse(text)), el_states(&k, parse(text)), "{}", text);
    }
}

#[test]
fn diamond_is_the_complement_of_box_of_negation() {
    let k = sample();
    let phi = parse("<b>true");
    let diamond = MuFormula::DiamondOp(0, "a".to_string(), Box::new(phi.clone()));
    let boxed = MuFormula::BoxOp(0, "a".to_string(), Box::new(not(100, phi)));
    let d = naive_states(&k, diamond);
    assert_eq!(d, vec![1, 2]);
    assert_eq!(d, complement(&k, &naive_states(&k, boxed)));
}

#[test]
fn double_negation_gives_the_value_back() {
    let k = sample();
    let phi = parse("muX.(<b>true||<a>X)");
    let twice = not(100, not(101, phi.clone()));
    assert_eq!(naive_states(&k, twice), naive_states(&k, phi));
}

#[test]
fn least_fixpoint_is_dual_of_greatest() {
    let k = sample();
    // muX.(<b>true||<a>X) against nuX.!(<b>true||<a>!X)
    let least = parse("muX.(<b>true||<a>X)");
    let body = MuFormula::Or(
        5,
        Box::new(parse("<b>true")),
        Box::new(MuFormula::DiamondOp(
            15,
            "a".to_string(),
            Box::new(not(18, MuFormula::RecursionValue(18, "X".to_string()))),
        )),
    );
    let greatest = MuFormula::Nu(0, "X".to_string(), Box::new(not(4, body)));
    let l = naive_states(&k, least);
    assert_eq!(l, vec![0, 1, 2, 3]);
    assert_eq!(l, complement(&k, &naive_states(&k, greatest)));
}

#[test]
fn unused_action_gives_empty_diamond_and_full_box() {
    let k = sample();
    assert_eq!(naive_states(&k, parse("<zzz>true")), Vec::<usize>::new());
    assert_eq!(naive_states(&k, parse("[zzz]false")), k.states.elements());
    assert_eq!(el_states(&k, parse("<zzz>true")), Vec::<usize>::new());
    assert_eq!(el_states(&k, parse("[zzz]false")), k.states.elements());
}

#[test]
fn depths_are_ordered() {
    for text in ["true", "muX.nuY.(X&&Y)", "nuY.(muX.<a>X&&<b>Y)", "muX.muY.nuZ.(X||(Y&&Z))"] {
        let f = parse(text);
        let (nd, ad, dad) = (
            nesting_depth(&f),
            alternation_depth(&f),
            dependent_alternation_depth(&f),
        );
        assert!(dad <= ad && ad <= nd, "{}: {} {} {}", text, dad, ad, nd);
    }
}
