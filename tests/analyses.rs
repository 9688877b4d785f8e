use mu_calculus::depth::{alternation_depth, dependent_alternation_depth, nesting_depth};
use mu_calculus::emerson_lei::{find_variables, free_variables, Bound};
use mu_calculus::formula::{find_children, position, MuFormula};
use mu_calculus::parser::read_mu_formula;

fn parse(s: &str) -> MuFormula {
    match read_mu_formula(s) {
        Ok(f) => f,
        Err(e) => panic!("no formula at offset {}", e.offset),
    }
}

#[test]
fn depths_of_atoms_are_zero() {
    let f = parse("true");
    assert_eq!(nesting_depth(&f), 0);
    assert_eq!(alternation_depth(&f), 0);
    assert_eq!(dependent_alternation_depth(&f), 0);
}

#[test]
fn depths_of_alternating_chain() {
    // nu Y. mu X. (<a>X || <b>Y): X and Y alternate and depend on each other.
    let f = parse("nuY.muX.(<a>X||<b>Y)");
    assert_eq!(nesting_depth(&f), 2);
    assert_eq!(alternation_depth(&f), 2);
    assert_eq!(dependent_alternation_depth(&f), 2);
}

#[test]
fn dependent_depth_ignores_independent_inner_binder() {
    // The inner mu does not mention Y, so it does not count for the dependent depth.
    let f = parse("nuY.(muX.<a>X&&<b>Y)");
    assert_eq!(nesting_depth(&f), 2);
    assert_eq!(alternation_depth(&f), 2);
    assert_eq!(dependent_alternation_depth(&f), 1);
}

#[test]
fn same_polarity_nesting_does_not_alternate() {
    let f = parse("muX.muY.(X||Y)");
    assert_eq!(nesting_depth(&f), 2);
    assert_eq!(alternation_depth(&f), 1);
    assert_eq!(dependent_alternation_depth(&f), 1);
}

#[test]
fn depths_take_the_larger_operand() {
    let f = parse("(muX.nuY.muZ.(X&&(Y||Z))||nuW.W)");
    assert_eq!(nesting_depth(&f), 3);
    assert_eq!(alternation_depth(&f), 3);
    assert_eq!(dependent_alternation_depth(&f), 3);
}

#[test]
fn children_are_listed_with_their_positions() {
    let f = parse("(<a>true&&X)");
    let kids: Vec<usize> = find_children(&f).iter().map(position).collect();
    // operands first, then what lies below each operand
    assert_eq!(kids, vec![1, 10, 4]);
    assert_eq!(position(&f), 0);
}

#[test]
fn parser_reads_positions() {
    let f = parse("muX.<a_b>X");
    match f {
        MuFormula::Mu(0, x, body) => {
            assert_eq!(x, "X");
            match *body {
                MuFormula::DiamondOp(4, a, inner) => {
                    assert_eq!(a, "a_b");
                    assert!(matches!(*inner, MuFormula::RecursionValue(9, _)));
                }
                _ => panic!("expected a diamond"),
            }
        }
        _ => panic!("expected a least fixpoint"),
    }
}

#[test]
fn parser_rejects_malformed_text() {
    assert!(read_mu_formula("").is_err());
    assert!(read_mu_formula("(true&&false").is_err());
    assert!(read_mu_formula("true false").is_err());
    assert!(read_mu_formula("<A>true").is_err());
    assert!(read_mu_formula("mux.true").is_err());
    assert!(read_mu_formula("truex").is_err());
}

#[test]
fn printing_round_trips_without_spaces() {
    for text in ["nuY.muX.(<a>X||<b>Y)", "[act]false", "(X&&true)"] {
        let f = parse(text);
        assert_eq!(f.to_string().replace(' ', ""), text);
    }
    assert_eq!(parse("muX.X").to_string(), "mu X.X");
    let neg = MuFormula::Not(0, Box::new(MuFormula::Bool(1, true)));
    assert_eq!(neg.to_string(), "!(true)");
}

#[test]
fn binder_map_records_nearest_binder() {
    let f = parse("nuY.muX.(X||Y)");
    let vars = find_variables(&f, Bound::Unbound);
    let kinds: Vec<(usize, &str)> = vars
        .iter()
        .map(|(node, b)| {
            (
                position(node),
                match b {
                    Bound::Unbound => "none",
                    Bound::Mu(_) => "mu",
                    Bound::Nu(_) => "nu",
                },
            )
        })
        .collect();
    assert_eq!(kinds, vec![(0, "none"), (4, "nu"), (8, "mu"), (9, "mu"), (12, "mu")]);
}

#[test]
fn free_variables_follow_scopes() {
    let f = parse("nuY.muX.(X||Y)");
    assert!(free_variables(&f).is_empty());
    if let MuFormula::Nu(_, _, inner) = &f {
        assert_eq!(free_variables(inner), vec!["Y".to_string()]);
    } else {
        panic!("expected a greatest fixpoint");
    }
    assert_eq!(free_variables(&parse("(X&&muX.X)")), vec!["X".to_string()]);
}

#[test]
fn nodes_are_equal_by_position() {
    let a = MuFormula::Bool(3, true);
    let b = MuFormula::RecursionValue(3, "X".to_string());
    let c = MuFormula::Bool(4, true);
    assert!(a == b);
    assert!(a != c);
}
