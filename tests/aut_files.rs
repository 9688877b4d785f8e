use mu_calculus::aldebaran::{parse_aut_edge, parse_aut_header, read_aut_lines};
use mu_calculus::kripke::from_aut_to_kripke;
use mu_calculus::naive;

#[test]
fn header_is_read() {
    let h = parse_aut_header("des (0,3,4)").unwrap();
    assert_eq!(h.first_state, 0);
    assert_eq!(h.nr_of_transitions, 3);
    assert_eq!(h.nr_of_states, 4);
    let h = parse_aut_header("des (12,0,1)   ").unwrap();
    assert_eq!(h.first_state, 12);
}

#[test]
fn malformed_headers_are_refused() {
    assert!(parse_aut_header("des (0,3)").is_none());
    assert!(parse_aut_header("des(0,3,4)").is_none());
    assert!(parse_aut_header("des (a,3,4)").is_none());
    assert!(parse_aut_header("des (99999999999999999999,3,4)").is_none());
}

#[test]
fn edges_are_read() {
    let e = parse_aut_edge("(0,\"lock(p1, f1)\",17)").unwrap();
    assert_eq!(e.start_state, 0);
    assert_eq!(e.label, "lock(p1, f1)");
    assert_eq!(e.end_state, 17);
    let e = parse_aut_edge("(3,\"tau\",3)").unwrap();
    assert_eq!((e.start_state, e.label.as_str(), e.end_state), (3, "tau", 3));
}

#[test]
fn malformed_edges_are_refused() {
    assert!(parse_aut_edge("(0,tau,1)").is_none());
    assert!(parse_aut_edge("(0,\"tau\",)").is_none());
    assert!(parse_aut_edge("0,\"tau\",1").is_none());
    assert!(parse_aut_edge("(,\"tau\",1)").is_none());
}

#[test]
fn whole_file_is_read_and_built() {
    let lines: Vec<String> = ["des (0,3,3)", "(0,\"a\",1)", "", "(1,\"a\",2)", "(0,\"a\",2)"]
        .iter()
        .map(|s| s.to_string())
        .collect();
    let aut = read_aut_lines(&lines).unwrap();
    assert_eq!(aut.header.nr_of_states, 3);
    assert_eq!(aut.edges.len(), 3);
    let k = from_aut_to_kripke(&aut);
    assert_eq!(k.states.elements(), vec![0, 1, 2]);
    assert_eq!(k.init_states.elements(), vec![0]);
    // (0,a) has two successors and is kept as one entry.
    assert_eq!(k.relations.len(), 2);
    let f = mu_calculus::parser::read_mu_formula("<a><a>true").unwrap();
    assert_eq!(naive::evaluate(&k, f).unwrap().elements(), vec![0]);
}

#[test]
fn file_with_bad_line_is_refused() {
    let lines: Vec<String> = ["des (0,1,2)", "(0,a,1)"].iter().map(|s| s.to_string()).collect();
    assert!(read_aut_lines(&lines).is_none());
    assert!(read_aut_lines(&Vec::new()).is_none());
}
