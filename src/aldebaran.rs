//! Labelled transition systems in the Aldebaran (AUT) text format.
use crate::text::chars_of;
use vstd::prelude::*;
use vstd::string::StrSliceExecFns;

verus! {

/// The header line of an Aldebaran file: `des (first_state, nr_of_transitions, nr_of_states)`.
#[derive(Debug, Clone, PartialEq)]
pub struct AutHeader {
    pub first_state: u64,
    pub nr_of_transitions: usize,
    pub nr_of_states: usize,
}

/// One transition line of an Aldebaran file: `(start_state,"label",end_state)`.
#[derive(Debug, Clone, PartialEq)]
pub struct AutEdge {
    pub start_state: u64,
    pub end_state: u64,
    pub label: String,
}

/// A whole Aldebaran file.
#[derive(Debug, Clone, PartialEq)]
pub struct AutFile {
    pub header: AutHeader,
    pub edges: Vec<AutEdge>,
}

impl AutFile {
    /// Every state the file names is below the largest 32-bit value.
    pub open spec fn states_fit(&self) -> bool {
        &&& self.header.first_state < u32::MAX
        &&& forall|i: int|
            0 <= i < self.edges.len() ==> (#[trigger] self.edges[i]).start_state < u32::MAX
                && self.edges[i].end_state < u32::MAX
    }

    /// The states the file names: the first state and both ends of every edge.
    pub open spec fn named_states(&self) -> Set<nat> {
        Set::new(
            |s: nat|
                s == self.header.first_state || exists|i: int|
                    0 <= i < self.edges.len() && (s == (#[trigger] self.edges[i]).start_state
                        || s == self.edges[i].end_state),
        )
    }

    /// The transitions of the file, as (source, label, target).
    pub open spec fn transitions(&self) -> Set<(nat, Seq<char>, nat)> {
        edge_triples(self.edges@, self.edges.len() as int)
    }
}

/// The transition that an edge stands for.
pub open spec fn edge_triple(e: AutEdge) -> (nat, Seq<char>, nat) {
    (e.start_state as nat, e.label@, e.end_state as nat)
}

/// The transitions of the first `n` edges.
pub open spec fn edge_triples(edges: Seq<AutEdge>, n: int) -> Set<(nat, Seq<char>, nat)> {
    Set::new(
        |t: (nat, Seq<char>, nat)| exists|j: int| 0 <= j < n && t == edge_triple(#[trigger] edges[j]),
    )
}

pub proof fn lemma_edge_triples_step(edges: Seq<AutEdge>, n: int)
    requires
        0 <= n < edges.len(),
    ensures
        edge_triples(edges, n + 1) == edge_triples(edges, n).insert(edge_triple(edges[n])),
{
    assert forall|t: (nat, Seq<char>, nat)|
        edge_triples(edges, n + 1).contains(t) implies edge_triples(edges, n).insert(
            edge_triple(edges[n]),
        ).contains(t) by {
        let j = choose|j: int| 0 <= j < n + 1 && t == edge_triple(#[trigger] edges[j]);
        if j < n {
            assert(edge_triples(edges, n).contains(t));
        }
    }
    assert forall|t: (nat, Seq<char>, nat)|
        edge_triples(edges, n).insert(edge_triple(edges[n])).contains(t) implies edge_triples(
            edges,
            n + 1,
        ).contains(t) by {
        if t == edge_triple(edges[n]) {
            assert(0 <= n < n + 1 && t == edge_triple(edges[n]));
        } else {
            let j = choose|j: int| 0 <= j < n && t == edge_triple(#[trigger] edges[j]);
            assert(0 <= j < n + 1 && t == edge_triple(edges[j]));
        }
    }
    assert(edge_triples(edges, n + 1) =~= edge_triples(edges, n).insert(edge_triple(edges[n])));
}

/// A decimal digit.
pub open spec fn is_digit(c: char) -> bool {
    '0' <= c && c <= '9'
}

/// The value of a decimal digit.
pub open spec fn digit_value(c: char) -> nat {
    (c as int - '0' as int) as nat
}

/// The value of a decimal numeral.
pub open spec fn decimal(s: Seq<char>) -> nat
    decreases s.len(),
{
    if s.len() == 0 {
        0
    } else {
        decimal(s.drop_last()) * 10 + digit_value(s.last())
    }
}

/// The number of consecutive digits of `s` from index `i` on.
pub open spec fn digit_run(s: Seq<char>, i: int) -> nat
    decreases s.len() - i,
{
    if 0 <= i < s.len() && is_digit(s[i]) {
        1 + digit_run(s, i + 1)
    } else {
        0
    }
}

/// The number of consecutive digits of `s` that end at index `j`.
pub open spec fn digit_run_back(s: Seq<char>, j: int) -> nat
    decreases j + 1,
{
    if 0 <= j < s.len() && is_digit(s[j]) {
        1 + digit_run_back(s, j - 1)
    } else {
        0
    }
}

/// The numeral of `n` digits at index `i` of `s`.
pub open spec fn numeral(s: Seq<char>, i: int, n: int) -> nat {
    decimal(s.subrange(i, i + n))
}

/// What a header line says: `des (first,transitions,states)`, followed by
/// anything; `None` when the line does not start so or a number is too large.
pub open spec fn header_of(s: Seq<char>) -> Option<(nat, nat, nat)> {
    let n1 = digit_run(s, 5) as int;
    let b = 5 + n1 + 1;
    let n2 = digit_run(s, b) as int;
    let c = b + n2 + 1;
    let n3 = digit_run(s, c) as int;
    if s.len() > c + n3 && s[0] == 'd' && s[1] == 'e' && s[2] == 's' && s[3] == ' ' && s[4] == '('
        && n1 > 0 && s[5 + n1] == ',' && n2 > 0 && s[b + n2] == ',' && n3 > 0 && s[c + n3] == ')'
        && numeral(s, 5, n1) <= u64::MAX && numeral(s, b, n2) <= usize::MAX && numeral(s, c, n3)
        <= usize::MAX {
        Some((numeral(s, 5, n1), numeral(s, b, n2), numeral(s, c, n3)))
    } else {
        None
    }
}

/// What a transition line says: `(start,"label",end)`. The label is all that
/// stands between the first `,"` and the last `",`; `None` when the line is
/// not so or a state number is too large.
pub open spec fn edge_of(s: Seq<char>) -> Option<(nat, Seq<char>, nat)> {
    let len = s.len() as int;
    let n1 = digit_run(s, 1) as int;
    let n2 = digit_run_back(s, len - 2) as int;
    let from = 3 + n1;
    let to = len - 3 - n2;
    if len >= 2 && s[0] == '(' && s[len - 1] == ')' && n1 > 0 && n2 > 0 && from <= to && s[1 + n1]
        == ',' && s[2 + n1] == '"' && s[to] == '"' && s[to + 1] == ',' && numeral(s, 1, n1)
        <= u64::MAX && numeral(s, len - 1 - n2, n2) <= u64::MAX {
        Some((numeral(s, 1, n1), s.subrange(from, to), numeral(s, len - 1 - n2, n2)))
    } else {
        None
    }
}

proof fn lemma_decimal_prefix(s: Seq<char>, k: int)
    requires
        0 <= k <= s.len(),
    ensures
        decimal(s.take(k)) <= decimal(s),
    decreases s.len(),
{
    if k < s.len() {
        assert(s.take(k) == s.drop_last().take(k));
        lemma_decimal_prefix(s.drop_last(), k);
    } else {
        assert(s.take(k) == s);
    }
}

fn is_digit_char(c: char) -> (r: bool)
    ensures
        r == is_digit(c),
{
    '0' <= c && c <= '9'
}

/// The number of consecutive digits of `cs` from index `i` on.
fn count_digits(cs: &Vec<char>, i: usize) -> (r: usize)
    requires
        i <= cs.len(),
    ensures
        r == digit_run(cs@, i as int),
        i + r <= cs.len(),
{
    let mut n: usize = 0;
    while i + n < cs.len() && is_digit_char(cs[i + n])
        invariant
            i + n <= cs.len(),
            digit_run(cs@, i as int) == n + digit_run(cs@, (i + n) as int),
        decreases cs.len() - i - n,
    {
        n = n + 1;
    }
    n
}

/// The number of consecutive digits of `cs` that end at index `j - 1`.
fn count_digits_back(cs: &Vec<char>, j: usize) -> (r: usize)
    requires
        j <= cs.len(),
    ensures
        r == digit_run_back(cs@, j - 1),
        r <= j,
{
    let mut n: usize = 0;
    while n < j && is_digit_char(cs[j - 1 - n])
        invariant
            n <= j <= cs.len(),
            digit_run_back(cs@, j - 1) == n + digit_run_back(cs@, j - 1 - n),
        decreases j - n,
    {
        n = n + 1;
    }
    n
}

/// The value of the numeral `cs[from..to]`, if it fits in 64 bits.
fn read_number(cs: &Vec<char>, from: usize, to: usize) -> (r: Option<u64>)
    requires
        from <= to <= cs.len(),
        forall|i: int| from <= i < to ==> is_digit(#[trigger] cs@[i]),
    ensures
        match r {
            Some(v) => v == decimal(cs@.subrange(from as int, to as int)),
            None => decimal(cs@.subrange(from as int, to as int)) > u64::MAX,
        },
{
    let mut v: u64 = 0;
    let mut k: usize = from;
    while k < to
        invariant
            from <= k <= to <= cs.len(),
            forall|i: int| from <= i < to ==> is_digit(#[trigger] cs@[i]),
            v == decimal(cs@.subrange(from as int, k as int)),
        decreases to - k,
    {
        let d = (cs[k] as u32 - '0' as u32) as u64;
        let ghost next = cs@.subrange(from as int, k + 1);
        proof {
            assert(next.drop_last() == cs@.subrange(from as int, k as int));
            assert(decimal(next) == v * 10 + d);
        }
        if v > (u64::MAX - d) / 10 {
            proof {
                assert(v * 10 + d > u64::MAX) by (nonlinear_arith)
                    requires
                        v > (u64::MAX - d) / 10,
                        d <= 9,
                ;
                let whole = cs@.subrange(from as int, to as int);
                assert(whole.take(k + 1 - from) == next);
                lemma_decimal_prefix(whole, k + 1 - from);
            }
            return None;
        }
        proof {
            assert(v * 10 + d <= u64::MAX) by (nonlinear_arith)
                requires
                    v <= (u64::MAX - d) / 10,
                    d <= 9,
            ;
        }
        v = v * 10 + d;
        k = k + 1;
    }
    Some(v)
}

proof fn lemma_digit_run(s: Seq<char>, i: int)
    requires
        0 <= i <= s.len(),
    ensures
        i + digit_run(s, i) <= s.len(),
        forall|k: int| i <= k < i + digit_run(s, i) ==> is_digit(#[trigger] s[k]),
    decreases s.len() - i,
{
    if i < s.len() && is_digit(s[i]) {
        lemma_digit_run(s, i + 1);
    }
}

proof fn lemma_digit_run_back(s: Seq<char>, j: int)
    requires
        -1 <= j < s.len(),
    ensures
        digit_run_back(s, j) <= j + 1,
        forall|k: int| j - digit_run_back(s, j) < k <= j ==> is_digit(#[trigger] s[k]),
    decreases j + 1,
{
    if 0 <= j && is_digit(s[j]) {
        lemma_digit_run_back(s, j - 1);
    }
}

/// Reads a header line: `des (first,transitions,states)`, followed by anything.
pub fn parse_aut_header(line: &str) -> (r: Option<AutHeader>)
    ensures
        r is Some <==> header_of(line@) is Some,
        r is Some ==> r->Some_0.first_state == header_of(line@)->Some_0.0
            && r->Some_0.nr_of_transitions == header_of(line@)->Some_0.1
            && r->Some_0.nr_of_states == header_of(line@)->Some_0.2,
{
    let cs = chars_of(line);
    let len = cs.len();
    if len < 5 || cs[0] != 'd' || cs[1] != 'e' || cs[2] != 's' || cs[3] != ' ' || cs[4] != '(' {
        return None;
    }
    let n1 = count_digits(&cs, 5);
    if n1 == 0 || 5 + n1 >= len || cs[5 + n1] != ',' {
        return None;
    }
    let b = 5 + n1 + 1;
    let n2 = count_digits(&cs, b);
    if n2 == 0 || b + n2 >= len || cs[b + n2] != ',' {
        return None;
    }
    let c = b + n2 + 1;
    let n3 = count_digits(&cs, c);
    if n3 == 0 || c + n3 >= len || cs[c + n3] != ')' {
        return None;
    }
    proof {
        lemma_digit_run(cs@, 5);
        lemma_digit_run(cs@, b as int);
        lemma_digit_run(cs@, c as int);
    }
    let first = match read_number(&cs, 5, 5 + n1) {
        Some(v) => v,
        None => {
            return None;
        },
    };
    let transitions = match read_number(&cs, b, b + n2) {
        Some(v) => v,
        None => {
            return None;
        },
    };
    let states = match read_number(&cs, c, c + n3) {
        Some(v) => v,
        None => {
            return None;
        },
    };
    if transitions > usize::MAX as u64 || states > usize::MAX as u64 {
        return None;
    }
    Some(
        AutHeader {
            first_state: first,
            nr_of_transitions: transitions as usize,
            nr_of_states: states as usize,
        },
    )
}

/// Reads a transition line: `(start,"label",end)`.
pub fn parse_aut_edge(line: &str) -> (r: Option<AutEdge>)
    ensures
        r is Some <==> edge_of(line@) is Some,
        r is Some ==> r->Some_0.start_state == edge_of(line@)->Some_0.0 && r->Some_0.label@
            == edge_of(line@)->Some_0.1 && r->Some_0.end_state == edge_of(line@)->Some_0.2,
{
    let cs = chars_of(line);
    let len = cs.len();
    if len < 2 || cs[0] != '(' || cs[len - 1] != ')' {
        return None;
    }
    let n1 = count_digits(&cs, 1);
    let n2 = count_digits_back(&cs, len - 1);
    if n1 == 0 || n2 == 0 || len - n2 < 3 {
        return None;
    }
    let to = len - n2 - 3;
    if to < 3 || n1 > to - 3 {
        return None;
    }
    let from = 3 + n1;
    if cs[1 + n1] != ',' || cs[2 + n1] != '"' || cs[to] != '"' || cs[to + 1] != ',' {
        return None;
    }
    proof {
        lemma_digit_run(cs@, 1);
        lemma_digit_run_back(cs@, len - 2);
    }
    let start = match read_number(&cs, 1, 1 + n1) {
        Some(v) => v,
        None => {
            return None;
        },
    };
    let end = match read_number(&cs, len - 1 - n2, len - 1) {
        Some(v) => v,
        None => {
            return None;
        },
    };
    let label = line.substring_char(from, to).to_owned();
    Some(AutEdge { start_state: start, end_state: end, label })
}

/// The transitions that lines `1..n` give; lines of at most one character
/// are skipped. `None` when one of the others is not a transition line.
pub open spec fn edges_of(lines: Seq<Seq<char>>, n: int) -> Option<Seq<(nat, Seq<char>, nat)>>
    decreases n,
{
    if n <= 1 || n > lines.len() {
        Some(Seq::empty())
    } else {
        match edges_of(lines, n - 1) {
            Some(es) => if lines[n - 1].len() > 1 {
                match edge_of(lines[n - 1]) {
                    Some(e) => Some(es.push(e)),
                    None => None,
                }
            } else {
                Some(es)
            },
            None => None,
        }
    }
}

proof fn lemma_edges_stay_none(lines: Seq<Seq<char>>, k: int, n: int)
    requires
        2 <= k <= n <= lines.len(),
        edges_of(lines, k) is None,
    ensures
        edges_of(lines, n) is None,
    decreases n - k,
{
    if n > k {
        lemma_edges_stay_none(lines, k, n - 1);
    }
}

/// The text of each line.
pub open spec fn line_texts(lines: Seq<String>) -> Seq<Seq<char>> {
    lines.map_values(|l: String| l@)
}

/// Reads an Aldebaran file given as its lines: a header line, then one
/// transition per line.
pub fn read_aut_lines(lines: &Vec<String>) -> (r: Option<AutFile>)
    ensures
        r is Some <==> lines.len() > 0 && header_of(lines[0]@) is Some && edges_of(
            line_texts(lines@),
            lines.len() as int,
        ) is Some,
        r is Some ==> ({
            let h = header_of(lines[0]@)->Some_0;
            let es = edges_of(line_texts(lines@), lines.len() as int)->Some_0;
            &&& r->Some_0.header.first_state == h.0
            &&& r->Some_0.header.nr_of_transitions == h.1
            &&& r->Some_0.header.nr_of_states == h.2
            &&& r->Some_0.edges.len() == es.len()
            &&& forall|i: int|
                0 <= i < es.len() ==> edge_triple(#[trigger] r->Some_0.edges[i]) == es[i]
        }),
{
    if lines.len() == 0 {
        return None;
    }
    let header = match parse_aut_header(lines[0].as_str()) {
        Some(h) => h,
        None => {
            return None;
        },
    };
    let ghost texts = line_texts(lines@);
    let mut edges: Vec<AutEdge> = Vec::new();
    let mut i: usize = 1;
    while i < lines.len()
        invariant
            1 <= i <= lines.len(),
            texts == line_texts(lines@),
            edges_of(texts, i as int) is Some,
            edges.len() == edges_of(texts, i as int)->Some_0.len(),
            forall|j: int|
                0 <= j < edges.len() ==> edge_triple(#[trigger] edges[j]) == edges_of(
                    texts,
                    i as int,
                )->Some_0[j],
        decreases lines.len() - i,
    {
        let line = lines[i].as_str();
        proof {
            assert(texts[i as int] == lines@[i as int]@);
        }
        if line.unicode_len() > 1 {
            match parse_aut_edge(line) {
                Some(e) => {
                    edges.push(e);
                },
                None => {
                    proof {
                        lemma_edges_stay_none(texts, i + 1, lines.len() as int);
                    }
                    return None;
                },
            }
        }
        i = i + 1;
    }
    Some(AutFile { header, edges })
}

} // verus!
