//! Reading mu-calculus formulas from text.
use crate::formula::{node_position, MuFormula};
use crate::text::chars_of;
use vstd::prelude::*;
use vstd::string::StrSliceExecFns;

verus! {

/// An upper-case letter, the name of a recursion variable.
pub open spec fn is_upper(c: char) -> bool {
    'A' <= c && c <= 'Z'
}

/// A character of an action name.
pub open spec fn is_action_char(c: char) -> bool {
    ('a' <= c && c <= 'z') || c == '_'
}

/// The number of consecutive action characters of `s` from index `i` on.
pub open spec fn action_run(s: Seq<char>, i: int) -> nat
    decreases s.len() - i,
{
    if 0 <= i < s.len() && is_action_char(s[i]) {
        1 + action_run(s, i + 1)
    } else {
        0
    }
}

/// The concrete syntax of a formula, without spaces: `false`, `true`, `X`,
/// `(f&&g)`, `(f||g)`, `<a>f`, `[a]f`, `muX.f`, `nuX.f`.
pub open spec fn syntax_of(f: MuFormula) -> Seq<char>
    decreases f,
{
    match f {
        MuFormula::Bool(_, b) => if b {
            seq!['t', 'r', 'u', 'e']
        } else {
            seq!['f', 'a', 'l', 's', 'e']
        },
        MuFormula::RecursionValue(_, x) => x@,
        MuFormula::Action(_, a) => a@,
        MuFormula::And(_, g, h) => seq!['('] + syntax_of(*g) + seq!['&', '&'] + syntax_of(*h) + seq![')'],
        MuFormula::Or(_, g, h) => seq!['('] + syntax_of(*g) + seq!['|', '|'] + syntax_of(*h) + seq![')'],
        MuFormula::Not(_, g) => seq!['!', '('] + syntax_of(*g) + seq![')'],
        MuFormula::DiamondOp(_, a, g) => seq!['<'] + a@ + seq!['>'] + syntax_of(*g),
        MuFormula::BoxOp(_, a, g) => seq!['['] + a@ + seq![']'] + syntax_of(*g),
        MuFormula::Mu(_, x, g) => seq!['m', 'u'] + x@ + seq!['.'] + syntax_of(*g),
        MuFormula::Nu(_, x, g) => seq!['n', 'u'] + x@ + seq!['.'] + syntax_of(*g),
    }
}

/// A one-letter recursion variable name.
pub open spec fn is_variable_name(x: Seq<char>) -> bool {
    x.len() == 1 && is_upper(x[0])
}

/// A non-empty action name.
pub open spec fn is_action_name(a: Seq<char>) -> bool {
    a.len() > 0 && forall|k: int| 0 <= k < a.len() ==> is_action_char(#[trigger] a[k])
}

/// `f` is a formula of the grammar whose text starts at offset `i`, and each
/// node carries the offset at which its own text starts.
pub open spec fn readable_at(f: MuFormula, i: int) -> bool
    decreases f,
{
    node_position(f) == i && match f {
        MuFormula::Bool(_, _) => true,
        MuFormula::RecursionValue(_, x) => is_variable_name(x@),
        MuFormula::And(_, g, h) | MuFormula::Or(_, g, h) => readable_at(*g, i + 1) && readable_at(
            *h,
            i + 3 + syntax_of(*g).len(),
        ),
        MuFormula::DiamondOp(_, a, g) | MuFormula::BoxOp(_, a, g) => is_action_name(a@)
            && readable_at(*g, i + 2 + a@.len()),
        MuFormula::Mu(_, x, g) | MuFormula::Nu(_, x, g) => is_variable_name(x@) && readable_at(
            *g,
            i + 4,
        ),
        _ => false,
    }
}

/// Why a text is not a formula.
#[derive(Debug)]
pub struct ParseError {
    /// The offset at which reading stopped.
    pub offset: usize,
}

proof fn lemma_action_run(s: Seq<char>, i: int)
    requires
        0 <= i <= s.len(),
    ensures
        i + action_run(s, i) <= s.len(),
        forall|k: int| i <= k < i + action_run(s, i) ==> is_action_char(#[trigger] s[k]),
    decreases s.len() - i,
{
    if i < s.len() && is_action_char(s[i]) {
        lemma_action_run(s, i + 1);
    }
}

fn count_action_chars(cs: &Vec<char>, i: usize) -> (r: usize)
    requires
        i <= cs.len(),
    ensures
        r == action_run(cs@, i as int),
        i + r <= cs.len(),
{
    let mut n: usize = 0;
    while i + n < cs.len() && (('a' <= cs[i + n] && cs[i + n] <= 'z') || cs[i + n] == '_')
        invariant
            i + n <= cs.len(),
            action_run(cs@, i as int) == n + action_run(cs@, (i + n) as int),
        decreases cs.len() - i - n,
    {
        n = n + 1;
    }
    n
}

/// Whether `word` stands in `cs` at index `i`.
fn has_word(cs: &Vec<char>, i: usize, word: &[char]) -> (r: bool)
    requires
        i <= cs.len(),
    ensures
        r == (i + word@.len() <= cs.len() && cs@.subrange(i as int, i + word@.len()) == word@),
{
    if word.len() > cs.len() - i {
        return false;
    }
    let mut k: usize = 0;
    while k < word.len()
        invariant
            i + word@.len() <= cs.len(),
            k <= word@.len(),
            forall|m: int| 0 <= m < k ==> cs@[i + m] == word@[m],
        decreases word.len() - k,
    {
        if cs[i + k] != word[k] {
            assert(cs@.subrange(i as int, i + word@.len())[k as int] != word@[k as int]);
            return false;
        }
        k = k + 1;
    }
    assert(cs@.subrange(i as int, i + word@.len()) =~= word@);
    true
}

/// The text of `f` stands in `cs` at index `i`, and `f` is a formula of the
/// grammar positioned there.
pub open spec fn reads_at(cs: Seq<char>, i: int, f: MuFormula) -> bool {
    &&& readable_at(f, i)
    &&& 0 <= i
    &&& i + syntax_of(f).len() <= cs.len()
    &&& cs.subrange(i, i + syntax_of(f).len()) == syntax_of(f)
}

/// The first character of a formula's text tells which kind of node it is.
proof fn lemma_lead(f: MuFormula, i: int)
    requires
        readable_at(f, i),
    ensures
        syntax_of(f).len() >= 1,
        (syntax_of(f)[0] == 'f') == (f is Bool && !f->Bool_1),
        (syntax_of(f)[0] == 't') == (f is Bool && f->Bool_1),
        is_upper(syntax_of(f)[0]) == (f is RecursionValue),
        (syntax_of(f)[0] == '(') == (f is And || f is Or),
        (syntax_of(f)[0] == '<') == (f is DiamondOp),
        (syntax_of(f)[0] == '[') == (f is BoxOp),
        (syntax_of(f)[0] == 'm') == (f is Mu),
        (syntax_of(f)[0] == 'n') == (f is Nu),
{
    match f {
        MuFormula::RecursionValue(_, x) => {
            assert(syntax_of(f)[0] == x@[0]);
        },
        MuFormula::And(_, g, h) => {
            assert(syntax_of(f)[0] == '(');
        },
        MuFormula::Or(_, g, h) => {
            assert(syntax_of(f)[0] == '(');
        },
        MuFormula::DiamondOp(_, a, g) => {
            assert(syntax_of(f)[0] == '<');
        },
        MuFormula::BoxOp(_, a, g) => {
            assert(syntax_of(f)[0] == '[');
        },
        MuFormula::Mu(_, x, g) => {
            assert(syntax_of(f)[0] == 'm');
        },
        MuFormula::Nu(_, x, g) => {
            assert(syntax_of(f)[0] == 'n');
        },
        _ => {},
    }
}

/// Where the text of `f` stands, each of its characters stands.
proof fn lemma_reads_chars(cs: Seq<char>, i: int, f: MuFormula)
    requires
        reads_at(cs, i, f),
    ensures
        forall|k: int| 0 <= k < syntax_of(f).len() ==> cs[i + k] == #[trigger] syntax_of(f)[k],
{
    assert forall|k: int| 0 <= k < syntax_of(f).len() implies cs[i + k] == #[trigger] syntax_of(f)[k] by {
        assert(cs.subrange(i, i + syntax_of(f).len())[k] == cs[i + k]);
    }
}

/// A run of action characters that ends before a character of another kind
/// has exactly that length.
proof fn lemma_action_run_exact(s: Seq<char>, i: int, n: int)
    requires
        0 <= i,
        0 <= n,
        i + n < s.len(),
        forall|k: int| i <= k < i + n ==> is_action_char(#[trigger] s[k]),
        !is_action_char(s[i + n]),
    ensures
        action_run(s, i) == n,
    decreases n,
{
    if n > 0 {
        lemma_action_run_exact(s, i + 1, n - 1);
    }
}

/// The left and right operands of a binary node.
pub open spec fn left_of(f: MuFormula) -> MuFormula {
    match f {
        MuFormula::And(_, g, _) | MuFormula::Or(_, g, _) => *g,
        _ => f,
    }
}

pub open spec fn right_of(f: MuFormula) -> MuFormula {
    match f {
        MuFormula::And(_, _, h) | MuFormula::Or(_, _, h) => *h,
        _ => f,
    }
}

/// The operand of a modality or a binder.
pub open spec fn operand_of(f: MuFormula) -> MuFormula {
    match f {
        MuFormula::DiamondOp(_, _, g) | MuFormula::BoxOp(_, _, g) | MuFormula::Mu(_, _, g)
        | MuFormula::Nu(_, _, g) => *g,
        _ => f,
    }
}

/// The action of a modality, or the variable of a binder.
pub open spec fn name_of(f: MuFormula) -> Seq<char> {
    match f {
        MuFormula::DiamondOp(_, a, _) | MuFormula::BoxOp(_, a, _) => a@,
        MuFormula::Mu(_, x, _) | MuFormula::Nu(_, x, _) => x@,
        _ => Seq::empty(),
    }
}

proof fn lemma_binary_witness(cs: Seq<char>, i: int, f: MuFormula)
    requires
        reads_at(cs, i, f),
        f is And || f is Or,
    ensures
        ({
            let ng = syntax_of(left_of(f)).len() as int;
            let nh = syntax_of(right_of(f)).len() as int;
            let o = if f is And { '&' } else { '|' };
            &&& reads_at(cs, i + 1, left_of(f))
            &&& reads_at(cs, i + 3 + ng, right_of(f))
            &&& syntax_of(f).len() == 4 + ng + nh
            &&& cs[i + 1 + ng] == o
            &&& cs[i + 2 + ng] == o
            &&& cs[i + 3 + ng + nh] == ')'
        }),
{
    lemma_reads_chars(cs, i, f);
    let sg = syntax_of(left_of(f));
    let sh = syntax_of(right_of(f));
    let ng = sg.len() as int;
    let nh = sh.len() as int;
    let op = if f is And { seq!['&', '&'] } else { seq!['|', '|'] };
    assert(syntax_of(f) == seq!['('] + sg + op + sh + seq![')']);
    assert(cs.subrange(i + 1, i + 1 + ng) =~= syntax_of(f).subrange(1, 1 + ng));
    assert(syntax_of(f).subrange(1, 1 + ng) =~= sg);
    assert(cs.subrange(i + 3 + ng, i + 3 + ng + nh) =~= syntax_of(f).subrange(3 + ng, 3 + ng + nh));
    assert(syntax_of(f).subrange(3 + ng, 3 + ng + nh) =~= sh);
    assert(syntax_of(f)[1 + ng] == op[0]);
    assert(syntax_of(f)[2 + ng] == op[1]);
    assert(syntax_of(f)[3 + ng + nh] == ')');
}

proof fn lemma_modal_witness(cs: Seq<char>, i: int, f: MuFormula)
    requires
        reads_at(cs, i, f),
        f is DiamondOp || f is BoxOp,
    ensures
        ({
            let n = name_of(f).len() as int;
            &&& n > 0
            &&& action_run(cs, i + 1) == n
            &&& cs[i + 1 + n] == (if f is DiamondOp { '>' } else { ']' })
            &&& reads_at(cs, i + 2 + n, operand_of(f))
            &&& syntax_of(f).len() == 2 + n + syntax_of(operand_of(f)).len()
        }),
{
    lemma_reads_chars(cs, i, f);
    let a = name_of(f);
    let sg = syntax_of(operand_of(f));
    let n = a.len() as int;
    let ng = sg.len() as int;
    let open = if f is DiamondOp { '<' } else { '[' };
    let close = if f is DiamondOp { '>' } else { ']' };
    assert(syntax_of(f) == seq![open] + a + seq![close] + sg);
    assert forall|k: int| i + 1 <= k < i + 1 + n implies is_action_char(#[trigger] cs[k]) by {
        assert(cs[k] == syntax_of(f)[k - i]);
        assert(syntax_of(f)[k - i] == a[k - i - 1]);
    }
    assert(cs[i + 1 + n] == syntax_of(f)[1 + n]);
    lemma_action_run_exact(cs, i + 1, n);
    assert(cs.subrange(i + 2 + n, i + 2 + n + ng) =~= syntax_of(f).subrange(2 + n, 2 + n + ng));
    assert(syntax_of(f).subrange(2 + n, 2 + n + ng) =~= sg);
}

proof fn lemma_binder_witness(cs: Seq<char>, i: int, f: MuFormula)
    requires
        reads_at(cs, i, f),
        f is Mu || f is Nu,
    ensures
        cs.len() - i > 3,
        cs[i + 1] == 'u',
        is_upper(cs[i + 2]),
        cs[i + 3] == '.',
        reads_at(cs, i + 4, operand_of(f)),
        syntax_of(f).len() == 4 + syntax_of(operand_of(f)).len(),
{
    lemma_reads_chars(cs, i, f);
    let x = name_of(f);
    let sg = syntax_of(operand_of(f));
    let ng = sg.len() as int;
    let lead = if f is Mu { 'm' } else { 'n' };
    assert(syntax_of(f) == seq![lead, 'u'] + x + seq!['.'] + sg);
    assert(syntax_of(f)[1] == 'u');
    assert(syntax_of(f)[2] == x[0]);
    assert(syntax_of(f)[3] == '.');
    lemma_lead(operand_of(f), i + 4);
    assert(cs.subrange(i + 4, i + 4 + ng) =~= syntax_of(f).subrange(4, 4 + ng));
    assert(syntax_of(f).subrange(4, 4 + ng) =~= sg);
}

/// Reads one formula of `s` from index `i` on; on success, the formula and
/// the index just after its text. It succeeds whenever the text of some
/// formula of the grammar stands at `i`, and then ends where that text ends.
fn parse_formula(s: &str, cs: &Vec<char>, i: usize) -> (r: Option<(MuFormula, usize)>)
    requires
        cs@ == s@,
        i <= cs.len(),
    ensures
        match r {
            Some((f, j)) => i < j <= cs.len() && cs@.subrange(i as int, j as int) == syntax_of(f)
                && readable_at(f, i as int),
            None => true,
        },
        forall|f: MuFormula|
            reads_at(cs@, i as int, f) ==> r is Some && r->Some_0.1 == i + #[trigger] syntax_of(
                f,
            ).len(),
    decreases cs.len() - i, 1nat,
{
    if i >= cs.len() {
        proof {
            assert forall|f: MuFormula| !reads_at(cs@, i as int, f) by {
                if reads_at(cs@, i as int, f) {
                    lemma_lead(f, i as int);
                }
            }
        }
        return None;
    }
    let c = cs[i];
    proof {
        assert forall|f: MuFormula| reads_at(cs@, i as int, f) implies syntax_of(f)[0] == c by {
            lemma_lead(f, i as int);
            lemma_reads_chars(cs@, i as int, f);
        }
    }
    if c == 'f' || c == 't' {
        parse_constant(cs, i)
    } else if 'A' <= c && c <= 'Z' {
        let x = s.substring_char(i, i + 1).to_owned();
        proof {
            assert(x@ == cs@.subrange(i as int, i + 1));
            assert(x@[0] == c);
            assert forall|f: MuFormula| reads_at(cs@, i as int, f) implies #[trigger] syntax_of(f).len() == 1 by {
                lemma_lead(f, i as int);
            }
        }
        Some((MuFormula::RecursionValue(i, x), i + 1))
    } else if c == '(' {
        parse_binary(s, cs, i)
    } else if c == '<' || c == '[' {
        parse_modal(s, cs, i)
    } else if c == 'm' || c == 'n' {
        parse_binder(s, cs, i)
    } else {
        proof {
            assert forall|f: MuFormula| !reads_at(cs@, i as int, f) by {
                if reads_at(cs@, i as int, f) {
                    lemma_lead(f, i as int);
                }
            }
        }
        None
    }
}

/// `false` or `true` at index `i`.
fn parse_constant(cs: &Vec<char>, i: usize) -> (r: Option<(MuFormula, usize)>)
    requires
        i < cs.len(),
        cs@[i as int] == 'f' || cs@[i as int] == 't',
    ensures
        match r {
            Some((f, j)) => i < j <= cs.len() && cs@.subrange(i as int, j as int) == syntax_of(f)
                && readable_at(f, i as int),
            None => true,
        },
        forall|f: MuFormula|
            reads_at(cs@, i as int, f) ==> r is Some && r->Some_0.1 == i + #[trigger] syntax_of(
                f,
            ).len(),
{
    let value = cs[i] == 't';
    let word: &[char] = if value { &['t', 'r', 'u', 'e'] } else { &['f', 'a', 'l', 's', 'e'] };
    proof {
        if value {
            assert(seq!['t', 'r', 'u', 'e'] =~= word@);
        } else {
            assert(seq!['f', 'a', 'l', 's', 'e'] =~= word@);
        }
        assert forall|f: MuFormula| reads_at(cs@, i as int, f) implies f is Bool && f->Bool_1 == value
            && #[trigger] syntax_of(f) == word@ by {
            lemma_lead(f, i as int);
            lemma_reads_chars(cs@, i as int, f);
        }
    }
    if has_word(cs, i, word) {
        Some((MuFormula::Bool(i, value), i + word.len()))
    } else {
        None
    }
}

/// `(f&&g)` or `(f||g)` at index `i`.
fn parse_binary(s: &str, cs: &Vec<char>, i: usize) -> (r: Option<(MuFormula, usize)>)
    requires
        cs@ == s@,
        i < cs.len(),
        cs@[i as int] == '(',
    ensures
        match r {
            Some((f, j)) => i < j <= cs.len() && cs@.subrange(i as int, j as int) == syntax_of(f)
                && readable_at(f, i as int),
            None => true,
        },
        forall|f: MuFormula|
            reads_at(cs@, i as int, f) ==> r is Some && r->Some_0.1 == i + #[trigger] syntax_of(
                f,
            ).len(),
    decreases cs.len() - i, 0nat,
{
    proof {
        assert forall|w: MuFormula| reads_at(cs@, i as int, w) implies (w is And || w is Or)
            && reads_at(cs@, i + 1, left_of(w)) && reads_at(
            cs@,
            i + 3 + syntax_of(left_of(w)).len(),
            right_of(w),
        ) && syntax_of(w).len() == 4 + syntax_of(left_of(w)).len() + syntax_of(right_of(w)).len()
            && cs@[i + 3 + syntax_of(left_of(w)).len() + syntax_of(right_of(w)).len()] == ')' by {
            lemma_lead(w, i as int);
            lemma_reads_chars(cs@, i as int, w);
            lemma_binary_witness(cs@, i as int, w);
        }
    }
    let (f, j) = match parse_formula(s, cs, i + 1) {
        Some(p) => p,
        None => {
            return None;
        },
    };
    let is_and = has_word(cs, j, &['&', '&']);
    let is_or = has_word(cs, j, &['|', '|']);
    proof {
        assert(['&', '&']@ =~= seq!['&', '&']);
        assert(['|', '|']@ =~= seq!['|', '|']);
        assert forall|w: MuFormula| reads_at(cs@, i as int, w) implies (w is And ==> is_and) && (w is Or
            ==> is_or) by {
            lemma_binary_witness(cs@, i as int, w);
            if w is And {
                assert(cs@.subrange(j as int, j + 2) =~= seq!['&', '&']);
            } else {
                assert(cs@.subrange(j as int, j + 2) =~= seq!['|', '|']);
            }
        }
    }
    if !is_and && !is_or {
        return None;
    }
    let (g, k) = match parse_formula(s, cs, j + 2) {
        Some(p) => p,
        None => {
            return None;
        },
    };
    if k >= cs.len() || cs[k] != ')' {
        return None;
    }
    let ghost sf = syntax_of(f);
    let ghost sg = syntax_of(g);
    let r = if is_and {
        MuFormula::And(i, Box::new(f), Box::new(g))
    } else {
        MuFormula::Or(i, Box::new(f), Box::new(g))
    };
    proof {
        let op = if is_and { seq!['&', '&'] } else { seq!['|', '|'] };
        assert(cs@.subrange(j as int, j + 2) == op);
        assert(cs@.subrange(i as int, k + 1) =~= seq!['('] + sf + op + sg + seq![')']);
    }
    Some((r, k + 1))
}

/// `<a>f` or `[a]f` at index `i`.
fn parse_modal(s: &str, cs: &Vec<char>, i: usize) -> (r: Option<(MuFormula, usize)>)
    requires
        cs@ == s@,
        i < cs.len(),
        cs@[i as int] == '<' || cs@[i as int] == '[',
    ensures
        match r {
            Some((f, j)) => i < j <= cs.len() && cs@.subrange(i as int, j as int) == syntax_of(f)
                && readable_at(f, i as int),
            None => true,
        },
        forall|f: MuFormula|
            reads_at(cs@, i as int, f) ==> r is Some && r->Some_0.1 == i + #[trigger] syntax_of(
                f,
            ).len(),
    decreases cs.len() - i, 0nat,
{
    let c = cs[i];
    let n = count_action_chars(cs, i + 1);
    let close = if c == '<' { '>' } else { ']' };
    proof {
        lemma_action_run(cs@, i + 1);
        assert forall|w: MuFormula| reads_at(cs@, i as int, w) implies (w is DiamondOp || w is BoxOp)
            && n == name_of(w).len() && n > 0 && cs@[i + 1 + n] == close && reads_at(
            cs@,
            i + 2 + n,
            operand_of(w),
        ) && syntax_of(w).len() == 2 + n + syntax_of(operand_of(w)).len() by {
            lemma_lead(w, i as int);
            lemma_reads_chars(cs@, i as int, w);
            lemma_modal_witness(cs@, i as int, w);
        }
    }
    if n == 0 || i + 1 + n >= cs.len() || cs[i + 1 + n] != close {
        return None;
    }
    let a = s.substring_char(i + 1, i + 1 + n).to_owned();
    let (f, j) = match parse_formula(s, cs, i + 2 + n) {
        Some(p) => p,
        None => {
            return None;
        },
    };
    let ghost sf = syntax_of(f);
    proof {
        assert forall|k: int| 0 <= k < a@.len() implies is_action_char(#[trigger] a@[k]) by {
            assert(a@[k] == cs@[i + 1 + k]);
        }
        assert(cs@.subrange(i as int, j as int) =~= seq![c] + a@ + seq![close] + sf);
    }
    if c == '<' {
        Some((MuFormula::DiamondOp(i, a, Box::new(f)), j))
    } else {
        Some((MuFormula::BoxOp(i, a, Box::new(f)), j))
    }
}

/// `muX.f` or `nuX.f` at index `i`.
fn parse_binder(s: &str, cs: &Vec<char>, i: usize) -> (r: Option<(MuFormula, usize)>)
    requires
        cs@ == s@,
        i < cs.len(),
        cs@[i as int] == 'm' || cs@[i as int] == 'n',
    ensures
        match r {
            Some((f, j)) => i < j <= cs.len() && cs@.subrange(i as int, j as int) == syntax_of(f)
                && readable_at(f, i as int),
            None => true,
        },
        forall|f: MuFormula|
            reads_at(cs@, i as int, f) ==> r is Some && r->Some_0.1 == i + #[trigger] syntax_of(
                f,
            ).len(),
    decreases cs.len() - i, 0nat,
{
    let c = cs[i];
    proof {
        assert forall|w: MuFormula| reads_at(cs@, i as int, w) implies (w is Mu || w is Nu) && cs.len()
            - i > 3 && cs@[i + 1] == 'u' && is_upper(cs@[i + 2]) && cs@[i + 3] == '.' && reads_at(
            cs@,
            i + 4,
            operand_of(w),
        ) && syntax_of(w).len() == 4 + syntax_of(operand_of(w)).len() by {
            lemma_lead(w, i as int);
            lemma_reads_chars(cs@, i as int, w);
            lemma_binder_witness(cs@, i as int, w);
        }
    }
    if cs.len() - i <= 3 || cs[i + 1] != 'u' || !('A' <= cs[i + 2] && cs[i + 2] <= 'Z') || cs[i + 3]
        != '.' {
        return None;
    }
    let x = s.substring_char(i + 2, i + 3).to_owned();
    let (f, j) = match parse_formula(s, cs, i + 4) {
        Some(p) => p,
        None => {
            return None;
        },
    };
    let ghost sf = syntax_of(f);
    proof {
        assert(x@ == cs@.subrange(i + 2, i + 3));
        assert(x@[0] == cs@[i + 2]);
        assert(cs@.subrange(i as int, j as int) =~= seq![c, 'u'] + x@ + seq!['.'] + sf);
    }
    if c == 'm' {
        Some((MuFormula::Mu(i, x, Box::new(f)), j))
    } else {
        Some((MuFormula::Nu(i, x, Box::new(f)), j))
    }
}

/// Reads a formula that takes up the whole of `s`. On success the formula's
/// syntax is `s`, and each node carries the offset of its own text.
pub fn read_mu_formula(s: &str) -> (r: Result<MuFormula, ParseError>)
    ensures
        r is Ok ==> syntax_of(r->Ok_0) == s@ && readable_at(r->Ok_0, 0),
        r is Err ==> forall|f: MuFormula| readable_at(f, 0) ==> #[trigger] syntax_of(f) != s@,
{
    let cs = chars_of(s);
    let parsed = parse_formula(s, &cs, 0);
    proof {
        assert forall|f: MuFormula| readable_at(f, 0) && syntax_of(f) == s@ implies reads_at(cs@, 0, f) by {
            assert(cs@.subrange(0, syntax_of(f).len() as int) =~= cs@);
        }
    }
    match parsed {
        Some((f, j)) => {
            if j == cs.len() {
                proof {
                    assert(cs@.subrange(0, j as int) =~= cs@);
                }
                Ok(f)
            } else {
                Err(ParseError { offset: j })
            }
        },
        None => Err(ParseError { offset: 0 }),
    }
}

} // verus!
