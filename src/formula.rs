//! Formulas of the modal mu-calculus, with a position on every node.
use vstd::prelude::*;
use vstd::string::StringExecFns;

verus! {

/// A mu-calculus formula. The first field of every node is its position in
/// the text it was read from, which identifies the node.
pub enum MuFormula {
    Action(usize, String),
    Bool(usize, bool),
    RecursionValue(usize, String),
    And(usize, Box<MuFormula>, Box<MuFormula>),
    Or(usize, Box<MuFormula>, Box<MuFormula>),
    Not(usize, Box<MuFormula>),
    DiamondOp(usize, String, Box<MuFormula>),
    BoxOp(usize, String, Box<MuFormula>),
    Mu(usize, String, Box<MuFormula>),
    Nu(usize, String, Box<MuFormula>),
}

/// The position that identifies a node.
pub open spec fn node_position(f: MuFormula) -> usize {
    match f {
        MuFormula::Action(p, _) => p,
        MuFormula::Bool(p, _) => p,
        MuFormula::RecursionValue(p, _) => p,
        MuFormula::And(p, _, _) => p,
        MuFormula::Or(p, _, _) => p,
        MuFormula::Not(p, _) => p,
        MuFormula::DiamondOp(p, _, _) => p,
        MuFormula::BoxOp(p, _, _) => p,
        MuFormula::Mu(p, _, _) => p,
        MuFormula::Nu(p, _, _) => p,
    }
}

/// The number of nodes of a formula.
pub open spec fn size(f: MuFormula) -> nat
    decreases f,
{
    match f {
        MuFormula::And(_, g, h) => 1 + size(*g) + size(*h),
        MuFormula::Or(_, g, h) => 1 + size(*g) + size(*h),
        MuFormula::Not(_, g) => 1 + size(*g),
        MuFormula::DiamondOp(_, _, g) => 1 + size(*g),
        MuFormula::BoxOp(_, _, g) => 1 + size(*g),
        MuFormula::Mu(_, _, g) => 1 + size(*g),
        MuFormula::Nu(_, _, g) => 1 + size(*g),
        _ => 1,
    }
}

/// The strict sub-formulas of a formula at any depth: each direct operand,
/// then the sub-formulas of each operand in turn.
pub open spec fn subformulas(f: MuFormula) -> Seq<MuFormula>
    decreases f,
{
    match f {
        MuFormula::And(_, g, h) => seq![*g, *h] + subformulas(*g) + subformulas(*h),
        MuFormula::Or(_, g, h) => seq![*g, *h] + subformulas(*g) + subformulas(*h),
        MuFormula::Not(_, g) => seq![*g] + subformulas(*g),
        MuFormula::DiamondOp(_, _, g) => seq![*g] + subformulas(*g),
        MuFormula::BoxOp(_, _, g) => seq![*g] + subformulas(*g),
        MuFormula::Mu(_, _, g) => seq![*g] + subformulas(*g),
        MuFormula::Nu(_, _, g) => seq![*g] + subformulas(*g),
        _ => Seq::empty(),
    }
}

/// Every strict sub-formula is smaller than the formula.
pub proof fn lemma_subformula_smaller(f: MuFormula, i: int)
    requires
        0 <= i < subformulas(f).len(),
    ensures
        size(subformulas(f)[i]) < size(f),
    decreases f,
{
    match f {
        MuFormula::And(_, g, h) | MuFormula::Or(_, g, h) => {
            let sg = subformulas(*g);
            let sh = subformulas(*h);
            assert(subformulas(f) == seq![*g, *h] + sg + sh);
            if i >= 2 && i < 2 + sg.len() {
                lemma_subformula_smaller(*g, i - 2);
                assert(subformulas(f)[i] == sg[i - 2]);
            } else if i >= 2 + sg.len() {
                lemma_subformula_smaller(*h, i - 2 - sg.len());
                assert(subformulas(f)[i] == sh[i - 2 - sg.len()]);
            }
        },
        MuFormula::Not(_, g) | MuFormula::DiamondOp(_, _, g) | MuFormula::BoxOp(_, _, g)
        | MuFormula::Mu(_, _, g) | MuFormula::Nu(_, _, g) => {
            assert(subformulas(f) == seq![*g] + subformulas(*g));
            if i >= 1 {
                lemma_subformula_smaller(*g, i - 1);
                assert(subformulas(f)[i] == subformulas(*g)[i - 1]);
            }
        },
        _ => {},
    }
}

/// Two nodes are equal when they sit at the same position: a node is
/// identified by where it was read, not by what it says.
impl PartialEq for MuFormula {
    fn eq(&self, other: &MuFormula) -> (r: bool) {
        position(self) == position(other)
    }
}

impl vstd::std_specs::cmp::PartialEqSpecImpl for MuFormula {
    open spec fn obeys_eq_spec() -> bool {
        true
    }

    open spec fn eq_spec(&self, other: &MuFormula) -> bool {
        node_position(*self) == node_position(*other)
    }
}

impl Eq for MuFormula {}

impl Clone for MuFormula {
    fn clone(&self) -> (r: Self)
        ensures
            r == *self,
        decreases self,
    {
        match self {
            MuFormula::Action(p, a) => MuFormula::Action(*p, a.clone()),
            MuFormula::Bool(p, b) => MuFormula::Bool(*p, *b),
            MuFormula::RecursionValue(p, c) => MuFormula::RecursionValue(*p, c.clone()),
            MuFormula::And(p, f, g) => MuFormula::And(
                *p,
                Box::new((&**f).clone()),
                Box::new((&**g).clone()),
            ),
            MuFormula::Or(p, f, g) => MuFormula::Or(
                *p,
                Box::new((&**f).clone()),
                Box::new((&**g).clone()),
            ),
            MuFormula::Not(p, f) => MuFormula::Not(*p, Box::new((&**f).clone())),
            MuFormula::DiamondOp(p, a, f) => MuFormula::DiamondOp(
                *p,
                a.clone(),
                Box::new((&**f).clone()),
            ),
            MuFormula::BoxOp(p, a, f) => MuFormula::BoxOp(*p, a.clone(), Box::new((&**f).clone())),
            MuFormula::Mu(p, c, f) => MuFormula::Mu(*p, c.clone(), Box::new((&**f).clone())),
            MuFormula::Nu(p, c, f) => MuFormula::Nu(*p, c.clone(), Box::new((&**f).clone())),
        }
    }
}

/// The position that identifies a node.
pub fn position(mu: &MuFormula) -> (r: usize)
    ensures
        r == node_position(*mu),
{
    match mu {
        MuFormula::Action(p, _) => *p,
        MuFormula::Bool(p, _) => *p,
        MuFormula::RecursionValue(p, _) => *p,
        MuFormula::Not(p, _) => *p,
        MuFormula::And(p, _, _) => *p,
        MuFormula::Or(p, _, _) => *p,
        MuFormula::DiamondOp(p, _, _) => *p,
        MuFormula::BoxOp(p, _, _) => *p,
        MuFormula::Mu(p, _, _) => *p,
        MuFormula::Nu(p, _, _) => *p,
    }
}

/// All strict sub-formulas of `mu`, each operand before the sub-formulas
/// below it.
pub fn find_children(mu: &MuFormula) -> (r: Vec<MuFormula>)
    ensures
        r@ == subformulas(*mu),
    decreases mu,
{
    match mu {
        MuFormula::And(_, f, g) | MuFormula::Or(_, f, g) => {
            let mut s: Vec<MuFormula> = Vec::new();
            s.push((&**f).clone());
            s.push((&**g).clone());
            let mut below_f = find_children(f);
            let mut below_g = find_children(g);
            s.append(&mut below_f);
            s.append(&mut below_g);
            proof {
                assert(s@ == seq![**f, **g] + subformulas(**f) + subformulas(**g));
            }
            s
        },
        MuFormula::Mu(_, _, f) | MuFormula::Nu(_, _, f) | MuFormula::Not(_, f)
        | MuFormula::DiamondOp(_, _, f) | MuFormula::BoxOp(_, _, f) => {
            let mut s: Vec<MuFormula> = Vec::new();
            s.push((&**f).clone());
            let mut below = find_children(f);
            s.append(&mut below);
            proof {
                assert(s@ == seq![**f] + subformulas(**f));
            }
            s
        },
        _ => Vec::new(),
    }
}

/// How a formula is printed: as it is read, but with `!(f)` for a negation
/// and a space after `mu` and `nu`.
pub open spec fn text_of(f: MuFormula) -> Seq<char>
    decreases f,
{
    match f {
        MuFormula::Bool(_, b) => if b {
            seq!['t', 'r', 'u', 'e']
        } else {
            seq!['f', 'a', 'l', 's', 'e']
        },
        MuFormula::RecursionValue(_, x) => x@,
        MuFormula::Action(_, a) => a@,
        MuFormula::And(_, g, h) => seq!['('] + text_of(*g) + seq!['&', '&'] + text_of(*h) + seq![')'],
        MuFormula::Or(_, g, h) => seq!['('] + text_of(*g) + seq!['|', '|'] + text_of(*h) + seq![')'],
        MuFormula::Not(_, g) => seq!['!', '('] + text_of(*g) + seq![')'],
        MuFormula::DiamondOp(_, a, g) => seq!['<'] + a@ + seq!['>'] + text_of(*g),
        MuFormula::BoxOp(_, a, g) => seq!['['] + a@ + seq![']'] + text_of(*g),
        MuFormula::Mu(_, x, g) => seq!['m', 'u', ' '] + x@ + seq!['.'] + text_of(*g),
        MuFormula::Nu(_, x, g) => seq!['n', 'u', ' '] + x@ + seq!['.'] + text_of(*g),
    }
}

impl MuFormula {
    /// The formula as text.
    pub fn to_string(&self) -> (r: String)
        ensures
            r@ == text_of(*self),
        decreases self,
    {
        proof {
            reveal_strlit("true");
            reveal_strlit("false");
            reveal_strlit("(");
            reveal_strlit(")");
            reveal_strlit("&&");
            reveal_strlit("||");
            reveal_strlit("!(");
            reveal_strlit("<");
            reveal_strlit(">");
            reveal_strlit("[");
            reveal_strlit("]");
            reveal_strlit("mu ");
            reveal_strlit("nu ");
            reveal_strlit(".");
        }
        let mut r = String::new();
        match self {
            MuFormula::Action(_, a) => {
                r.append(a.as_str());
            },
            MuFormula::Bool(_, b) => {
                if *b {
                    r.append("true");
                } else {
                    r.append("false");
                }
            },
            MuFormula::RecursionValue(_, c) => {
                r.append(c.as_str());
            },
            MuFormula::Not(_, f) => {
                r.append("!(");
                r.append(f.to_string().as_str());
                r.append(")");
            },
            MuFormula::And(_, f, g) => {
                r.append("(");
                r.append(f.to_string().as_str());
                r.append("&&");
                r.append(g.to_string().as_str());
                r.append(")");
            },
            MuFormula::Or(_, f, g) => {
                r.append("(");
                r.append(f.to_string().as_str());
                r.append("||");
                r.append(g.to_string().as_str());
                r.append(")");
            },
            MuFormula::DiamondOp(_, a, f) => {
                r.append("<");
                r.append(a.as_str());
                r.append(">");
                r.append(f.to_string().as_str());
            },
            MuFormula::BoxOp(_, a, f) => {
                r.append("[");
                r.append(a.as_str());
                r.append("]");
                r.append(f.to_string().as_str());
            },
            MuFormula::Mu(_, c, f) => {
                r.append("mu ");
                r.append(c.as_str());
                r.append(".");
                r.append(f.to_string().as_str());
            },
            MuFormula::Nu(_, c, f) => {
                r.append("nu ");
                r.append(c.as_str());
                r.append(".");
                r.append(f.to_string().as_str());
            },
        }
        proof {
            assert(r@ =~= text_of(*self));
        }
        r
    }
}

} // verus!
