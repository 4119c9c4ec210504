//! The abstract syntax tree of a formula.
//!
//! Textual leaves hold raw bytes of the source text; a numeric literal
//! holds the IEEE-754 bit pattern of the `f64` it denotes, so that the
//! tree itself is plain data. The mathematical model of a tree is
//! [`TermV`], with byte sequences at the leaves.

use vstd::prelude::*;

verus! {

/// A formula term represented as an abstract syntax tree.
///
/// `Int`, `Float`, `String`, `Regex` and `Variable` are leaves; `Variable`
/// names must be resolved against a compilation context. `LoadedTerm` is a
/// post-loader placeholder referencing a runtime value slot: it is produced
/// only by the loader generator and must not appear in user-built or
/// freshly parsed trees. `Lt`/`Le`/`Gt`/`Ge` are reserved in the
/// vocabulary but not yet surfaced by the parser; the generators reject
/// them.
#[derive(Debug)]
pub enum Term {
    Int(i64),
    /// IEEE-754 bit pattern of the `f64` literal.
    Float(u64),
    String(Vec<u8>),
    Regex(Vec<u8>),
    Variable(Vec<u8>),
    LoadedTerm(i64),
    Not(Box<Term>),
    Eq(Box<Term>, Box<Term>),
    Or(Box<Term>, Box<Term>),
    And(Box<Term>, Box<Term>),
    Lt(Box<Term>, Box<Term>),
    Le(Box<Term>, Box<Term>),
    Gt(Box<Term>, Box<Term>),
    Ge(Box<Term>, Box<Term>),
}

/// The mathematical model of a [`Term`]: the same tree with byte
/// sequences at the textual leaves.
pub enum TermV {
    Int(i64),
    Float(u64),
    String(Seq<u8>),
    Regex(Seq<u8>),
    Variable(Seq<u8>),
    LoadedTerm(i64),
    Not(Box<TermV>),
    Eq(Box<TermV>, Box<TermV>),
    Or(Box<TermV>, Box<TermV>),
    And(Box<TermV>, Box<TermV>),
    Lt(Box<TermV>, Box<TermV>),
    Le(Box<TermV>, Box<TermV>),
    Gt(Box<TermV>, Box<TermV>),
    Ge(Box<TermV>, Box<TermV>),
}

pub open spec fn term_view(t: Term) -> TermV
    decreases t,
{
    match t {
        Term::Int(x) => TermV::Int(x),
        Term::Float(x) => TermV::Float(x),
        Term::String(x) => TermV::String(x@),
        Term::Regex(x) => TermV::Regex(x@),
        Term::Variable(x) => TermV::Variable(x@),
        Term::LoadedTerm(x) => TermV::LoadedTerm(x),
        Term::Not(x) => TermV::Not(Box::new(term_view(*x))),
        Term::Eq(l, r) => TermV::Eq(Box::new(term_view(*l)), Box::new(term_view(*r))),
        Term::Or(l, r) => TermV::Or(Box::new(term_view(*l)), Box::new(term_view(*r))),
        Term::And(l, r) => TermV::And(Box::new(term_view(*l)), Box::new(term_view(*r))),
        Term::Lt(l, r) => TermV::Lt(Box::new(term_view(*l)), Box::new(term_view(*r))),
        Term::Le(l, r) => TermV::Le(Box::new(term_view(*l)), Box::new(term_view(*r))),
        Term::Gt(l, r) => TermV::Gt(Box::new(term_view(*l)), Box::new(term_view(*r))),
        Term::Ge(l, r) => TermV::Ge(Box::new(term_view(*l)), Box::new(term_view(*r))),
    }
}

impl View for Term {
    type V = TermV;

    open spec fn view(&self) -> TermV {
        term_view(*self)
    }
}

/// A user-facing term: one that may be handed to the compiler. No
/// `LoadedTerm` placeholder occurs in it.
pub open spec fn user_term(t: TermV) -> bool
    decreases t,
{
    match t {
        TermV::LoadedTerm(_) => false,
        TermV::Not(x) => user_term(*x),
        TermV::Eq(l, r) => user_term(*l) && user_term(*r),
        TermV::Or(l, r) => user_term(*l) && user_term(*r),
        TermV::And(l, r) => user_term(*l) && user_term(*r),
        TermV::Lt(l, r) => user_term(*l) && user_term(*r),
        TermV::Le(l, r) => user_term(*l) && user_term(*r),
        TermV::Gt(l, r) => user_term(*l) && user_term(*r),
        TermV::Ge(l, r) => user_term(*l) && user_term(*r),
        _ => true,
    }
}

/// True when the term contains one of the comparison operators that the
/// evaluator generator does not support yet.
pub open spec fn has_cmp_op(t: TermV) -> bool
    decreases t,
{
    match t {
        TermV::Not(x) => has_cmp_op(*x),
        TermV::Eq(l, r) => has_cmp_op(*l) || has_cmp_op(*r),
        TermV::Or(l, r) => has_cmp_op(*l) || has_cmp_op(*r),
        TermV::And(l, r) => has_cmp_op(*l) || has_cmp_op(*r),
        TermV::Lt(_, _) => true,
        TermV::Le(_, _) => true,
        TermV::Gt(_, _) => true,
        TermV::Ge(_, _) => true,
        _ => false,
    }
}

/// A fully lowered term: every leaf is a `LoadedTerm` whose slot lies in
/// `[0, n)`, and only the operators the evaluator supports occur.
pub open spec fn loaded_wf(t: TermV, n: int) -> bool
    decreases t,
{
    match t {
        TermV::LoadedTerm(i) => 0 <= i < n,
        TermV::Not(x) => loaded_wf(*x, n),
        TermV::Eq(l, r) => loaded_wf(*l, n) && loaded_wf(*r, n),
        TermV::Or(l, r) => loaded_wf(*l, n) && loaded_wf(*r, n),
        TermV::And(l, r) => loaded_wf(*l, n) && loaded_wf(*r, n),
        _ => false,
    }
}

/// Structural equality of two terms, decided in executable code.
pub fn term_eq(a: &Term, b: &Term) -> (r: bool)
    ensures
        r == (a@ == b@),
    decreases a,
{
    match (a, b) {
        (Term::Int(x), Term::Int(y)) => x == y,
        (Term::Float(x), Term::Float(y)) => x == y,
        (Term::String(x), Term::String(y)) => bytes_eq(x, y),
        (Term::Regex(x), Term::Regex(y)) => bytes_eq(x, y),
        (Term::Variable(x), Term::Variable(y)) => bytes_eq(x, y),
        (Term::LoadedTerm(x), Term::LoadedTerm(y)) => x == y,
        (Term::Not(x), Term::Not(y)) => term_eq(x, y),
        (Term::Eq(a1, a2), Term::Eq(b1, b2)) => term_eq(a1, b1) && term_eq(a2, b2),
        (Term::Or(a1, a2), Term::Or(b1, b2)) => term_eq(a1, b1) && term_eq(a2, b2),
        (Term::And(a1, a2), Term::And(b1, b2)) => term_eq(a1, b1) && term_eq(a2, b2),
        (Term::Lt(a1, a2), Term::Lt(b1, b2)) => term_eq(a1, b1) && term_eq(a2, b2),
        (Term::Le(a1, a2), Term::Le(b1, b2)) => term_eq(a1, b1) && term_eq(a2, b2),
        (Term::Gt(a1, a2), Term::Gt(b1, b2)) => term_eq(a1, b1) && term_eq(a2, b2),
        (Term::Ge(a1, a2), Term::Ge(b1, b2)) => term_eq(a1, b1) && term_eq(a2, b2),
        _ => false,
    }
}

/// Byte-string equality, decided in executable code.
pub fn bytes_eq(a: &Vec<u8>, b: &Vec<u8>) -> (r: bool)
    ensures
        r == (a@ == b@),
{
    if a.len() != b.len() {
        assert(a@ != b@) by {
            assert(a@.len() != b@.len());
        }
        return false;
    }
    let mut i: usize = 0;
    while i < a.len()
        invariant
            0 <= i <= a@.len(),
            a@.len() == b@.len(),
            forall|j: int| 0 <= j < i ==> a@[j] == b@[j],
        decreases a@.len() - i,
    {
        if a[i] != b[i] {
            return false;
        }
        i += 1;
    }
    proof {
        assert(a@ =~= b@);
    }
    true
}

/// A deep copy of a term; the copy's model equals the original's.
pub fn copy_term(t: &Term) -> (r: Term)
    ensures
        r@ == t@,
    decreases t,
{
    match t {
        Term::Int(x) => Term::Int(*x),
        Term::Float(x) => Term::Float(*x),
        Term::String(x) => Term::String(copy_bytes(x)),
        Term::Regex(x) => Term::Regex(copy_bytes(x)),
        Term::Variable(x) => Term::Variable(copy_bytes(x)),
        Term::LoadedTerm(x) => Term::LoadedTerm(*x),
        Term::Not(x) => Term::Not(Box::new(copy_term(x))),
        Term::Eq(l, r) => Term::Eq(Box::new(copy_term(l)), Box::new(copy_term(r))),
        Term::Or(l, r) => Term::Or(Box::new(copy_term(l)), Box::new(copy_term(r))),
        Term::And(l, r) => Term::And(Box::new(copy_term(l)), Box::new(copy_term(r))),
        Term::Lt(l, r) => Term::Lt(Box::new(copy_term(l)), Box::new(copy_term(r))),
        Term::Le(l, r) => Term::Le(Box::new(copy_term(l)), Box::new(copy_term(r))),
        Term::Gt(l, r) => Term::Gt(Box::new(copy_term(l)), Box::new(copy_term(r))),
        Term::Ge(l, r) => Term::Ge(Box::new(copy_term(l)), Box::new(copy_term(r))),
    }
}

/// A copy of a byte string; the copy's view equals the original's.
pub fn copy_bytes(a: &Vec<u8>) -> (r: Vec<u8>)
    ensures
        r@ == a@,
{
    let mut r: Vec<u8> = Vec::new();
    let mut i: usize = 0;
    while i < a.len()
        invariant
            0 <= i <= a@.len(),
            r@ == a@.subrange(0, i as int),
        decreases a@.len() - i,
    {
        r.push(a[i]);
        assert(r@ =~= a@.subrange(0, i + 1 as int));
        i += 1;
    }
    proof {
        assert(r@ =~= a@);
    }
    r
}

} // verus!
