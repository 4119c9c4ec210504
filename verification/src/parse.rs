//! The formula parser: a recursive-descent, PEG-like ordered choice over
//! the grammar
//!
//! ```text
//! term    := op0 | op1 | value
//! op0     := op1 ws ("and"|"or") ws term
//! op1     := value ws ("=="|"!=") ws term
//! value   := regex | string | float | identifier
//! regex   := "/" not_slash+ "/"
//! string  := '"' not_quote* '"'
//! float   := double-literal (matches integers too)
//! identifier := [A-Za-z0-9]+
//! ws      := whitespace*
//! ```
//!
//! `!=` desugars at parse time to `Not(Eq(l, r))`. Numeric literals
//! always take the `Float` path: the parser never produces `Int`. The
//! executable parser is proved equal to the specification parser
//! (`spec_term` and friends), which models the same ordered choice over
//! byte sequences.

use vstd::prelude::*;

use crate::term::{Term, TermV};
use vstd::string::StringSliceAdditionalSpecFns;

verus! {

/// A parse failure: the byte offset at which the term was expected.
#[derive(Clone, Copy, PartialEq, Eq, Structural, Debug)]
pub struct ParseError {
    pub at: usize,
}

/// An `and`/`or` combinator token.
#[derive(Clone, Copy, PartialEq, Eq, Structural, Debug)]
pub enum Operator0 {
    And,
    Or,
}

/// A comparison token.
#[derive(Clone, Copy, PartialEq, Eq, Structural, Debug)]
pub enum Operator1 {
    Eq,
    NEq,
}

/// ASCII whitespace, as the grammar's `ws` accepts it.
pub open spec fn is_ws(b: u8) -> bool {
    b == 32 || b == 9 || b == 10 || b == 11 || b == 12 || b == 13
}

/// ASCII letters and digits, the identifier alphabet.
pub open spec fn is_alnum(b: u8) -> bool {
    (48 <= b && b <= 57) || (65 <= b && b <= 90) || (97 <= b && b <= 122)
}

/// The number of leading whitespace bytes.
pub open spec fn ws_len(s: Seq<u8>) -> int
    decreases s.len(),
{
    if s.len() > 0 && is_ws(s[0]) {
        1 + ws_len(s.skip(1))
    } else {
        0
    }
}

/// The number of leading identifier bytes.
pub open spec fn alnum_len(s: Seq<u8>) -> int
    decreases s.len(),
{
    if s.len() > 0 && is_alnum(s[0]) {
        1 + alnum_len(s.skip(1))
    } else {
        0
    }
}

/// The first position of a byte in a sequence.
pub open spec fn find_byte(s: Seq<u8>, b: u8) -> Option<int>
    decreases s.len(),
{
    if s.len() == 0 {
        None
    } else if s[0] == b {
        Some(0)
    } else {
        match find_byte(s.skip(1), b) {
            Some(k) => Some(k + 1),
            None => None,
        }
    }
}

proof fn lemma_ws_bounds(s: Seq<u8>)
    ensures
        0 <= ws_len(s) <= s.len(),
    decreases s.len(),
{
    if s.len() > 0 && is_ws(s[0]) {
        lemma_ws_bounds(s.skip(1));
    }
}

proof fn lemma_alnum_bounds(s: Seq<u8>)
    ensures
        0 <= alnum_len(s) <= s.len(),
    decreases s.len(),
{
    if s.len() > 0 && is_alnum(s[0]) {
        lemma_alnum_bounds(s.skip(1));
    }
}

proof fn lemma_find_bounds(s: Seq<u8>, b: u8)
    ensures
        match find_byte(s, b) {
            Some(k) => 0 <= k < s.len() && s[k] == b,
            None => true,
        },
    decreases s.len(),
{
    if s.len() > 0 && s[0] != b {
        lemma_find_bounds(s.skip(1), b);
    }
}

/// The lower-case image of an ASCII byte.
pub open spec fn lower8(b: u8) -> u8 {
    if 65 <= b && b <= 90 {
        (b + 32) as u8
    } else {
        b
    }
}

/// Whether a byte string can begin a numeric literal as nom's `double`
/// recognizes one: a digit, a sign, a dot, or the first letters of
/// `inf` or `nan` in any case. On any other input `double` fails, so the
/// parser need not consult it.
pub open spec fn float_starts(s: Seq<u8>) -> bool {
    s.len() > 0 && ((48 <= s[0] && s[0] <= 57) || s[0] == 43 || s[0] == 45 || s[0] == 46 || (
    s.len() >= 3 && lower8(s[0]) == 105 && lower8(s[1]) == 110 && lower8(s[2]) == 102) || (s.len()
        >= 3 && lower8(s[0]) == 110 && lower8(s[1]) == 97 && lower8(s[2]) == 110))
}

/// `float_starts`, decided in executable code on the suffix at `pos`.
fn float_starts_exec(s: &[u8], pos: usize) -> (r: bool)
    requires
        pos <= s@.len(),
    ensures
        r == float_starts(s@.skip(pos as int)),
{
    let n = s.len() - pos;
    if n == 0 {
        return false;
    }
    let b0 = s[pos];
    if (48 <= b0 && b0 <= 57) || b0 == 43 || b0 == 45 || b0 == 46 {
        return true;
    }
    if n >= 3 {
        let l0 = lower8_exec(s[pos]);
        let l1 = lower8_exec(s[pos + 1]);
        let l2 = lower8_exec(s[pos + 2]);
        (l0 == 105 && l1 == 110 && l2 == 102) || (l0 == 110 && l1 == 97 && l2 == 110)
    } else {
        false
    }
}

fn lower8_exec(b: u8) -> (r: u8)
    ensures
        r == lower8(b),
{
    if 65 <= b && b <= 90 {
        b + 32
    } else {
        b
    }
}

/// The result of nom's `number::complete::double` on a byte string: how
/// many bytes the recognized literal takes, and the IEEE-754 bit pattern
/// of the `f64` it parses to; `None` where the input does not begin with
/// a recognizable number.
pub uninterp spec fn double_token(s: Seq<u8>) -> Option<(int, u64)>;

/// Relies on nom's `number::complete::double`: what it parses, and how
/// much input it consumes, depend on the input bytes alone. On success
/// it consumes at least one byte and at most the whole input; on empty
/// input it fails. Returns the length of the unconsumed remainder and
/// the parsed number's bit pattern.
#[verifier::external_body]
fn take_double(s: &[u8], pos: usize) -> (r: Option<(usize, u64)>)
    requires
        pos <= s@.len(),
    ensures
        match r {
            Some(p) => {
                &&& pos + 1 <= s@.len() - p.0
                &&& double_token(s@.skip(pos as int)) == Some(
                    ((s@.len() - pos - p.0) as int, p.1),
                )
            },
            None => double_token(s@.skip(pos as int)) is None,
        },
{
    let rest = &s[pos..];
    match nom::number::complete::double::<&[u8], nom::error::Error<&[u8]>>(rest) {
        Ok((remaining, value)) => Some((remaining.len(), value.to_bits())),
        Err(_) => None,
    }
}

/// The specification of `w_string`: a quote, the literal bytes up to the
/// next quote, and that quote.
pub open spec fn spec_string(s: Seq<u8>) -> Option<(TermV, int)> {
    if s.len() >= 1 && s[0] == 34 {
        match find_byte(s.skip(1), 34) {
            Some(k) => Some((TermV::String(s.skip(1).take(k)), k + 2)),
            None => None,
        }
    } else {
        None
    }
}

/// The specification of `w_regex`: a slash, at least one non-slash byte,
/// and a slash.
pub open spec fn spec_regex(s: Seq<u8>) -> Option<(TermV, int)> {
    if s.len() >= 1 && s[0] == 47 {
        match find_byte(s.skip(1), 47) {
            Some(k) => if k >= 1 {
                Some((TermV::Regex(s.skip(1).take(k)), k + 2))
            } else {
                None
            },
            None => None,
        }
    } else {
        None
    }
}

/// The specification of `w_float`: whatever nom's `double` recognizes.
/// An input that cannot begin a numeric literal fails without consulting
/// `double`.
pub open spec fn spec_float(s: Seq<u8>) -> Option<(TermV, int)> {
    if !float_starts(s) {
        None
    } else {
        match double_token(s) {
            Some(p) => if 1 <= p.0 <= s.len() {
                Some((TermV::Float(p.1), p.0))
            } else {
                None
            },
            None => None,
        }
    }
}

/// The specification of `w_identifier`: one or more letters or digits.
pub open spec fn spec_identifier(s: Seq<u8>) -> Option<(TermV, int)> {
    let k = alnum_len(s);
    if k >= 1 {
        Some((TermV::Variable(s.take(k)), k))
    } else {
        None
    }
}

/// The specification of `w_value`: ordered choice of regex, string,
/// float and identifier.
pub open spec fn spec_value(s: Seq<u8>) -> Option<(TermV, int)> {
    match spec_regex(s) {
        Some(r) => Some(r),
        None => match spec_string(s) {
            Some(r) => Some(r),
            None => match spec_float(s) {
                Some(r) => Some(r),
                None => spec_identifier(s),
            },
        },
    }
}

/// The specification of `w_operator0`: `and`, else `or`.
pub open spec fn spec_operator0(s: Seq<u8>) -> Option<(Operator0, int)> {
    if s.len() >= 3 && s[0] == 97 && s[1] == 110 && s[2] == 100 {
        Some((Operator0::And, 3))
    } else if s.len() >= 2 && s[0] == 111 && s[1] == 114 {
        Some((Operator0::Or, 2))
    } else {
        None
    }
}

/// The specification of `w_operator1`: `==`, else `!=`.
pub open spec fn spec_operator1(s: Seq<u8>) -> Option<(Operator1, int)> {
    if s.len() >= 2 && s[0] == 61 && s[1] == 61 {
        Some((Operator1::Eq, 2))
    } else if s.len() >= 2 && s[0] == 33 && s[1] == 61 {
        Some((Operator1::NEq, 2))
    } else {
        None
    }
}

/// How an `op0` combines its operands.
pub open spec fn combine0(op: Operator0, l: TermV, r: TermV) -> TermV {
    match op {
        Operator0::And => TermV::And(Box::new(l), Box::new(r)),
        Operator0::Or => TermV::Or(Box::new(l), Box::new(r)),
    }
}

/// How an `op1` combines its operands; `!=` desugars to `Not(Eq(..))`.
pub open spec fn combine1(op: Operator1, l: TermV, r: TermV) -> TermV {
    match op {
        Operator1::Eq => TermV::Eq(Box::new(l), Box::new(r)),
        Operator1::NEq => TermV::Not(Box::new(TermV::Eq(Box::new(l), Box::new(r)))),
    }
}

/// A value parse consumes at least one byte and at most the input.
pub proof fn lemma_value_bounds(s: Seq<u8>)
    ensures
        match spec_value(s) {
            Some(p) => 1 <= p.1 <= s.len(),
            None => true,
        },
{
    if s.len() >= 1 {
        lemma_find_bounds(s.skip(1), 34);
        lemma_find_bounds(s.skip(1), 47);
    }
    lemma_alnum_bounds(s);
}

/// The specification of `w_op1`: a value, an optionally spaced
/// comparison operator, and a term.
pub open spec fn spec_op1(s: Seq<u8>) -> Option<(TermV, int)>
    decreases s.len(), 1int,
{
    match spec_value(s) {
        Some(lp) => {
            let m1 = ws_len(s.skip(lp.1));
            match spec_operator1(s.skip(lp.1 + m1)) {
                Some(op) => {
                    let m2 = ws_len(s.skip(lp.1 + m1 + op.1));
                    let off = lp.1 + m1 + op.1 + m2;
                    if 1 <= off <= s.len() {
                        match spec_term(s.skip(off)) {
                            Some(rp) => Some((combine1(op.0, lp.0, rp.0), off + rp.1)),
                            None => None,
                        }
                    } else {
                        None
                    }
                },
                None => None,
            }
        },
        None => None,
    }
}

/// The specification of `w_op0`: an `op1`, an optionally spaced boolean
/// combinator, and a term.
pub open spec fn spec_op0(s: Seq<u8>) -> Option<(TermV, int)>
    decreases s.len(), 2int,
{
    match spec_op1(s) {
        Some(lp) => {
            let m1 = ws_len(s.skip(lp.1));
            match spec_operator0(s.skip(lp.1 + m1)) {
                Some(op) => {
                    let m2 = ws_len(s.skip(lp.1 + m1 + op.1));
                    let off = lp.1 + m1 + op.1 + m2;
                    if 1 <= off <= s.len() {
                        match spec_term(s.skip(off)) {
                            Some(rp) => Some((combine0(op.0, lp.0, rp.0), off + rp.1)),
                            None => None,
                        }
                    } else {
                        None
                    }
                },
                None => None,
            }
        },
        None => None,
    }
}

/// The specification of `w_term`: ordered choice of `op0`, `op1` and
/// `value`.
pub open spec fn spec_term(s: Seq<u8>) -> Option<(TermV, int)>
    decreases s.len(), 3int,
{
    match spec_op0(s) {
        Some(r) => Some(r),
        None => match spec_op1(s) {
            Some(r) => Some(r),
            None => spec_value(s),
        },
    }
}

/// The correspondence between an executable parse from `pos` and the
/// specification parse of the suffix at `pos`.
pub open spec fn parse_post(
    r: Option<(Term, usize)>,
    s: Seq<u8>,
    pos: int,
    sp: Option<(TermV, int)>,
) -> bool {
    match r {
        Some(p) => sp == Some((p.0@, p.1 - pos)) && pos <= p.1 <= s.len(),
        None => sp is None,
    }
}

/// Advance over whitespace.
fn skip_ws(s: &[u8], pos: usize) -> (r: usize)
    requires
        pos <= s@.len(),
    ensures
        r as int == pos + ws_len(s@.skip(pos as int)),
        pos <= r <= s@.len(),
{
    let mut r = pos;
    while r < s.len() && is_ws_exec(s[r])
        invariant
            pos <= r <= s@.len(),
            ws_len(s@.skip(pos as int)) == (r - pos) + ws_len(s@.skip(r as int)),
        decreases s@.len() - r,
    {
        proof {
            lemma_ws_step(s@, r as int);
        }
        r = r + 1;
    }
    proof {
        if r < s@.len() {
            lemma_ws_step(s@, r as int);
        } else {
            assert(s@.skip(r as int).len() == 0);
        }
        lemma_ws_bounds(s@.skip(pos as int));
    }
    r
}

/// Whitespace, decided in executable code.
fn is_ws_exec(b: u8) -> (r: bool)
    ensures
        r == is_ws(b),
{
    b == 32 || b == 9 || b == 10 || b == 11 || b == 12 || b == 13
}

/// Identifier alphabet, decided in executable code.
fn is_alnum_exec(b: u8) -> (r: bool)
    ensures
        r == is_alnum(b),
{
    (48 <= b && b <= 57) || (65 <= b && b <= 90) || (97 <= b && b <= 122)
}

proof fn lemma_ws_step(s: Seq<u8>, p: int)
    requires
        0 <= p < s.len(),
    ensures
        ws_len(s.skip(p)) == if is_ws(s[p]) {
            1 + ws_len(s.skip(p + 1))
        } else {
            0
        },
{
    assert(s.skip(p)[0] == s[p]);
    assert(s.skip(p).skip(1) =~= s.skip(p + 1));
}

proof fn lemma_alnum_step(s: Seq<u8>, p: int)
    requires
        0 <= p < s.len(),
    ensures
        alnum_len(s.skip(p)) == if is_alnum(s[p]) {
            1 + alnum_len(s.skip(p + 1))
        } else {
            0
        },
{
    assert(s.skip(p)[0] == s[p]);
    assert(s.skip(p).skip(1) =~= s.skip(p + 1));
}

proof fn lemma_find_step(s: Seq<u8>, p: int, b: u8)
    requires
        0 <= p < s.len(),
    ensures
        find_byte(s.skip(p), b) == if s[p] == b {
            Some(0int)
        } else {
            match find_byte(s.skip(p + 1), b) {
                Some(k) => Some(k + 1),
                None => None,
            }
        },
{
    assert(s.skip(p)[0] == s[p]);
    assert(s.skip(p).skip(1) =~= s.skip(p + 1));
}

/// Find a byte at or after `pos`.
fn find_from(s: &[u8], pos: usize, b: u8) -> (r: Option<usize>)
    requires
        pos <= s@.len(),
    ensures
        match r {
            Some(j) => pos <= j < s@.len() && find_byte(s@.skip(pos as int), b) == Some(
                j - pos,
            ),
            None => find_byte(s@.skip(pos as int), b) is None,
        },
{
    let mut cur = pos;
    while cur < s.len()
        invariant
            pos <= cur <= s@.len(),
            find_byte(s@.skip(pos as int), b) == (match find_byte(s@.skip(cur as int), b) {
                Some(k) => Some(k + cur - pos),
                None => None::<int>,
            }),
        decreases s@.len() - cur,
    {
        proof {
            lemma_find_step(s@, cur as int, b);
        }
        if s[cur] == b {
            return Some(cur);
        }
        cur = cur + 1;
    }
    proof {
        assert(s@.skip(cur as int).len() == 0);
    }
    None
}

/// Count identifier bytes at or after `pos`.
fn alnum_from(s: &[u8], pos: usize) -> (r: usize)
    requires
        pos <= s@.len(),
    ensures
        r as int == pos + alnum_len(s@.skip(pos as int)),
        pos <= r <= s@.len(),
{
    let mut r = pos;
    while r < s.len() && is_alnum_exec(s[r])
        invariant
            pos <= r <= s@.len(),
            alnum_len(s@.skip(pos as int)) == (r - pos) + alnum_len(s@.skip(r as int)),
        decreases s@.len() - r,
    {
        proof {
            lemma_alnum_step(s@, r as int);
        }
        r = r + 1;
    }
    proof {
        if r < s@.len() {
            lemma_alnum_step(s@, r as int);
        } else {
            assert(s@.skip(r as int).len() == 0);
        }
        lemma_alnum_bounds(s@.skip(pos as int));
    }
    r
}

/// Copy the bytes of `s` in `[from, to)`.
fn copy_range(s: &[u8], from: usize, to: usize) -> (r: Vec<u8>)
    requires
        from <= to <= s@.len(),
    ensures
        r@ == s@.subrange(from as int, to as int),
{
    let mut r: Vec<u8> = Vec::new();
    let mut i = from;
    while i < to
        invariant
            from <= i <= to <= s@.len(),
            r@ == s@.subrange(from as int, i as int),
        decreases to - i,
    {
        r.push(s[i]);
        assert(r@ =~= s@.subrange(from as int, i + 1 as int));
        i += 1;
    }
    r
}

/// Parse a string literal.
fn w_string(s: &[u8], pos: usize) -> (r: Option<(Term, usize)>)
    requires
        pos <= s@.len(),
    ensures
        parse_post(r, s@, pos as int, spec_string(s@.skip(pos as int))),
{
    proof {
        if pos < s@.len() {
            assert(s@.skip(pos as int)[0] == s@[pos as int]);
            assert(s@.skip(pos as int).skip(1) =~= s@.skip(pos as int + 1));
        }
    }
    if pos < s.len() && s[pos] == 34 {
        match find_from(s, pos + 1, 34) {
            Some(j) => {
                let lit = copy_range(s, pos + 1, j);
                proof {
                    let suf = s@.skip(pos as int);
                    let k = j - (pos + 1) as int;
                    assert(suf.skip(1).take(k) =~= s@.subrange(pos as int + 1, j as int));
                }
                Some((Term::String(lit), j + 1))
            },
            None => None,
        }
    } else {
        None
    }
}

/// Parse a regex literal.
fn w_regex(s: &[u8], pos: usize) -> (r: Option<(Term, usize)>)
    requires
        pos <= s@.len(),
    ensures
        parse_post(r, s@, pos as int, spec_regex(s@.skip(pos as int))),
{
    proof {
        if pos < s@.len() {
            assert(s@.skip(pos as int)[0] == s@[pos as int]);
            assert(s@.skip(pos as int).skip(1) =~= s@.skip(pos as int + 1));
        }
    }
    if pos < s.len() && s[pos] == 47 {
        match find_from(s, pos + 1, 47) {
            Some(j) => {
                if j >= pos + 2 {
                    let lit = copy_range(s, pos + 1, j);
                    proof {
                        let suf = s@.skip(pos as int);
                        let k = j - (pos + 1) as int;
                        assert(suf.skip(1).take(k) =~= s@.subrange(pos as int + 1, j as int));
                    }
                    Some((Term::Regex(lit), j + 1))
                } else {
                    None
                }
            },
            None => None,
        }
    } else {
        None
    }
}

/// Parse a numeric literal through nom's `double`.
fn w_float(s: &[u8], pos: usize) -> (r: Option<(Term, usize)>)
    requires
        pos <= s@.len(),
    ensures
        parse_post(r, s@, pos as int, spec_float(s@.skip(pos as int))),
{
    if !float_starts_exec(s, pos) {
        return None;
    }
    match take_double(s, pos) {
        Some(p) => {
            let consumed = s.len() - pos - p.0;
            Some((Term::Float(p.1), pos + consumed))
        },
        None => None,
    }
}

/// Parse an identifier into a `Variable` leaf.
fn w_identifier(s: &[u8], pos: usize) -> (r: Option<(Term, usize)>)
    requires
        pos <= s@.len(),
    ensures
        parse_post(r, s@, pos as int, spec_identifier(s@.skip(pos as int))),
{
    let end = alnum_from(s, pos);
    if end > pos {
        let lit = copy_range(s, pos, end);
        proof {
            let suf = s@.skip(pos as int);
            assert(suf.take(end - pos as int) =~= s@.subrange(pos as int, end as int));
        }
        Some((Term::Variable(lit), end))
    } else {
        None
    }
}

/// Parse a value: regex, string, float or identifier, in that order.
fn w_value(s: &[u8], pos: usize) -> (r: Option<(Term, usize)>)
    requires
        pos <= s@.len(),
    ensures
        parse_post(r, s@, pos as int, spec_value(s@.skip(pos as int))),
{
    match w_regex(s, pos) {
        Some(p) => Some(p),
        None => match w_string(s, pos) {
            Some(p) => Some(p),
            None => match w_float(s, pos) {
                Some(p) => Some(p),
                None => w_identifier(s, pos),
            },
        },
    }
}

/// Parse a boolean combinator token.
fn w_operator0(s: &[u8], pos: usize) -> (r: Option<(Operator0, usize)>)
    requires
        pos <= s@.len(),
    ensures
        match r {
            Some(p) => spec_operator0(s@.skip(pos as int)) == Some((p.0, p.1 - pos as int))
                && pos <= p.1 <= s@.len(),
            None => spec_operator0(s@.skip(pos as int)) is None,
        },
{
    proof {
        let suf = s@.skip(pos as int);
        assert forall|k: int| 0 <= k < suf.len() implies suf[k] == s@[pos + k] by {}
    }
    if s.len() - pos >= 3 && s[pos] == 97 && s[pos + 1] == 110 && s[pos + 2] == 100 {
        Some((Operator0::And, pos + 3))
    } else if s.len() - pos >= 2 && s[pos] == 111 && s[pos + 1] == 114 {
        Some((Operator0::Or, pos + 2))
    } else {
        None
    }
}

/// Parse a comparison token.
fn w_operator1(s: &[u8], pos: usize) -> (r: Option<(Operator1, usize)>)
    requires
        pos <= s@.len(),
    ensures
        match r {
            Some(p) => spec_operator1(s@.skip(pos as int)) == Some((p.0, p.1 - pos as int))
                && pos <= p.1 <= s@.len(),
            None => spec_operator1(s@.skip(pos as int)) is None,
        },
{
    proof {
        let suf = s@.skip(pos as int);
        assert forall|k: int| 0 <= k < suf.len() implies suf[k] == s@[pos + k] by {}
    }
    if s.len() - pos >= 2 && s[pos] == 61 && s[pos + 1] == 61 {
        Some((Operator1::Eq, pos + 2))
    } else if s.len() - pos >= 2 && s[pos] == 33 && s[pos + 1] == 61 {
        Some((Operator1::NEq, pos + 2))
    } else {
        None
    }
}

/// Parse an `op1`: a value compared to a term.
fn w_op1(s: &[u8], pos: usize) -> (r: Option<(Term, usize)>)
    requires
        pos <= s@.len(),
    ensures
        parse_post(r, s@, pos as int, spec_op1(s@.skip(pos as int))),
    decreases s@.len() - pos, 1int,
{
    let ghost suf = s@.skip(pos as int);
    let lp = match w_value(s, pos) {
        Some(p) => p,
        None => {
            return None;
        },
    };
    proof {
        lemma_value_bounds(suf);
        assert(suf.skip(lp.1 - pos as int) =~= s@.skip(lp.1 as int));
    }
    let p2 = skip_ws(s, lp.1);
    proof {
        assert(suf.skip(p2 - pos as int) =~= s@.skip(p2 as int));
    }
    let op = match w_operator1(s, p2) {
        Some(p) => p,
        None => {
            return None;
        },
    };
    let p4 = skip_ws(s, op.1);
    proof {
        assert(suf.skip(op.1 - pos as int) =~= s@.skip(op.1 as int));
        assert(suf.skip(p4 - pos as int) =~= s@.skip(p4 as int));
    }
    let rp = match w_term(s, p4) {
        Some(p) => p,
        None => {
            return None;
        },
    };
    let l = lp.0;
    let rterm = rp.0;
    match op.0 {
        Operator1::Eq => Some((Term::Eq(Box::new(l), Box::new(rterm)), rp.1)),
        Operator1::NEq => {
            let inner = Term::Eq(Box::new(l), Box::new(rterm));
            let ghost innerv = inner@;
            let result = Term::Not(Box::new(inner));
            proof {
                assert(result@ == TermV::Not(Box::new(innerv)));
            }
            Some((result, rp.1))
        },
    }
}

/// Parse an `op0`: an `op1` combined with a term.
fn w_op0(s: &[u8], pos: usize) -> (r: Option<(Term, usize)>)
    requires
        pos <= s@.len(),
    ensures
        parse_post(r, s@, pos as int, spec_op0(s@.skip(pos as int))),
    decreases s@.len() - pos, 2int,
{
    let ghost suf = s@.skip(pos as int);
    let lp = match w_op1(s, pos) {
        Some(p) => p,
        None => {
            return None;
        },
    };
    proof {
        lemma_op1_bounds(suf);
        assert(suf.skip(lp.1 - pos as int) =~= s@.skip(lp.1 as int));
    }
    let p2 = skip_ws(s, lp.1);
    proof {
        assert(suf.skip(p2 - pos as int) =~= s@.skip(p2 as int));
    }
    let op = match w_operator0(s, p2) {
        Some(p) => p,
        None => {
            return None;
        },
    };
    let p4 = skip_ws(s, op.1);
    proof {
        assert(suf.skip(op.1 - pos as int) =~= s@.skip(op.1 as int));
        assert(suf.skip(p4 - pos as int) =~= s@.skip(p4 as int));
    }
    let rp = match w_term(s, p4) {
        Some(p) => p,
        None => {
            return None;
        },
    };
    let l = lp.0;
    let rterm = rp.0;
    match op.0 {
        Operator0::And => Some((Term::And(Box::new(l), Box::new(rterm)), rp.1)),
        Operator0::Or => Some((Term::Or(Box::new(l), Box::new(rterm)), rp.1)),
    }
}

/// An `op1` parse consumes at least one byte and at most the input.
pub proof fn lemma_op1_bounds(s: Seq<u8>)
    ensures
        match spec_op1(s) {
            Some(p) => 1 <= p.1 <= s.len(),
            None => true,
        },
    decreases s.len(), 1int,
{
    if spec_op1(s) is Some {
        lemma_value_bounds(s);
        let lp = spec_value(s)->Some_0;
        lemma_ws_bounds(s.skip(lp.1));
        let m1 = ws_len(s.skip(lp.1));
        let op = spec_operator1(s.skip(lp.1 + m1))->Some_0;
        lemma_ws_bounds(s.skip(lp.1 + m1 + op.1));
        let m2 = ws_len(s.skip(lp.1 + m1 + op.1));
        let off = lp.1 + m1 + op.1 + m2;
        lemma_term_bounds(s.skip(off));
    }
}

/// A term parse consumes at least one byte and at most the input.
pub proof fn lemma_term_bounds(s: Seq<u8>)
    ensures
        match spec_term(s) {
            Some(p) => 1 <= p.1 <= s.len(),
            None => true,
        },
    decreases s.len(), 3int,
{
    lemma_value_bounds(s);
    if spec_op0(s) is Some {
        lemma_op1_bounds(s);
        let lp = spec_op1(s)->Some_0;
        lemma_ws_bounds(s.skip(lp.1));
        let m1 = ws_len(s.skip(lp.1));
        let op = spec_operator0(s.skip(lp.1 + m1))->Some_0;
        lemma_ws_bounds(s.skip(lp.1 + m1 + op.1));
        let m2 = ws_len(s.skip(lp.1 + m1 + op.1));
        let off = lp.1 + m1 + op.1 + m2;
        lemma_term_bounds(s.skip(off));
    } else if spec_op1(s) is Some {
        lemma_op1_bounds(s);
    }
}

/// Parse a term: `op0`, `op1` or a value, in that order.
fn w_term(s: &[u8], pos: usize) -> (r: Option<(Term, usize)>)
    requires
        pos <= s@.len(),
    ensures
        parse_post(r, s@, pos as int, spec_term(s@.skip(pos as int))),
    decreases s@.len() - pos, 3int,
{
    match w_op0(s, pos) {
        Some(p) => Some(p),
        None => match w_op1(s, pos) {
            Some(p) => Some(p),
            None => w_value(s, pos),
        },
    }
}

/// Parse a formula. On success returns the tree and the number of bytes
/// consumed; the unconsumed suffix of the input starts there. The same
/// tree can be compiled by multiple contexts. On failure returns the
/// offset at which a term was expected.
pub fn parse(input: &str) -> (r: Result<(Term, usize), ParseError>)
    ensures
        match r {
            Ok(p) => spec_term(input.spec_bytes()) == Some((p.0@, p.1 as int)) && p.1
                <= input.spec_bytes().len(),
            Err(e) => spec_term(input.spec_bytes()) is None && e.at == 0,
        },
{
    let bytes = input.as_bytes();
    proof {
        assert(bytes@.skip(0) =~= input.spec_bytes());
    }
    match w_term(bytes, 0) {
        Some(p) => Ok(p),
        None => Err(ParseError { at: 0 }),
    }
}


/// A leaf the printer can serialize so that parsing reads it back: a
/// string without quotes, a non-empty regex without slashes, or an
/// identifier that starts with a letter and cannot be mistaken for the
/// start of a numeric literal.
pub open spec fn rt_value(t: TermV) -> bool {
    match t {
        TermV::String(s) => find_byte(s, 34) is None,
        TermV::Regex(p) => p.len() >= 1 && find_byte(p, 47) is None,
        TermV::Variable(v) => {
            &&& v.len() >= 1
            &&& alnum_len(v) == v.len()
            &&& ((65 <= v[0] && v[0] <= 90) || (97 <= v[0] && v[0] <= 122))
            &&& !(v.len() >= 3 && lower8(v[0]) == 105 && lower8(v[1]) == 110 && lower8(v[2])
                == 102)
            &&& !(v.len() >= 3 && lower8(v[0]) == 110 && lower8(v[1]) == 97 && lower8(v[2])
                == 110)
        },
        _ => false,
    }
}

/// A term whose printed text, followed by a boolean-combinator
/// continuation, parses without absorbing the continuation: its right
/// spine ends in a value.
pub open spec fn and_safe(t: TermV) -> bool
    decreases t,
{
    match t {
        TermV::And(l, r) => and_safe(*r),
        TermV::Or(l, r) => and_safe(*r),
        TermV::Eq(_, _) => false,
        TermV::Not(_) => false,
        _ => true,
    }
}

/// The right operand of a comparison node.
pub open spec fn op1_right(t: TermV) -> TermV {
    match t {
        TermV::Eq(l, r) => *r,
        TermV::Not(x) => match *x {
            TermV::Eq(l, r) => *r,
            _ => t,
        },
        _ => t,
    }
}

/// A comparison the printer can serialize: `Eq` or its `!=` sugar
/// `Not(Eq(..))`, with a printable value on the left and a printable
/// term on the right.
pub open spec fn rt_op1(t: TermV) -> bool
    decreases t, 1int,
{
    match t {
        TermV::Eq(l, r) => rt_value(*l) && rt_term(*r),
        TermV::Not(x) => match *x {
            TermV::Eq(l, r) => rt_value(*l) && rt_term(*r),
            _ => false,
        },
        _ => false,
    }
}

/// A boolean combination the printer can serialize: the grammar demands
/// a comparison on the left, and the comparison's right spine must end
/// in a value lest the printed combinator be absorbed by the inner term.
pub open spec fn rt_op0(t: TermV) -> bool
    decreases t, 2int,
{
    match t {
        TermV::And(l, r) => rt_op1(*l) && and_safe(op1_right(*l)) && rt_term(*r),
        TermV::Or(l, r) => rt_op1(*l) && and_safe(op1_right(*l)) && rt_term(*r),
        _ => false,
    }
}

/// A tree in the parse-print round-trip class: one the printer can
/// serialize so that parsing the text yields the tree back.
pub open spec fn rt_term(t: TermV) -> bool
    decreases t, 3int,
{
    rt_op0(t) || rt_op1(t) || rt_value(t)
}

/// The printed text of a round-trip tree; empty on trees outside the
/// printable shapes.
pub open spec fn spec_print(t: TermV) -> Seq<u8>
    decreases t,
{
    match t {
        TermV::String(s) => seq![34u8] + s + seq![34u8],
        TermV::Regex(p) => seq![47u8] + p + seq![47u8],
        TermV::Variable(v) => v,
        TermV::Eq(l, r) => spec_print(*l) + seq![32u8, 61u8, 61u8, 32u8] + spec_print(*r),
        TermV::Not(x) => match *x {
            TermV::Eq(l, r) => spec_print(*l) + seq![32u8, 33u8, 61u8, 32u8] + spec_print(*r),
            _ => Seq::empty(),
        },
        TermV::And(l, r) => spec_print(*l) + seq![32u8, 97u8, 110u8, 100u8, 32u8] + spec_print(
            *r,
        ),
        TermV::Or(l, r) => spec_print(*l) + seq![32u8, 111u8, 114u8, 32u8] + spec_print(*r),
        _ => Seq::empty(),
    }
}

/// Append a byte string.
fn push_bytes(out: &mut Vec<u8>, bytes: &[u8])
    ensures
        final(out)@ == old(out)@ + bytes@,
{
    let mut i: usize = 0;
    proof {
        assert(out@ =~= old(out)@ + bytes@.take(0));
    }
    while i < bytes.len()
        invariant
            0 <= i <= bytes@.len(),
            out@ == old(out)@ + bytes@.take(i as int),
        decreases bytes@.len() - i,
    {
        out.push(bytes[i]);
        proof {
            assert(out@ =~= old(out)@ + bytes@.take(i as int + 1));
        }
        i += 1;
    }
    proof {
        assert(bytes@.take(bytes@.len() as int) =~= bytes@);
    }
}

/// Whether a term's printed combinator continuation would stay free.
fn and_safe_exec(t: &Term) -> (r: bool)
    ensures
        r == and_safe(t@),
    decreases t,
{
    match t {
        Term::And(_, r) => and_safe_exec(r),
        Term::Or(_, r) => and_safe_exec(r),
        Term::Eq(_, _) => false,
        Term::Not(_) => false,
        _ => true,
    }
}

/// Whether the right operand of a comparison keeps a printed combinator
/// continuation free.
fn op1_right_safe_exec(t: &Term) -> (r: bool)
    ensures
        r == and_safe(op1_right(t@)),
{
    match t {
        Term::Eq(ll, lr) => {
            proof {
                assert(t@ == TermV::Eq(Box::new(ll@), Box::new(lr@)));
            }
            and_safe_exec(lr)
        },
        Term::Not(x) => {
            match &**x {
                Term::Eq(ll, lr) => {
                    proof {
                        assert((**x)@ == TermV::Eq(Box::new(ll@), Box::new(lr@)));
                        assert(t@ == TermV::Not(Box::new((**x)@)));
                    }
                    and_safe_exec(lr)
                },
                _ => {
                    proof {
                        assert(op1_right(t@) == t@);
                    }
                    false
                },
            }
        },
        _ => and_safe_exec(t),
    }
}

/// Serialize a leaf, if it is in the round-trip class.
fn print_value(t: &Term) -> (r: Option<Vec<u8>>)
    ensures
        (r is Some <==> rt_value(t@)),
        r matches Some(v) ==> v@ == spec_print(t@),
{
    match t {
        Term::String(s) => {
            proof {
                assert(s@.skip(0) =~= s@);
            }
            if matches!(find_from(s.as_slice(), 0, 34), Some(_)) {
                return None;
            }
            let mut out: Vec<u8> = Vec::new();
            out.push(34);
            push_bytes(&mut out, s.as_slice());
            out.push(34);
            proof {
                assert(out@ =~= spec_print(t@));
            }
            Some(out)
        },
        Term::Regex(p) => {
            if p.len() == 0 {
                return None;
            }
            proof {
                assert(p@.skip(0) =~= p@);
            }
            if matches!(find_from(p.as_slice(), 0, 47), Some(_)) {
                return None;
            }
            let mut out: Vec<u8> = Vec::new();
            out.push(47);
            push_bytes(&mut out, p.as_slice());
            out.push(47);
            proof {
                assert(out@ =~= spec_print(t@));
            }
            Some(out)
        },
        Term::Variable(v) => {
            if v.len() == 0 {
                return None;
            }
            let b0 = v[0];
            if !((65 <= b0 && b0 <= 90) || (97 <= b0 && b0 <= 122)) {
                return None;
            }
            proof {
                assert(v@.skip(0) =~= v@);
            }
            if alnum_from(v.as_slice(), 0) != v.len() {
                return None;
            }
            if v.len() >= 3 {
                let l0 = lower8_exec(v[0]);
                let l1 = lower8_exec(v[1]);
                let l2 = lower8_exec(v[2]);
                if (l0 == 105 && l1 == 110 && l2 == 102) || (l0 == 110 && l1 == 97 && l2 == 110) {
                    return None;
                }
            }
            let mut out: Vec<u8> = Vec::new();
            push_bytes(&mut out, v.as_slice());
            proof {
                assert(out@ =~= spec_print(t@));
            }
            Some(out)
        },
        _ => None,
    }
}

/// Serialize a comparison, if it is in the round-trip class.
fn print_op1(t: &Term) -> (r: Option<Vec<u8>>)
    ensures
        (r is Some <==> rt_op1(t@)),
        r matches Some(v) ==> v@ == spec_print(t@),
    decreases t, 1int,
{
    match t {
        Term::Eq(l, rr) => {
            proof {
                assert(t@ == TermV::Eq(Box::new(l@), Box::new(rr@)));
            }
            let lv = match print_value(l) {
                Some(v) => v,
                None => {
                    return None;
                },
            };
            let rv = match print_term(rr) {
                Some(v) => v,
                None => {
                    return None;
                },
            };
            let mut out = lv;
            out.push(32);
            out.push(61);
            out.push(61);
            out.push(32);
            push_bytes(&mut out, rv.as_slice());
            proof {
                assert(out@ =~= spec_print(t@));
            }
            Some(out)
        },
        Term::Not(x) => {
            match &**x {
                Term::Eq(l, rr) => {
                    proof {
                        assert((**x)@ == TermV::Eq(Box::new(l@), Box::new(rr@)));
                        assert(t@ == TermV::Not(Box::new((**x)@)));
                    }
                    let lv = match print_value(l) {
                        Some(v) => v,
                        None => {
                            return None;
                        },
                    };
                    let rv = match print_term(rr) {
                        Some(v) => v,
                        None => {
                            return None;
                        },
                    };
                    let mut out = lv;
                    out.push(32);
                    out.push(33);
                    out.push(61);
                    out.push(32);
                    push_bytes(&mut out, rv.as_slice());
                    proof {
                        assert(out@ =~= spec_print(t@));
                    }
                    Some(out)
                },
                _ => {
                    proof {
                        assert(t@ == TermV::Not(Box::new((**x)@)));
                    }
                    None
                },
            }
        },
        _ => None,
    }
}

/// Serialize a tree of the round-trip class back to formula text;
/// `None` on a tree the grammar cannot express.
pub fn print_term(t: &Term) -> (r: Option<Vec<u8>>)
    ensures
        (r is Some <==> rt_term(t@)),
        r matches Some(v) ==> v@ == spec_print(t@),
    decreases t, 3int,
{
    match t {
        Term::And(l, rr) => {
            proof {
                assert(t@ == TermV::And(Box::new(l@), Box::new(rr@)));
            }
            let lv = match print_op1(l) {
                Some(v) => v,
                None => {
                    return None;
                },
            };
            if !op1_right_safe_exec(l) {
                return None;
            }
            let rv = match print_term(rr) {
                Some(v) => v,
                None => {
                    return None;
                },
            };
            let mut out = lv;
            out.push(32);
            out.push(97);
            out.push(110);
            out.push(100);
            out.push(32);
            push_bytes(&mut out, rv.as_slice());
            proof {
                assert(out@ =~= spec_print(t@));
            }
            Some(out)
        },
        Term::Or(l, rr) => {
            proof {
                assert(t@ == TermV::Or(Box::new(l@), Box::new(rr@)));
            }
            let lv = match print_op1(l) {
                Some(v) => v,
                None => {
                    return None;
                },
            };
            if !op1_right_safe_exec(l) {
                return None;
            }
            let rv = match print_term(rr) {
                Some(v) => v,
                None => {
                    return None;
                },
            };
            let mut out = lv;
            out.push(32);
            out.push(111);
            out.push(114);
            out.push(32);
            push_bytes(&mut out, rv.as_slice());
            proof {
                assert(out@ =~= spec_print(t@));
            }
            Some(out)
        },
        Term::Eq(_, _) => print_op1(t),
        Term::Not(_) => print_op1(t),
        _ => print_value(t),
    }
}

proof fn lemma_find_concat(s: Seq<u8>, b: u8, rest: Seq<u8>)
    requires
        find_byte(s, b) is None,
    ensures
        find_byte(s + seq![b] + rest, b) == Some(s.len() as int),
    decreases s.len(),
{
    let text = s + seq![b] + rest;
    if s.len() == 0 {
        assert(text[0] == b);
    } else {
        assert(text[0] == s[0]);
        assert(text.skip(1) =~= s.skip(1) + seq![b] + rest);
        lemma_find_concat(s.skip(1), b, rest);
    }
}

proof fn lemma_alnum_concat(v: Seq<u8>, rest: Seq<u8>)
    requires
        alnum_len(v) == v.len(),
        rest.len() == 0 || !is_alnum(rest[0]),
    ensures
        alnum_len(v + rest) == v.len(),
    decreases v.len(),
{
    let text = v + rest;
    if v.len() == 0 {
        assert(text =~= rest);
    } else {
        lemma_alnum_bounds(v.skip(1));
        assert(is_alnum(v[0]));
        assert(text[0] == v[0]);
        assert(text.skip(1) =~= v.skip(1) + rest);
        lemma_alnum_concat(v.skip(1), rest);
    }
}

/// Parse-print round trip at the leaf level: a printable leaf prints to
/// a text that the value parse reads back as exactly that leaf and
/// nothing more, whatever follows, provided what follows is empty or
/// begins with a space.
pub proof fn lemma_value_round_trip(t: TermV, rest: Seq<u8>)
    requires
        rt_value(t),
        rest.len() == 0 || rest[0] == 32,
    ensures
        spec_value(spec_print(t) + rest) == Some((t, spec_print(t).len() as int)),
{
    let text = spec_print(t) + rest;
    match t {
        TermV::String(s) => {
            assert(text[0] == 34);
            assert(text.skip(1) =~= s + seq![34u8] + rest);
            lemma_find_concat(s, 34, rest);
            assert(text.skip(1).take(s.len() as int) =~= s);
        },
        TermV::Regex(p) => {
            assert(text[0] == 47);
            assert(text.skip(1) =~= p + seq![47u8] + rest);
            lemma_find_concat(p, 47, rest);
            assert(text.skip(1).take(p.len() as int) =~= p);
        },
        TermV::Variable(v) => {
            assert(text[0] == v[0]);
            assert(spec_regex(text) is None);
            assert(spec_string(text) is None);
            assert forall|i: int| 0 <= i < text.len() && i < 3 implies text[i] == (v + rest)[i] by {}
            if v.len() == 1 && rest.len() > 0 {
                assert(text[1] == 32);
            }
            if v.len() == 2 && rest.len() > 0 {
                assert(text[2] == 32);
            }
            assert(!float_starts(text));
            lemma_alnum_concat(v, rest);
            assert(text.take(v.len() as int) =~= v);
        },
        _ => {},
    }
}


/// What may follow a printed term: nothing, or a boolean-combinator
/// continuation as the printer emits it — a space, then `and` or `or`.
pub open spec fn opcont(rest: Seq<u8>) -> bool {
    rest.len() == 0 || (rest.len() >= 2 && rest[0] == 32 && (rest[1] == 97 || rest[1] == 111))
}

proof fn lemma_ws_two(x: Seq<u8>)
    requires
        x.len() >= 2,
        is_ws(x[0]),
        !is_ws(x[1]),
    ensures
        ws_len(x) == 1,
{
    assert(x.skip(1)[0] == x[1]);
    assert(ws_len(x.skip(1)) == 0);
}

/// The printed text of a round-trip tree begins with a quote, a slash or
/// an identifier byte; never with whitespace or an operator byte.
proof fn lemma_print_head(t: TermV)
    requires
        rt_term(t),
    ensures
        spec_print(t).len() >= 1,
        !is_ws(spec_print(t)[0]),
    decreases t,
{
    match t {
        TermV::String(_) => {},
        TermV::Regex(_) => {},
        TermV::Variable(v) => {
            assert(alnum_len(v) == v.len());
        },
        TermV::Eq(l, r) => {
            lemma_print_head(*l);
            assert(spec_print(t)[0] == spec_print(*l)[0]);
        },
        TermV::Not(x) => {
            match *x {
                TermV::Eq(l, r) => {
                    lemma_print_head(*l);
                    assert(spec_print(t)[0] == spec_print(*l)[0]);
                },
                _ => {},
            }
        },
        TermV::And(l, r) => {
            lemma_print_head(*l);
            assert(spec_print(t)[0] == spec_print(*l)[0]);
        },
        TermV::Or(l, r) => {
            lemma_print_head(*l);
            assert(spec_print(t)[0] == spec_print(*l)[0]);
        },
        _ => {},
    }
}

/// Round trip of a comparison: its printed text followed by an accepted
/// continuation parses as `op1` back to exactly the comparison.
#[verifier::rlimit(100)]
proof fn lemma_op1_round_trip(t: TermV, rest: Seq<u8>)
    requires
        rt_op1(t),
        opcont(rest),
        rest.len() > 0 ==> and_safe(op1_right(t)),
    ensures
        spec_op1(spec_print(t) + rest) == Some((t, spec_print(t).len() as int)),
    decreases t, 1int,
{
    let text = spec_print(t) + rest;
    let (v, tr, sep) = match t {
        TermV::Eq(l, r) => (*l, *r, seq![32u8, 61u8, 61u8, 32u8]),
        TermV::Not(x) => match *x {
            TermV::Eq(l, r) => (*l, *r, seq![32u8, 33u8, 61u8, 32u8]),
            _ => (t, t, Seq::empty()),
        },
        _ => (t, t, Seq::empty()),
    };
    let pv = spec_print(v);
    let ptr = spec_print(tr);
    assert(spec_print(t) =~= pv + sep + ptr);
    let rest_v = sep + ptr + rest;
    assert(text =~= pv + rest_v);
    lemma_value_round_trip(v, rest_v);
    let n1 = pv.len() as int;
    assert(spec_value(text) == Some((v, n1)));
    assert(text.skip(n1) =~= rest_v);
    lemma_print_head(tr);
    lemma_ws_two(rest_v);
    assert(ws_len(text.skip(n1)) == 1);
    assert(text.skip(n1 + 1) =~= sep.skip(1) + ptr + rest);
    assert(text.skip(n1 + 1)[0] == sep[1]);
    assert(text.skip(n1 + 1)[1] == sep[2]);
    let op = spec_operator1(text.skip(n1 + 1));
    assert(op is Some && op->Some_0.1 == 2);
    assert(text.skip(n1 + 3) =~= seq![32u8] + ptr + rest);
    lemma_ws_two(seq![32u8] + ptr + rest);
    assert(ws_len(text.skip(n1 + 3)) == 1);
    let off = n1 + 4;
    assert(text.skip(off) =~= ptr + rest);
    lemma_term_round_trip(tr, rest);
    assert(spec_term(text.skip(off)) == Some((tr, ptr.len() as int)));
}

/// Round trip of a boolean combination: its printed text followed by an
/// accepted continuation parses as `op0` back to exactly the
/// combination.
#[verifier::rlimit(100)]
proof fn lemma_op0_round_trip(t: TermV, rest: Seq<u8>)
    requires
        rt_op0(t),
        opcont(rest),
        rest.len() > 0 ==> and_safe(t),
    ensures
        spec_op0(spec_print(t) + rest) == Some((t, spec_print(t).len() as int)),
    decreases t, 2int,
{
    let text = spec_print(t) + rest;
    let (l, r, sep) = match t {
        TermV::And(l, r) => (*l, *r, seq![32u8, 97u8, 110u8, 100u8, 32u8]),
        TermV::Or(l, r) => (*l, *r, seq![32u8, 111u8, 114u8, 32u8]),
        _ => (t, t, Seq::empty()),
    };
    let pl = spec_print(l);
    let pr = spec_print(r);
    assert(spec_print(t) =~= pl + sep + pr);
    let rest_l = sep + pr + rest;
    assert(text =~= pl + rest_l);
    lemma_op1_round_trip(l, rest_l);
    let n1 = pl.len() as int;
    assert(spec_op1(text) == Some((l, n1)));
    assert(text.skip(n1) =~= rest_l);
    lemma_print_head(r);
    lemma_ws_two(rest_l);
    assert(ws_len(text.skip(n1)) == 1);
    assert(text.skip(n1 + 1) =~= sep.skip(1) + pr + rest);
    let after = text.skip(n1 + 1);
    assert forall|k: int| 0 <= k < sep.len() - 1 implies after[k] == sep[k + 1] by {}
    let op = spec_operator0(after);
    let n2 = op->Some_0.1;
    assert(op is Some && n2 == sep.len() - 2);
    assert(text.skip(n1 + 1 + n2) =~= seq![32u8] + pr + rest);
    lemma_ws_two(seq![32u8] + pr + rest);
    assert(ws_len(text.skip(n1 + 1 + n2)) == 1);
    let off = n1 + 2 + n2;
    assert(text.skip(off) =~= pr + rest);
    lemma_term_round_trip(r, rest);
    assert(spec_term(text.skip(off)) == Some((r, pr.len() as int)));
}

/// Round trip of a whole term: its printed text followed by an accepted
/// continuation parses back to exactly the tree, consuming exactly the
/// printed text.
#[verifier::rlimit(100)]
proof fn lemma_term_round_trip(t: TermV, rest: Seq<u8>)
    requires
        rt_term(t),
        opcont(rest),
        rest.len() > 0 ==> and_safe(t),
    ensures
        spec_term(spec_print(t) + rest) == Some((t, spec_print(t).len() as int)),
    decreases t, 3int,
{
    let text = spec_print(t) + rest;
    if rt_op0(t) {
        lemma_op0_round_trip(t, rest);
    } else if rt_op1(t) {
        lemma_op1_round_trip(t, Seq::empty());
        assert(spec_print(t) + Seq::<u8>::empty() =~= spec_print(t));
        assert(rest =~= Seq::<u8>::empty());
        assert(text =~= spec_print(t));
        let n = spec_print(t).len() as int;
        assert(spec_op1(text) == Some((t, n)));
        assert(text.skip(n) =~= Seq::<u8>::empty());
        assert(ws_len(text.skip(n)) == 0);
        assert(spec_operator0(text.skip(n)) is None);
        assert(spec_op0(text) is None);
    } else {
        lemma_value_round_trip(t, rest);
        let n1 = spec_print(t).len() as int;
        assert(spec_value(text) == Some((t, n1)));
        assert(text.skip(n1) =~= rest);
        if rest.len() == 0 {
            assert(ws_len(rest) == 0);
            assert(spec_operator1(text.skip(n1)) is None);
        } else {
            lemma_ws_two(rest);
            assert(ws_len(text.skip(n1)) == 1);
            assert(text.skip(n1 + 1) =~= rest.skip(1));
            assert(rest.skip(1)[0] == rest[1]);
            assert(spec_operator1(text.skip(n1 + 1)) is None);
        }
        assert(spec_op1(text) is None);
        assert(spec_op0(text) is None);
    }
}

/// Parse-print round trip: for every tree of the round-trip class, the
/// printed text parses back to exactly that tree, consuming the whole
/// text. A `!=` printed from `Not(Eq(..))` reads back as `Not(Eq(..))`.
pub proof fn lemma_print_parse_round_trip(t: TermV)
    requires
        rt_term(t),
    ensures
        spec_term(spec_print(t)) == Some((t, spec_print(t).len() as int)),
{
    lemma_term_round_trip(t, Seq::empty());
    assert(spec_print(t) + Seq::<u8>::empty() =~= spec_print(t));
}

} // verus!
