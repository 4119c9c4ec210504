//! The value runtime: a pool of typed value slots owned by a state,
//! typed-value construction (integer, float, string, regex) and the
//! boolean / comparison primitives that evaluation composes.
//!
//! In the bytecode module's ABI these primitives appear as
//! `make_state`, `make_i64`, `make_f64`, `make_string`, `make_regex`,
//! `rtl_and`, `rtl_or`, `rtl_not`, `rtl_eq` and `rtl_get_bool`; here the
//! boolean and comparison primitives are exposed over values
//! (`val_and` and friends) and the constructors over slots.
//!
//! Floats are carried as IEEE-754 bit patterns; their equality is decided
//! on the bits (NaN is equal to nothing, the two zeroes are equal).

use vstd::prelude::*;
use vstd::std_specs::vec::spec_vec_len;

verus! {

/// A dynamically typed runtime value held in a slot.
pub enum Value {
    /// The slot has not been written yet.
    Missing,
    I64(i64),
    /// IEEE-754 bit pattern of an `f64`.
    F64(u64),
    Str(Vec<u8>),
    Regex(Vec<u8>),
    Bool(bool),
}

/// The mathematical model of a [`Value`].
pub enum ValueV {
    Missing,
    I64(i64),
    F64(u64),
    Str(Seq<u8>),
    Regex(Seq<u8>),
    Bool(bool),
}

impl View for Value {
    type V = ValueV;

    open spec fn view(&self) -> ValueV {
        match *self {
            Value::Missing => ValueV::Missing,
            Value::I64(x) => ValueV::I64(x),
            Value::F64(x) => ValueV::F64(x),
            Value::Str(ref x) => ValueV::Str(x@),
            Value::Regex(ref x) => ValueV::Regex(x@),
            Value::Bool(x) => ValueV::Bool(x),
        }
    }
}

/// Whether a regular-expression pattern compiles; the result of
/// `regex::bytes::Regex::new` on it being `Ok`.
pub uninterp spec fn regex_ok(pat: Seq<u8>) -> bool;

/// Whether a compiled pattern matches somewhere in a text; the result of
/// `regex::bytes::Regex::is_match`.
pub uninterp spec fn regex_match(pat: Seq<u8>, text: Seq<u8>) -> bool;

/// Relies on `regex::bytes::Regex::new`: whether a pattern compiles
/// depends on the pattern bytes alone. A pattern that is not valid UTF-8
/// does not compile.
#[verifier::external_body]
fn regex_compiles(pat: &[u8]) -> (r: bool)
    ensures
        r == regex_ok(pat@),
{
    match core::str::from_utf8(pat) {
        Ok(p) => regex::bytes::Regex::new(p).is_ok(),
        Err(_) => false,
    }
}

/// Relies on `regex::bytes::Regex::new` and `regex::bytes::Regex::is_match`:
/// whether a pattern matches somewhere in a text depends on the pattern and
/// the text alone.
#[verifier::external_body]
fn regex_is_match(pat: &[u8], text: &[u8]) -> (r: bool)
    requires
        regex_ok(pat@),
    ensures
        r == regex_match(pat@, text@),
{
    match core::str::from_utf8(pat) {
        Ok(p) => match regex::bytes::Regex::new(p) {
            Ok(re) => re.is_match(text),
            Err(_) => false,
        },
        Err(_) => false,
    }
}

/// The exponent bits of an IEEE-754 double are all ones and the mantissa
/// is not zero: the bit pattern encodes a NaN.
pub open spec fn f64_is_nan(b: u64) -> bool {
    (b >> 52) & 0x7ff == 0x7ff && b & 0xf_ffff_ffff_ffff != 0
}

/// The bit pattern encodes a zero (of either sign).
pub open spec fn f64_is_zero(b: u64) -> bool {
    b & 0x7fff_ffff_ffff_ffff == 0
}

/// IEEE-754 equality on bit patterns: NaN is equal to nothing, the two
/// zeroes are equal to each other, and otherwise the patterns must agree.
pub open spec fn f64_eq_bits(a: u64, b: u64) -> bool {
    !f64_is_nan(a) && !f64_is_nan(b) && (a == b || (f64_is_zero(a) && f64_is_zero(b)))
}

/// Boolean extraction from a value: a boolean yields itself, numbers are
/// true when nonzero, and textual or missing values are false.
pub open spec fn spec_truth(v: ValueV) -> bool {
    match v {
        ValueV::Bool(b) => b,
        ValueV::I64(i) => i != 0,
        ValueV::F64(b) => !f64_is_zero(b),
        _ => false,
    }
}

/// A value is well formed when any pattern it holds compiles.
pub open spec fn value_ok(v: ValueV) -> bool {
    match v {
        ValueV::Regex(p) => regex_ok(p),
        _ => true,
    }
}

/// Polymorphic equality over values: integers with integers, floats with
/// floats (on the bits), strings with strings, a string against a regex is
/// a regex match, booleans with booleans; every other pairing is a type
/// mismatch and compares unequal.
pub open spec fn spec_eq_val(a: ValueV, b: ValueV) -> bool {
    match (a, b) {
        (ValueV::I64(x), ValueV::I64(y)) => x == y,
        (ValueV::F64(x), ValueV::F64(y)) => f64_eq_bits(x, y),
        (ValueV::Str(x), ValueV::Str(y)) => x == y,
        (ValueV::Str(t), ValueV::Regex(p)) => regex_match(p, t),
        (ValueV::Regex(p), ValueV::Str(t)) => regex_match(p, t),
        (ValueV::Bool(x), ValueV::Bool(y)) => x == y,
        _ => false,
    }
}

/// A live evaluation state: the dense, index-addressable table of value
/// slots. The table capacity is fixed at creation.
pub struct RtState {
    slots: Vec<Value>,
}

impl View for RtState {
    type V = Seq<ValueV>;

    closed spec fn view(&self) -> Seq<ValueV> {
        self.slots@.map_values(|v: Value| v@)
    }
}

/// Every slot of the state holds a well-formed value.
pub open spec fn state_inv(s: Seq<ValueV>) -> bool {
    forall|i: int| 0 <= i < s.len() ==> value_ok(#[trigger] s[i])
}

impl RtState {
    /// Allocate a state with `cap` slots, all unset.
    pub fn make_state(cap: usize) -> (s: RtState)
        ensures
            s@.len() == cap,
            forall|i: int| 0 <= i < cap ==> #[trigger] s@[i] == ValueV::Missing,
            state_inv(s@),
    {
        let mut slots: Vec<Value> = Vec::new();
        let mut i: usize = 0;
        while i < cap
            invariant
                0 <= i <= cap,
                slots@.len() == i,
                forall|j: int| 0 <= j < i ==> slots@[j] == Value::Missing,
            decreases cap - i,
        {
            slots.push(Value::Missing);
            i += 1;
        }
        let s = RtState { slots };
        proof {
            assert(forall|i: int|
                0 <= i < cap ==> #[trigger] s@[i] == Value::Missing@);
        }
        s
    }

    /// Write an integer value to a slot; no other slot changes.
    pub fn make_i64(&mut self, slot: usize, v: i64)
        requires
            slot < old(self)@.len(),
        ensures
            final(self)@ == old(self)@.update(slot as int, ValueV::I64(v)),
    {
        self.slots.set(slot, Value::I64(v));
        proof {
            assert(self@ =~= old(self)@.update(slot as int, ValueV::I64(v)));
        }
    }

    /// Write a float value (given as its bit pattern) to a slot; no other
    /// slot changes.
    pub fn make_f64(&mut self, slot: usize, bits: u64)
        requires
            slot < old(self)@.len(),
        ensures
            final(self)@ == old(self)@.update(slot as int, ValueV::F64(bits)),
    {
        self.slots.set(slot, Value::F64(bits));
        proof {
            assert(self@ =~= old(self)@.update(slot as int, ValueV::F64(bits)));
        }
    }

    /// Write a string value to a slot; no other slot changes.
    pub fn make_string(&mut self, slot: usize, bytes: Vec<u8>)
        requires
            slot < old(self)@.len(),
        ensures
            final(self)@ == old(self)@.update(slot as int, ValueV::Str(bytes@)),
    {
        let ghost b = bytes@;
        self.slots.set(slot, Value::Str(bytes));
        proof {
            assert(self@ =~= old(self)@.update(slot as int, ValueV::Str(b)));
        }
    }

    /// Compile and store a regex pattern in a slot. A pattern that does
    /// not compile is rejected and the state is unchanged.
    pub fn make_regex(&mut self, slot: usize, pat: Vec<u8>) -> (r: Result<(), ()>)
        requires
            slot < old(self)@.len(),
        ensures
            r is Ok <==> regex_ok(pat@),
            r is Ok ==> final(self)@ == old(self)@.update(slot as int, ValueV::Regex(pat@)),
            r is Err ==> final(self)@ == old(self)@,
    {
        if regex_compiles(pat.as_slice()) {
            let ghost p = pat@;
            self.slots.set(slot, Value::Regex(pat));
            proof {
                assert(self@ =~= old(self)@.update(slot as int, ValueV::Regex(p)));
            }
            Ok(())
        } else {
            Err(())
        }
    }

    /// The slot table is no longer than the address space allows.
    pub proof fn lemma_len_bound(&self)
        ensures
            self@.len() <= usize::MAX,
    {
        broadcast use vstd::std_specs::vec::axiom_spec_len;

        assert(spec_vec_len(&self.slots) == self.slots@.len());
        assert(self@.len() == self.slots@.len());
    }

    /// Read a copy of a slot's value.
    pub fn get_slot(&self, slot: usize) -> (v: Value)
        requires
            slot < self@.len(),
        ensures
            v@ == self@[slot as int],
    {
        copy_value(&self.slots[slot])
    }

    /// A deep copy of the state; the copy's model equals the original's.
    pub fn duplicate(&self) -> (r: RtState)
        ensures
            r@ == self@,
    {
        let mut slots: Vec<Value> = Vec::new();
        let mut i: usize = 0;
        while i < self.slots.len()
            invariant
                0 <= i <= self.slots@.len(),
                slots@.len() == i,
                forall|j: int| 0 <= j < i ==> #[trigger] slots@[j]@ == self.slots@[j]@,
            decreases self.slots@.len() - i,
        {
            slots.push(copy_value(&self.slots[i]));
            i += 1;
        }
        let r = RtState { slots };
        proof {
            assert(r@ =~= self@);
        }
        r
    }
}

/// A copy of a value; the copy's model equals the original's.
pub fn copy_value(v: &Value) -> (r: Value)
    ensures
        r@ == v@,
{
    match v {
        Value::Missing => Value::Missing,
        Value::I64(x) => Value::I64(*x),
        Value::F64(x) => Value::F64(*x),
        Value::Str(x) => Value::Str(crate::term::copy_bytes(x)),
        Value::Regex(x) => Value::Regex(crate::term::copy_bytes(x)),
        Value::Bool(x) => Value::Bool(*x),
    }
}

/// Boolean extraction, `rtl_get_bool` of the runtime ABI.
pub fn val_truth(v: &Value) -> (r: bool)
    ensures
        r == spec_truth(v@),
{
    match v {
        Value::Bool(b) => *b,
        Value::I64(i) => *i != 0,
        Value::F64(b) => *b & 0x7fff_ffff_ffff_ffff != 0,
        _ => false,
    }
}

/// Logical conjunction over values, `rtl_and` of the runtime ABI. Both
/// operands are taken; there is no short-circuiting to take.
pub fn val_and(a: &Value, b: &Value) -> (r: Value)
    ensures
        r@ == ValueV::Bool(spec_truth(a@) && spec_truth(b@)),
{
    let ta = val_truth(a);
    let tb = val_truth(b);
    Value::Bool(ta && tb)
}

/// Logical disjunction over values, `rtl_or` of the runtime ABI.
pub fn val_or(a: &Value, b: &Value) -> (r: Value)
    ensures
        r@ == ValueV::Bool(spec_truth(a@) || spec_truth(b@)),
{
    let ta = val_truth(a);
    let tb = val_truth(b);
    Value::Bool(ta || tb)
}

/// Logical negation over values, `rtl_not` of the runtime ABI.
pub fn val_not(a: &Value) -> (r: Value)
    ensures
        r@ == ValueV::Bool(!spec_truth(a@)),
{
    let ta = val_truth(a);
    Value::Bool(!ta)
}

/// Polymorphic equality over values, `rtl_eq` of the runtime ABI.
pub fn val_eq(a: &Value, b: &Value) -> (r: Value)
    requires
        value_ok(a@),
        value_ok(b@),
    ensures
        r@ == ValueV::Bool(spec_eq_val(a@, b@)),
{
    let r = match (a, b) {
        (Value::I64(x), Value::I64(y)) => *x == *y,
        (Value::F64(x), Value::F64(y)) => f64_eq_exec(*x, *y),
        (Value::Str(x), Value::Str(y)) => crate::term::bytes_eq(x, y),
        (Value::Str(t), Value::Regex(p)) => regex_is_match(p.as_slice(), t.as_slice()),
        (Value::Regex(p), Value::Str(t)) => regex_is_match(p.as_slice(), t.as_slice()),
        (Value::Bool(x), Value::Bool(y)) => *x == *y,
        _ => false,
    };
    Value::Bool(r)
}

/// IEEE-754 equality decided on the bit patterns.
pub fn f64_eq_exec(a: u64, b: u64) -> (r: bool)
    ensures
        r == f64_eq_bits(a, b),
{
    let nan_a = (a >> 52) & 0x7ff == 0x7ff && a & 0xf_ffff_ffff_ffff != 0;
    let nan_b = (b >> 52) & 0x7ff == 0x7ff && b & 0xf_ffff_ffff_ffff != 0;
    let zero_a = a & 0x7fff_ffff_ffff_ffff == 0;
    let zero_b = b & 0x7fff_ffff_ffff_ffff == 0;
    !nan_a && !nan_b && (a == b || (zero_a && zero_b))
}

} // verus!
