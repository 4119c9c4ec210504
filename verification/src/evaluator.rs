//! The host side of the engine: compilation contexts, compiled formulas,
//! instances and variables.
//!
//! `Context::compile` runs the loader generator, the evaluator generator
//! and the one-time load, producing a [`CompiledTerm`]; the compiled
//! term instantiates into an [`InstantiatedTerm`] whose `run` evaluates
//! the formula against the current slot table, and whose variables are
//! bound through [`Variable`] handles in constant slots.

use vstd::prelude::*;

use crate::RESERVED_SLOTS;
use crate::codegen::{
    CompileError, Instr, FUN_FREE_STATE, FUN_MAKE_STATE, FUN_RTL_AND, FUN_RTL_GET_BOOL,
    FUN_RTL_OR, IDX_STATE, eval_gen_ok, exec_lookup_var, has_long_literal, has_undef_var,
    int_build_loader, int_compile, lemma_lower_ctr_monotone, lookup_var, spec_eval_code,
    spec_lower, vars_view,
};
use crate::runtime::{
    RtState, Value, ValueV, regex_ok, spec_eq_val, spec_truth, state_inv, value_ok,
};
use crate::term::{Term, TermV, copy_bytes, copy_term, has_cmp_op, loaded_wf, user_term};
use vstd::string::StringSliceAdditionalSpecFns;

verus! {

/// The denotation of a lowered term against a slot table: a leaf reads
/// its slot, the operators compose through the runtime primitives.
pub open spec fn denote(t: TermV, slots: Seq<ValueV>) -> ValueV
    decreases t,
{
    match t {
        TermV::LoadedTerm(i) => slots[i as int],
        TermV::Not(x) => ValueV::Bool(!spec_truth(denote(*x, slots))),
        TermV::And(l, r) => ValueV::Bool(
            spec_truth(denote(*l, slots)) && spec_truth(denote(*r, slots)),
        ),
        TermV::Or(l, r) => ValueV::Bool(
            spec_truth(denote(*l, slots)) || spec_truth(denote(*r, slots)),
        ),
        TermV::Eq(l, r) => ValueV::Bool(spec_eq_val(denote(*l, slots), denote(*r, slots))),
        _ => ValueV::Missing,
    }
}

/// The denotation of a well-formed lowered term is itself well formed.
pub proof fn lemma_denote_ok(t: TermV, slots: Seq<ValueV>)
    requires
        loaded_wf(t, slots.len() as int),
        state_inv(slots),
    ensures
        value_ok(denote(t, slots)),
    decreases t,
{
    match t {
        TermV::Not(x) => lemma_denote_ok(*x, slots),
        TermV::And(l, r) => {
            lemma_denote_ok(*l, slots);
            lemma_denote_ok(*r, slots);
        },
        TermV::Or(l, r) => {
            lemma_denote_ok(*l, slots);
            lemma_denote_ok(*r, slots);
        },
        TermV::Eq(l, r) => {
            lemma_denote_ok(*l, slots);
            lemma_denote_ok(*r, slots);
        },
        _ => {},
    }
}

/// Evaluate a lowered term against a state.
fn eval_node(t: &Term, st: &RtState) -> (v: Value)
    requires
        loaded_wf(t@, st@.len() as int),
        state_inv(st@),
    ensures
        v@ == denote(t@, st@),
    decreases t,
{
    match t {
        Term::LoadedTerm(i) => {
            proof {
                st.lemma_len_bound();
            }
            st.get_slot(*i as usize)
        },
        Term::Not(x) => {
            let vx = eval_node(x, st);
            crate::runtime::val_not(&vx)
        },
        Term::And(l, r) => {
            let vl = eval_node(l, st);
            let vr = eval_node(r, st);
            crate::runtime::val_and(&vl, &vr)
        },
        Term::Or(l, r) => {
            let vl = eval_node(l, st);
            let vr = eval_node(r, st);
            crate::runtime::val_or(&vl, &vr)
        },
        Term::Eq(l, r) => {
            let vl = eval_node(l, st);
            let vr = eval_node(r, st);
            proof {
                lemma_denote_ok(l@, st@);
                lemma_denote_ok(r@, st@);
            }
            crate::runtime::val_eq(&vl, &vr)
        },
        _ => {
            proof {
                assert(false);
            }
            Value::Missing
        },
    }
}

/// True when every regex literal of the term compiles.
pub open spec fn regexes_ok(t: TermV) -> bool
    decreases t,
{
    match t {
        TermV::Regex(p) => regex_ok(p),
        TermV::Not(x) => regexes_ok(*x),
        TermV::Eq(l, r) => regexes_ok(*l) && regexes_ok(*r),
        TermV::Or(l, r) => regexes_ok(*l) && regexes_ok(*r),
        TermV::And(l, r) => regexes_ok(*l) && regexes_ok(*r),
        TermV::Lt(l, r) => regexes_ok(*l) && regexes_ok(*r),
        TermV::Le(l, r) => regexes_ok(*l) && regexes_ok(*r),
        TermV::Gt(l, r) => regexes_ok(*l) && regexes_ok(*r),
        TermV::Ge(l, r) => regexes_ok(*l) && regexes_ok(*r),
        _ => true,
    }
}

/// The slot table after the one-time load of a user tree: every literal
/// leaf's value is written to the slot the loader assigned to it, in the
/// same post-order, from the same counter.
pub open spec fn load_env(t: TermV, ctr: int, slots: Seq<ValueV>) -> (int, Seq<ValueV>)
    decreases t,
{
    match t {
        TermV::Int(v) => (ctr + 1, slots.update(ctr, ValueV::I64(v))),
        TermV::Float(b) => (ctr + 1, slots.update(ctr, ValueV::F64(b))),
        TermV::String(s) => (ctr + 1, slots.update(ctr, ValueV::Str(s))),
        TermV::Regex(p) => (ctr + 1, slots.update(ctr, ValueV::Regex(p))),
        TermV::Not(x) => load_env(*x, ctr, slots),
        TermV::Eq(l, r) => {
            let (c2, s2) = load_env(*l, ctr, slots);
            load_env(*r, c2, s2)
        },
        TermV::Or(l, r) => {
            let (c2, s2) = load_env(*l, ctr, slots);
            load_env(*r, c2, s2)
        },
        TermV::And(l, r) => {
            let (c2, s2) = load_env(*l, ctr, slots);
            load_env(*r, c2, s2)
        },
        TermV::Lt(l, r) => {
            let (c2, s2) = load_env(*l, ctr, slots);
            load_env(*r, c2, s2)
        },
        TermV::Le(l, r) => {
            let (c2, s2) = load_env(*l, ctr, slots);
            load_env(*r, c2, s2)
        },
        TermV::Gt(l, r) => {
            let (c2, s2) = load_env(*l, ctr, slots);
            load_env(*r, c2, s2)
        },
        TermV::Ge(l, r) => {
            let (c2, s2) = load_env(*l, ctr, slots);
            load_env(*r, c2, s2)
        },
        _ => (ctr, slots),
    }
}

/// Loading advances the slot counter exactly as lowering does, whatever
/// the variable table and the initial slots.
pub proof fn lemma_env_ctr(t: TermV, ctr: int, slots: Seq<ValueV>, vars: Seq<(Seq<u8>, i64)>)
    ensures
        load_env(t, ctr, slots).0 == spec_lower(t, ctr, vars).1,
    decreases t,
{
    match t {
        TermV::Not(x) => lemma_env_ctr(*x, ctr, slots, vars),
        TermV::Eq(l, r) => {
            lemma_env_ctr(*l, ctr, slots, vars);
            let (c2, s2) = load_env(*l, ctr, slots);
            lemma_env_ctr(*r, c2, s2, vars);
        },
        TermV::Or(l, r) => {
            lemma_env_ctr(*l, ctr, slots, vars);
            let (c2, s2) = load_env(*l, ctr, slots);
            lemma_env_ctr(*r, c2, s2, vars);
        },
        TermV::And(l, r) => {
            lemma_env_ctr(*l, ctr, slots, vars);
            let (c2, s2) = load_env(*l, ctr, slots);
            lemma_env_ctr(*r, c2, s2, vars);
        },
        TermV::Lt(l, r) => {
            lemma_env_ctr(*l, ctr, slots, vars);
            let (c2, s2) = load_env(*l, ctr, slots);
            lemma_env_ctr(*r, c2, s2, vars);
        },
        TermV::Le(l, r) => {
            lemma_env_ctr(*l, ctr, slots, vars);
            let (c2, s2) = load_env(*l, ctr, slots);
            lemma_env_ctr(*r, c2, s2, vars);
        },
        TermV::Gt(l, r) => {
            lemma_env_ctr(*l, ctr, slots, vars);
            let (c2, s2) = load_env(*l, ctr, slots);
            lemma_env_ctr(*r, c2, s2, vars);
        },
        TermV::Ge(l, r) => {
            lemma_env_ctr(*l, ctr, slots, vars);
            let (c2, s2) = load_env(*l, ctr, slots);
            lemma_env_ctr(*r, c2, s2, vars);
        },
        _ => {},
    }
}

/// Loading writes only slots below the final counter, so it preserves
/// the table's length.
pub proof fn lemma_env_len(t: TermV, ctr: int, slots: Seq<ValueV>)
    requires
        0 <= ctr,
        load_env(t, ctr, slots).0 <= slots.len(),
    ensures
        load_env(t, ctr, slots).1.len() == slots.len(),
        load_env(t, ctr, slots).0 >= ctr,
    decreases t,
{
    lemma_env_ctr(t, ctr, slots, Seq::empty());
    lemma_lower_ctr_monotone(t, ctr, Seq::empty());
    match t {
        TermV::Not(x) => lemma_env_len(*x, ctr, slots),
        TermV::Eq(l, r) => {
            let (c2, s2) = load_env(*l, ctr, slots);
            lemma_env_ctr(*l, ctr, slots, Seq::empty());
            lemma_env_ctr(*r, c2, s2, Seq::empty());
            lemma_lower_ctr_monotone(*r, c2, Seq::empty());
            lemma_env_len(*l, ctr, slots);
            lemma_env_len(*r, c2, s2);
        },
        TermV::Or(l, r) => {
            let (c2, s2) = load_env(*l, ctr, slots);
            lemma_env_ctr(*l, ctr, slots, Seq::empty());
            lemma_env_ctr(*r, c2, s2, Seq::empty());
            lemma_lower_ctr_monotone(*r, c2, Seq::empty());
            lemma_env_len(*l, ctr, slots);
            lemma_env_len(*r, c2, s2);
        },
        TermV::And(l, r) => {
            let (c2, s2) = load_env(*l, ctr, slots);
            lemma_env_ctr(*l, ctr, slots, Seq::empty());
            lemma_env_ctr(*r, c2, s2, Seq::empty());
            lemma_lower_ctr_monotone(*r, c2, Seq::empty());
            lemma_env_len(*l, ctr, slots);
            lemma_env_len(*r, c2, s2);
        },
        TermV::Lt(l, r) => {
            let (c2, s2) = load_env(*l, ctr, slots);
            lemma_env_ctr(*l, ctr, slots, Seq::empty());
            lemma_env_ctr(*r, c2, s2, Seq::empty());
            lemma_lower_ctr_monotone(*r, c2, Seq::empty());
            lemma_env_len(*l, ctr, slots);
            lemma_env_len(*r, c2, s2);
        },
        TermV::Le(l, r) => {
            let (c2, s2) = load_env(*l, ctr, slots);
            lemma_env_ctr(*l, ctr, slots, Seq::empty());
            lemma_env_ctr(*r, c2, s2, Seq::empty());
            lemma_lower_ctr_monotone(*r, c2, Seq::empty());
            lemma_env_len(*l, ctr, slots);
            lemma_env_len(*r, c2, s2);
        },
        TermV::Gt(l, r) => {
            let (c2, s2) = load_env(*l, ctr, slots);
            lemma_env_ctr(*l, ctr, slots, Seq::empty());
            lemma_env_ctr(*r, c2, s2, Seq::empty());
            lemma_lower_ctr_monotone(*r, c2, Seq::empty());
            lemma_env_len(*l, ctr, slots);
            lemma_env_len(*r, c2, s2);
        },
        TermV::Ge(l, r) => {
            let (c2, s2) = load_env(*l, ctr, slots);
            lemma_env_ctr(*l, ctr, slots, Seq::empty());
            lemma_env_ctr(*r, c2, s2, Seq::empty());
            lemma_lower_ctr_monotone(*r, c2, Seq::empty());
            lemma_env_len(*l, ctr, slots);
            lemma_env_len(*r, c2, s2);
        },
        _ => {},
    }
}

/// The one-time load: write every literal of the user tree into the slot
/// the loader assigned to it. Fails, and only fails, on a regex literal
/// that does not compile.
fn materialize(t: &Term, ctr: &mut i64, st: &mut RtState) -> (r: Result<(), CompileError>)
    requires
        0 <= *old(ctr),
        load_env(t@, *old(ctr) as int, old(st)@).0 <= old(st)@.len(),
        old(st)@.len() <= 0x7fff_ffff,
        state_inv(old(st)@),
    ensures
        (r is Ok <==> regexes_ok(t@)),
        r is Ok ==> {
            let (c2, s2) = load_env(t@, *old(ctr) as int, old(st)@);
            &&& *final(ctr) == c2
            &&& final(st)@ == s2
            &&& state_inv(final(st)@)
        },
        r matches Err(e) ==> e == CompileError::RegexError,
        final(st)@.len() == old(st)@.len(),
        *final(ctr) >= *old(ctr),
    decreases t,
{
    proof {
        lemma_env_ctr(t@, *old(ctr) as int, old(st)@, Seq::empty());
        lemma_lower_ctr_monotone(t@, *old(ctr) as int, Seq::empty());
        lemma_env_len(t@, *old(ctr) as int, old(st)@);
    }
    match t {
        Term::Int(v) => {
            st.make_i64(*ctr as usize, *v);
            *ctr = *ctr + 1;
            Ok(())
        },
        Term::Float(b) => {
            st.make_f64(*ctr as usize, *b);
            *ctr = *ctr + 1;
            Ok(())
        },
        Term::String(s) => {
            st.make_string(*ctr as usize, copy_bytes(s));
            *ctr = *ctr + 1;
            Ok(())
        },
        Term::Regex(p) => {
            match st.make_regex(*ctr as usize, copy_bytes(p)) {
                Ok(_) => {
                    *ctr = *ctr + 1;
                    Ok(())
                },
                Err(_) => Err(CompileError::RegexError),
            }
        },
        Term::Not(x) => materialize(x, ctr, st),
        Term::Eq(l, r) => {
            proof {
                let c0 = *old(ctr) as int;
                lemma_env_ctr(l@, c0, old(st)@, Seq::empty());
                let (c2, s2) = load_env(l@, c0, old(st)@);
                lemma_env_ctr(r@, c2, s2, Seq::empty());
                lemma_lower_ctr_monotone(r@, c2, Seq::empty());
                lemma_env_len(l@, c0, old(st)@);
                lemma_env_len(r@, c2, s2);
            }
            materialize(l, ctr, st)?;
            materialize(r, ctr, st)
        },
        Term::Or(l, r) => {
            proof {
                let c0 = *old(ctr) as int;
                lemma_env_ctr(l@, c0, old(st)@, Seq::empty());
                let (c2, s2) = load_env(l@, c0, old(st)@);
                lemma_env_ctr(r@, c2, s2, Seq::empty());
                lemma_lower_ctr_monotone(r@, c2, Seq::empty());
                lemma_env_len(l@, c0, old(st)@);
                lemma_env_len(r@, c2, s2);
            }
            materialize(l, ctr, st)?;
            materialize(r, ctr, st)
        },
        Term::And(l, r) => {
            proof {
                let c0 = *old(ctr) as int;
                lemma_env_ctr(l@, c0, old(st)@, Seq::empty());
                let (c2, s2) = load_env(l@, c0, old(st)@);
                lemma_env_ctr(r@, c2, s2, Seq::empty());
                lemma_lower_ctr_monotone(r@, c2, Seq::empty());
                lemma_env_len(l@, c0, old(st)@);
                lemma_env_len(r@, c2, s2);
            }
            materialize(l, ctr, st)?;
            materialize(r, ctr, st)
        },
        Term::Lt(l, r) => {
            proof {
                let c0 = *old(ctr) as int;
                lemma_env_ctr(l@, c0, old(st)@, Seq::empty());
                let (c2, s2) = load_env(l@, c0, old(st)@);
                lemma_env_ctr(r@, c2, s2, Seq::empty());
                lemma_lower_ctr_monotone(r@, c2, Seq::empty());
                lemma_env_len(l@, c0, old(st)@);
                lemma_env_len(r@, c2, s2);
            }
            materialize(l, ctr, st)?;
            materialize(r, ctr, st)
        },
        Term::Le(l, r) => {
            proof {
                let c0 = *old(ctr) as int;
                lemma_env_ctr(l@, c0, old(st)@, Seq::empty());
                let (c2, s2) = load_env(l@, c0, old(st)@);
                lemma_env_ctr(r@, c2, s2, Seq::empty());
                lemma_lower_ctr_monotone(r@, c2, Seq::empty());
                lemma_env_len(l@, c0, old(st)@);
                lemma_env_len(r@, c2, s2);
            }
            materialize(l, ctr, st)?;
            materialize(r, ctr, st)
        },
        Term::Gt(l, r) => {
            proof {
                let c0 = *old(ctr) as int;
                lemma_env_ctr(l@, c0, old(st)@, Seq::empty());
                let (c2, s2) = load_env(l@, c0, old(st)@);
                lemma_env_ctr(r@, c2, s2, Seq::empty());
                lemma_lower_ctr_monotone(r@, c2, Seq::empty());
                lemma_env_len(l@, c0, old(st)@);
                lemma_env_len(r@, c2, s2);
            }
            materialize(l, ctr, st)?;
            materialize(r, ctr, st)
        },
        Term::Ge(l, r) => {
            proof {
                let c0 = *old(ctr) as int;
                lemma_env_ctr(l@, c0, old(st)@, Seq::empty());
                let (c2, s2) = load_env(l@, c0, old(st)@);
                lemma_env_ctr(r@, c2, s2, Seq::empty());
                lemma_lower_ctr_monotone(r@, c2, Seq::empty());
                lemma_env_len(l@, c0, old(st)@);
                lemma_env_len(r@, c2, s2);
            }
            materialize(l, ctr, st)?;
            materialize(r, ctr, st)
        },
        _ => Ok(()),
    }
}

/// A compilation context: the variable table mapping names to their
/// stable slot indices, the next free slot counter, and the reserved
/// slot budget. Variables defined in a context are visible to every
/// formula it compiles and share slot indices across those formulas.
pub struct Context {
    variables: Vec<(Vec<u8>, i64)>,
    locals: i64,
    reserved_slots: i64,
}

/// The variable tables carry pairwise distinct slot indices.
pub open spec fn distinct_slots(vars: Seq<(Seq<u8>, i64)>) -> bool {
    forall|i: int, j: int|
        0 <= i < j < vars.len() ==> (#[trigger] vars[i]).1 != (#[trigger] vars[j]).1
}

/// A name bound in the table is bound to the slot of one of its entries.
pub proof fn lemma_lookup_found(vars: Seq<(Seq<u8>, i64)>, name: Seq<u8>)
    requires
        lookup_var(vars, name) is Some,
    ensures
        exists|k: int|
            0 <= k < vars.len() && (#[trigger] vars[k]) == (name, lookup_var(vars, name)->Some_0),
    decreases vars.len(),
{
    if vars.len() > 0 {
        if vars.last().0 == name {
            assert(vars[vars.len() - 1] == (name, lookup_var(vars, name)->Some_0));
        } else {
            lemma_lookup_found(vars.drop_last(), name);
            let k = choose|k: int|
                0 <= k < vars.drop_last().len() && (#[trigger] vars.drop_last()[k]) == (
                    name,
                    lookup_var(vars.drop_last(), name)->Some_0,
                );
            assert(vars[k] == vars.drop_last()[k]);
        }
    }
}

/// Two distinct names bound in a table with distinct slots are bound to
/// distinct slots.
pub proof fn lemma_lookup_distinct(vars: Seq<(Seq<u8>, i64)>, n1: Seq<u8>, n2: Seq<u8>)
    requires
        distinct_slots(vars),
        n1 != n2,
        lookup_var(vars, n1) is Some,
        lookup_var(vars, n2) is Some,
    ensures
        lookup_var(vars, n1)->Some_0 != lookup_var(vars, n2)->Some_0,
{
    lemma_lookup_found(vars, n1);
    lemma_lookup_found(vars, n2);
    let k1 = choose|k: int|
        0 <= k < vars.len() && (#[trigger] vars[k]) == (n1, lookup_var(vars, n1)->Some_0);
    let k2 = choose|k: int|
        0 <= k < vars.len() && (#[trigger] vars[k]) == (n2, lookup_var(vars, n2)->Some_0);
    assert(k1 != k2);
}

impl Context {
    /// The model of the variable table.
    pub closed spec fn vars(&self) -> Seq<(Seq<u8>, i64)> {
        vars_view(self.variables@)
    }

    /// The next free slot counter.
    pub closed spec fn locals_count(&self) -> int {
        self.locals as int
    }

    /// The reserved slot budget of states this context creates.
    pub closed spec fn reserved(&self) -> int {
        self.reserved_slots as int
    }

    /// The slot a name is bound to, if any.
    pub open spec fn var_slot(&self, name: Seq<u8>) -> Option<i64> {
        lookup_var(self.vars(), name)
    }

    /// Slot 0 is reserved for the state local; every variable lives in a
    /// slot of `[1, locals)`, no two variables share a slot, and the
    /// budget is the fixed reserve.
    pub closed spec fn wf(&self) -> bool {
        &&& 1 <= self.locals
        &&& self.reserved_slots == RESERVED_SLOTS
        &&& forall|i: int|
            0 <= i < self.variables@.len() ==> 1 <= (#[trigger] self.variables@[i]).1
                < self.locals
        &&& distinct_slots(self.vars())
    }

    /// Create a new context: no variables, the slot counter at 1.
    pub fn new() -> (r: Context)
        ensures
            r.wf(),
            r.vars() == Seq::<(Seq<u8>, i64)>::empty(),
            r.locals_count() == 1,
            r.reserved() == RESERVED_SLOTS,
    {
        let r = Context { variables: Vec::new(), locals: 1, reserved_slots: RESERVED_SLOTS };
        proof {
            assert(r.vars() =~= Seq::<(Seq<u8>, i64)>::empty());
        }
        r
    }

    /// Define a variable: bind the name to a fresh stable slot. A name
    /// defined twice is rebound to the fresh slot.
    pub fn define_var(&mut self, var_name: &str)
        requires
            old(self).wf(),
            old(self).locals_count() < 0x7fff_ffff_ffff_ffff,
        ensures
            final(self).wf(),
            final(self).locals_count() == old(self).locals_count() + 1,
            final(self).reserved() == old(self).reserved(),
            final(self).var_slot(var_name.spec_bytes()) == Some(
                old(self).locals_count() as i64,
            ),
            forall|n: Seq<u8>|
                n != var_name.spec_bytes() ==> #[trigger] final(self).var_slot(n) == old(
                    self,
                ).var_slot(n),
    {
        let bytes = vstd::slice::slice_to_vec(var_name.as_bytes());
        let var_num = self.locals;
        self.locals = self.locals + 1;
        self.variables.push((bytes, var_num));
        proof {
            assert(self.vars() =~= old(self).vars().push((var_name.spec_bytes(), var_num)));
            assert(self.vars().drop_last() =~= old(self).vars());
            assert forall|n: Seq<u8>| n != var_name.spec_bytes() implies #[trigger] self.var_slot(
                n,
            ) == old(self).var_slot(n) by {
                assert(self.vars().last().0 == var_name.spec_bytes());
            }
            assert forall|i: int, j: int| 0 <= i < j < self.vars().len() implies (
            #[trigger] self.vars()[i]).1 != (#[trigger] self.vars()[j]).1 by {
                if j < self.vars().len() - 1 {
                    assert(old(self).vars()[i].1 != old(self).vars()[j].1);
                } else {
                    assert(old(self).vars()[i].1 < old(self).locals_count());
                }
            }
        }
    }

    /// Compile a user tree: run the loader and evaluator generators,
    /// perform the one-time load, and package the generated code. All
    /// variables referenced by the tree must have been defined. Fails,
    /// and only fails, when the tree holds a `LoadedTerm`, references an
    /// undefined variable, holds an over-long or non-compiling literal,
    /// uses an unsupported comparison operator, or does not fit in the
    /// slot budget.
    pub fn compile(&mut self, t: &Term) -> (r: Result<CompiledTerm, CompileError>)
        requires
            old(self).wf(),
        ensures
            final(self).wf(),
            final(self).vars() == old(self).vars(),
            final(self).reserved() == old(self).reserved(),
            final(self).locals_count() >= old(self).locals_count(),
            (r is Ok <==> user_term(t@) && !has_undef_var(t@, old(self).vars())
                && !has_long_literal(t@) && !has_cmp_op(t@) && regexes_ok(t@) && spec_lower(
                t@,
                old(self).locals_count(),
                old(self).vars(),
            ).1 <= old(self).reserved()),
            r matches Ok(ct) ==> {
                let (lt, c2, load_code) = spec_lower(
                    t@,
                    old(self).locals_count(),
                    old(self).vars(),
                );
                &&& ct.wf()
                &&& ct.vars() == old(self).vars()
                &&& ct.lowered() == lt
                &&& final(self).locals_count() == c2
                &&& ct.slots().len() == RESERVED_SLOTS
                &&& ct.slots() == load_env(
                    t@,
                    old(self).locals_count(),
                    Seq::new(RESERVED_SLOTS as nat, |i: int| ValueV::Missing),
                ).1
                &&& ct.load_code() == seq![
                    Instr::I64Const(RESERVED_SLOTS),
                    Instr::Call(FUN_MAKE_STATE),
                    Instr::TeeLocal(IDX_STATE),
                ] + load_code + seq![Instr::End]
                &&& ct.eval_code() == seq![Instr::GetLocal(IDX_STATE)] + spec_eval_code(lt)
                    + seq![Instr::Call(FUN_RTL_GET_BOOL), Instr::End]
                &&& ct.cleanup_code() == seq![
                    Instr::GetLocal(IDX_STATE),
                    Instr::Call(FUN_FREE_STATE),
                    Instr::End,
                ]
            },
    {
        if self.locals > self.reserved_slots {
            proof {
                lemma_lower_ctr_monotone(t@, old(self).locals_count(), old(self).vars());
            }
            return Err(CompileError::CapacityExceeded);
        }
        let start_locals: i64 = self.locals;
        let ghost base = self.locals as int;
        let mut load_instrs: Vec<Instr> = Vec::new();
        load_instrs.push(Instr::I64Const(self.reserved_slots));
        load_instrs.push(Instr::Call(FUN_MAKE_STATE));
        load_instrs.push(Instr::TeeLocal(IDX_STATE));
        let lowered = match int_build_loader(
            t,
            &self.variables,
            &mut self.locals,
            RESERVED_SLOTS,
            &mut load_instrs,
        ) {
            Ok(v) => v,
            Err(e) => {
                return Err(e);
            },
        };
        load_instrs.push(Instr::End);
        proof {
            lemma_lower_eval_ok(t@, base, old(self).vars());
        }
        let mut eval_instrs: Vec<Instr> = Vec::new();
        eval_instrs.push(Instr::GetLocal(IDX_STATE));
        match int_compile(&lowered, &mut eval_instrs) {
            Ok(_) => {},
            Err(e) => {
                return Err(e);
            },
        };
        proof {
            lemma_lower_wf(t@, base, old(self).vars(), RESERVED_SLOTS as int);
        }
        eval_instrs.push(Instr::Call(FUN_RTL_GET_BOOL));
        eval_instrs.push(Instr::End);
        let mut cleanup_instrs: Vec<Instr> = Vec::new();
        cleanup_instrs.push(Instr::GetLocal(IDX_STATE));
        cleanup_instrs.push(Instr::Call(FUN_FREE_STATE));
        cleanup_instrs.push(Instr::End);
        let mut st = RtState::make_state(RESERVED_SLOTS as usize);
        let ghost slots0 = st@;
        proof {
            assert(slots0 =~= Seq::new(RESERVED_SLOTS as nat, |i: int| ValueV::Missing));
            lemma_env_ctr(t@, base, slots0, old(self).vars());
            lemma_env_len(t@, base, slots0);
        }
        let mut load_ctr: i64 = start_locals;
        match materialize(t, &mut load_ctr, &mut st) {
            Ok(_) => {},
            Err(e) => {
                return Err(e);
            },
        };
        let ct = CompiledTerm {
            state: st,
            lowered,
            variables: copy_vars(&self.variables),
            load_instrs,
            eval_instrs,
            cleanup_instrs,
        };
        proof {
            assert(ct.load_code() =~= seq![
                Instr::I64Const(RESERVED_SLOTS),
                Instr::Call(FUN_MAKE_STATE),
                Instr::TeeLocal(IDX_STATE),
            ] + spec_lower(t@, base, old(self).vars()).2 + seq![Instr::End]);
            assert(ct.eval_code() =~= seq![Instr::GetLocal(IDX_STATE)] + spec_eval_code(
                spec_lower(t@, base, old(self).vars()).0,
            ) + seq![Instr::Call(FUN_RTL_GET_BOOL), Instr::End]);
            assert(ct.cleanup_code() =~= seq![
                Instr::GetLocal(IDX_STATE),
                Instr::Call(FUN_FREE_STATE),
                Instr::End,
            ]);
        }
        Ok(ct)
    }
}

/// A copy of a variable table; the copy's model equals the original's.
fn copy_vars(vars: &Vec<(Vec<u8>, i64)>) -> (r: Vec<(Vec<u8>, i64)>)
    ensures
        vars_view(r@) == vars_view(vars@),
{
    let mut r: Vec<(Vec<u8>, i64)> = Vec::new();
    let mut i: usize = 0;
    while i < vars.len()
        invariant
            0 <= i <= vars@.len(),
            r@.len() == i,
            forall|j: int|
                0 <= j < i ==> (#[trigger] r@[j]).0@ == vars@[j].0@ && r@[j].1 == vars@[j].1,
        decreases vars@.len() - i,
    {
        let name = copy_bytes(&vars[i].0);
        let idx = vars[i].1;
        r.push((name, idx));
        i += 1;
    }
    proof {
        assert(vars_view(r@) =~= vars_view(vars@));
    }
    r
}

/// Lowering a user tree whose variables are all defined and bounded
/// yields a well-formed lowered tree, provided no unsupported comparison
/// operator occurs and the final counter fits.
pub proof fn lemma_lower_wf(t: TermV, ctr: int, vars: Seq<(Seq<u8>, i64)>, n: int)
    requires
        user_term(t),
        !has_undef_var(t, vars),
        !has_cmp_op(t),
        0 <= ctr,
        n <= 0x7fff_ffff_ffff_ffff,
        spec_lower(t, ctr, vars).1 <= n,
        forall|i: int| 0 <= i < vars.len() ==> 0 <= (#[trigger] vars[i]).1 < n,
    ensures
        loaded_wf(spec_lower(t, ctr, vars).0, n),
    decreases t,
{
    match t {
        TermV::Variable(name) => {
            assert(lookup_var(vars, name) is Some);
            lemma_lookup_found(vars, name);
            let idx = lookup_var(vars, name)->Some_0;
            let k = choose|k: int|
                0 <= k < vars.len() && (#[trigger] vars[k]) == (
                    name,
                    lookup_var(vars, name)->Some_0,
                );
            assert(vars[k].1 == idx);
            assert(0 <= idx < n);
            assert(spec_lower(t, ctr, vars).0 == TermV::LoadedTerm(idx));
        },
        TermV::Not(x) => lemma_lower_wf(*x, ctr, vars, n),
        TermV::Eq(l, r) => {
            lemma_lower_ctr_monotone(*r, spec_lower(*l, ctr, vars).1, vars);
            lemma_lower_wf(*l, ctr, vars, n);
            lemma_lower_ctr_monotone(*l, ctr, vars);
            lemma_lower_wf(*r, spec_lower(*l, ctr, vars).1, vars, n);
        },
        TermV::Or(l, r) => {
            lemma_lower_ctr_monotone(*r, spec_lower(*l, ctr, vars).1, vars);
            lemma_lower_wf(*l, ctr, vars, n);
            lemma_lower_ctr_monotone(*l, ctr, vars);
            lemma_lower_wf(*r, spec_lower(*l, ctr, vars).1, vars, n);
        },
        TermV::And(l, r) => {
            lemma_lower_ctr_monotone(*r, spec_lower(*l, ctr, vars).1, vars);
            lemma_lower_wf(*l, ctr, vars, n);
            lemma_lower_ctr_monotone(*l, ctr, vars);
            lemma_lower_wf(*r, spec_lower(*l, ctr, vars).1, vars, n);
        },
        _ => {},
    }
}

/// The evaluator generator accepts a lowered user tree exactly when the
/// user tree holds no unsupported comparison operator.
pub proof fn lemma_lower_eval_ok(t: TermV, ctr: int, vars: Seq<(Seq<u8>, i64)>)
    requires
        user_term(t),
    ensures
        eval_gen_ok(spec_lower(t, ctr, vars).0) <==> !has_cmp_op(t),
    decreases t,
{
    match t {
        TermV::Not(x) => lemma_lower_eval_ok(*x, ctr, vars),
        TermV::Eq(l, r) => {
            lemma_lower_eval_ok(*l, ctr, vars);
            lemma_lower_eval_ok(*r, spec_lower(*l, ctr, vars).1, vars);
        },
        TermV::Or(l, r) => {
            lemma_lower_eval_ok(*l, ctr, vars);
            lemma_lower_eval_ok(*r, spec_lower(*l, ctr, vars).1, vars);
        },
        TermV::And(l, r) => {
            lemma_lower_eval_ok(*l, ctr, vars);
            lemma_lower_eval_ok(*r, spec_lower(*l, ctr, vars).1, vars);
        },
        TermV::Lt(l, r) => {},
        TermV::Le(l, r) => {},
        TermV::Gt(l, r) => {},
        TermV::Ge(l, r) => {},
        _ => {},
    }
}

/// A compiled formula: the lowered tree, the loaded state produced by
/// the one-time load, the variable table it was compiled under, and the
/// generated code of the module's three functions.
pub struct CompiledTerm {
    state: RtState,
    lowered: Term,
    variables: Vec<(Vec<u8>, i64)>,
    load_instrs: Vec<Instr>,
    eval_instrs: Vec<Instr>,
    cleanup_instrs: Vec<Instr>,
}

impl CompiledTerm {
    pub closed spec fn lowered(&self) -> TermV {
        self.lowered@
    }

    pub closed spec fn slots(&self) -> Seq<ValueV> {
        self.state@
    }

    pub closed spec fn vars(&self) -> Seq<(Seq<u8>, i64)> {
        vars_view(self.variables@)
    }

    pub closed spec fn load_code(&self) -> Seq<Instr> {
        self.load_instrs@
    }

    pub closed spec fn eval_code(&self) -> Seq<Instr> {
        self.eval_instrs@
    }

    pub closed spec fn cleanup_code(&self) -> Seq<Instr> {
        self.cleanup_instrs@
    }

    pub closed spec fn wf(&self) -> bool {
        &&& loaded_wf(self.lowered(), self.slots().len() as int)
        &&& state_inv(self.slots())
        &&& self.slots().len() == RESERVED_SLOTS
        &&& forall|i: int|
            0 <= i < self.vars().len() ==> 1 <= (#[trigger] self.vars()[i]).1 < RESERVED_SLOTS
        &&& distinct_slots(self.vars())
    }
}

/// A loaded formula instance: the lowered tree, its own slot table, and
/// the variable table resolved at compile time. Created by
/// `CompiledTerm::instantiate`; cheap to query repeatedly.
pub struct InstantiatedTerm {
    state: RtState,
    lowered: Term,
    variables: Vec<(Vec<u8>, i64)>,
}

/// A variable of a specific formula instance: the stable slot index its
/// name resolved to. Binding through it never looks the name up again.
pub struct Variable {
    idx: i64,
}

impl Variable {
    /// The slot this variable designates.
    pub closed spec fn slot(&self) -> i64 {
        self.idx
    }
}

impl CompiledTerm {
    /// The assembled bytecode module of this formula: the fixed imports,
    /// the generated `load`, `eval` and `cleanup` bodies, and their
    /// exports.
    pub fn module_bytes(&self) -> (r: Vec<u8>)
        ensures
            r@ == crate::wasm::spec_module_bytes(
                self.load_code(),
                self.eval_code(),
                self.cleanup_code(),
            ),
    {
        crate::wasm::assemble_module(&self.load_instrs, &self.eval_instrs, &self.cleanup_instrs)
    }

    /// Instantiate the compiled formula for evaluation: the instance
    /// carries its own copy of the loaded state.
    pub fn instantiate(&self) -> (r: InstantiatedTerm)
        requires
            self.wf(),
        ensures
            r.wf(),
            r.lowered() == self.lowered(),
            r.slots() == self.slots(),
            r.vars() == self.vars(),
    {
        InstantiatedTerm {
            state: self.state.duplicate(),
            lowered: copy_term(&self.lowered),
            variables: copy_vars(&self.variables),
        }
    }
}

impl InstantiatedTerm {
    pub closed spec fn lowered(&self) -> TermV {
        self.lowered@
    }

    pub closed spec fn slots(&self) -> Seq<ValueV> {
        self.state@
    }

    pub closed spec fn vars(&self) -> Seq<(Seq<u8>, i64)> {
        vars_view(self.variables@)
    }

    pub closed spec fn wf(&self) -> bool {
        &&& loaded_wf(self.lowered(), self.slots().len() as int)
        &&& state_inv(self.slots())
        &&& self.slots().len() == RESERVED_SLOTS
        &&& forall|i: int|
            0 <= i < self.vars().len() ==> 1 <= (#[trigger] self.vars()[i]).1 < RESERVED_SLOTS
        &&& distinct_slots(self.vars())
    }

    /// The slot a name is bound to, if any.
    pub open spec fn var_slot(&self, name: Seq<u8>) -> Option<i64> {
        lookup_var(self.vars(), name)
    }

    /// The boolean the instance denotes under its current slot table.
    pub open spec fn truth(&self) -> bool {
        spec_truth(denote(self.lowered(), self.slots()))
    }

    /// Evaluate the formula against the current variable bindings.
    pub fn run(&self) -> (r: bool)
        requires
            self.wf(),
        ensures
            r == self.truth(),
    {
        let v = eval_node(&self.lowered, &self.state);
        crate::runtime::val_truth(&v)
    }

    /// Retrieve a handle to a variable defined in the context that
    /// compiled this instance; subsequent binding through the handle is
    /// constant-time, with no lookup by name.
    pub fn get_variable(&self, var_name: &str) -> (r: Option<Variable>)
        requires
            self.wf(),
        ensures
            (r is Some <==> self.var_slot(var_name.spec_bytes()) is Some),
            r matches Some(v) ==> self.var_slot(var_name.spec_bytes()) == Some(v.slot())
                && 1 <= v.slot() < RESERVED_SLOTS,
    {
        let bytes = vstd::slice::slice_to_vec(var_name.as_bytes());
        match exec_lookup_var(&self.variables, &bytes) {
            Some(idx) => {
                proof {
                    lemma_lookup_found(self.vars(), var_name.spec_bytes());
                }
                Some(Variable { idx })
            },
            None => None,
        }
    }
}

impl Variable {
    /// Bind the variable's slot to an integer value; no other slot
    /// changes.
    pub fn set_i64(&self, term: &mut InstantiatedTerm, intval: i64)
        requires
            old(term).wf(),
            0 <= self.slot() < old(term).slots().len(),
        ensures
            final(term).wf(),
            final(term).slots() == old(term).slots().update(
                self.slot() as int,
                ValueV::I64(intval),
            ),
            final(term).lowered() == old(term).lowered(),
            final(term).vars() == old(term).vars(),
    {
        term.state.make_i64(self.idx as usize, intval);
    }

    /// Bind the variable's slot to a float value, given as the IEEE-754
    /// bit pattern of the `f64`; no other slot changes.
    pub fn set_f64(&self, term: &mut InstantiatedTerm, bits: u64)
        requires
            old(term).wf(),
            0 <= self.slot() < old(term).slots().len(),
        ensures
            final(term).wf(),
            final(term).slots() == old(term).slots().update(
                self.slot() as int,
                ValueV::F64(bits),
            ),
            final(term).lowered() == old(term).lowered(),
            final(term).vars() == old(term).vars(),
    {
        term.state.make_f64(self.idx as usize, bits);
    }

    /// Bind the variable's slot to a string value; no other slot
    /// changes.
    pub fn set_string(&self, term: &mut InstantiatedTerm, string: &str)
        requires
            old(term).wf(),
            0 <= self.slot() < old(term).slots().len(),
        ensures
            final(term).wf(),
            final(term).slots() == old(term).slots().update(
                self.slot() as int,
                ValueV::Str(string.spec_bytes()),
            ),
            final(term).lowered() == old(term).lowered(),
            final(term).vars() == old(term).vars(),
    {
        let bytes = vstd::slice::slice_to_vec(string.as_bytes());
        term.state.make_string(self.idx as usize, bytes);
    }
}

/// Determinism: the boolean `run` returns is a function of the
/// instance's lowered tree and slot table alone, so for fixed variable
/// bindings repeated runs return the same boolean.
pub proof fn lemma_run_deterministic(a: InstantiatedTerm, b: InstantiatedTerm)
    requires
        a.lowered() == b.lowered(),
        a.slots() == b.slots(),
    ensures
        a.truth() == b.truth(),
{
}

/// Variable stability: a handle obtained once keeps designating its
/// name's binding across unbounded runs and rebinds — `run` leaves the
/// instance untouched and the setters keep the variable table, so no
/// lookup by name is ever required again.
pub proof fn lemma_variable_stability(
    before: InstantiatedTerm,
    after: InstantiatedTerm,
    name: Seq<u8>,
)
    requires
        before.vars() == after.vars(),
    ensures
        before.var_slot(name) == after.var_slot(name),
{
}

/// Independence of variable slots: two distinct defined names bind
/// distinct slots, so writing one variable leaves every other
/// variable's slot unchanged.
pub proof fn lemma_variable_independence(
    inst: InstantiatedTerm,
    n1: Seq<u8>,
    n2: Seq<u8>,
    v: ValueV,
)
    requires
        inst.wf(),
        n1 != n2,
        inst.var_slot(n1) is Some,
        inst.var_slot(n2) is Some,
    ensures
        inst.var_slot(n1)->Some_0 != inst.var_slot(n2)->Some_0,
        inst.slots().update(inst.var_slot(n1)->Some_0 as int, v)[inst.var_slot(
            n2,
        )->Some_0 as int] == inst.slots()[inst.var_slot(n2)->Some_0 as int],
{
    lemma_lookup_distinct(inst.vars(), n1, n2);
    lemma_lookup_found(inst.vars(), n1);
    lemma_lookup_found(inst.vars(), n2);
}

/// Operator totality: every supported operator denotes a definite
/// boolean, whatever the types of the slot values it reads.
pub proof fn lemma_operator_totality(t: TermV, slots: Seq<ValueV>)
    requires
        loaded_wf(t, slots.len() as int),
        !(t is LoadedTerm),
    ensures
        denote(t, slots) is Bool,
{
}

/// Short-circuit absence: the evaluator code of a conjunction or
/// disjunction always contains the code of both operands, and the
/// denotation reads both sides.
pub proof fn lemma_no_short_circuit(l: TermV, r: TermV, slots: Seq<ValueV>)
    ensures
        spec_eval_code(TermV::And(Box::new(l), Box::new(r))) == seq![
            Instr::GetLocal(IDX_STATE),
        ] + spec_eval_code(l) + spec_eval_code(r) + seq![Instr::Call(FUN_RTL_AND)],
        spec_eval_code(TermV::Or(Box::new(l), Box::new(r))) == seq![
            Instr::GetLocal(IDX_STATE),
        ] + spec_eval_code(l) + spec_eval_code(r) + seq![Instr::Call(FUN_RTL_OR)],
        denote(TermV::And(Box::new(l), Box::new(r)), slots) == ValueV::Bool(
            spec_truth(denote(l, slots)) && spec_truth(denote(r, slots)),
        ),
        denote(TermV::Or(Box::new(l), Box::new(r)), slots) == ValueV::Bool(
            spec_truth(denote(l, slots)) || spec_truth(denote(r, slots)),
        ),
{
}


/// The number of literal leaves of a tree: each costs one slot.
pub open spec fn n_lits(t: TermV) -> int
    decreases t,
{
    match t {
        TermV::Int(_) => 1,
        TermV::Float(_) => 1,
        TermV::String(_) => 1,
        TermV::Regex(_) => 1,
        TermV::Not(x) => n_lits(*x),
        TermV::Eq(l, r) => n_lits(*l) + n_lits(*r),
        TermV::Or(l, r) => n_lits(*l) + n_lits(*r),
        TermV::And(l, r) => n_lits(*l) + n_lits(*r),
        TermV::Lt(l, r) => n_lits(*l) + n_lits(*r),
        TermV::Le(l, r) => n_lits(*l) + n_lits(*r),
        TermV::Gt(l, r) => n_lits(*l) + n_lits(*r),
        TermV::Ge(l, r) => n_lits(*l) + n_lits(*r),
        _ => 0,
    }
}

/// A tree has a non-negative number of literal leaves.
pub proof fn lemma_nlits_nonneg(t: TermV)
    ensures
        n_lits(t) >= 0,
    decreases t,
{
    match t {
        TermV::Not(x) => lemma_nlits_nonneg(*x),
        TermV::Eq(l, r) => {
            lemma_nlits_nonneg(*l);
            lemma_nlits_nonneg(*r);
        },
        TermV::Or(l, r) => {
            lemma_nlits_nonneg(*l);
            lemma_nlits_nonneg(*r);
        },
        TermV::And(l, r) => {
            lemma_nlits_nonneg(*l);
            lemma_nlits_nonneg(*r);
        },
        TermV::Lt(l, r) => {
            lemma_nlits_nonneg(*l);
            lemma_nlits_nonneg(*r);
        },
        TermV::Le(l, r) => {
            lemma_nlits_nonneg(*l);
            lemma_nlits_nonneg(*r);
        },
        TermV::Gt(l, r) => {
            lemma_nlits_nonneg(*l);
            lemma_nlits_nonneg(*r);
        },
        TermV::Ge(l, r) => {
            lemma_nlits_nonneg(*l);
            lemma_nlits_nonneg(*r);
        },
        _ => {},
    }
}

/// Lowering advances the slot counter by exactly the number of literal
/// leaves.
pub proof fn lemma_lower_nlits(t: TermV, ctr: int, vars: Seq<(Seq<u8>, i64)>)
    ensures
        spec_lower(t, ctr, vars).1 == ctr + n_lits(t),
    decreases t,
{
    match t {
        TermV::Not(x) => lemma_lower_nlits(*x, ctr, vars),
        TermV::Eq(l, r) => {
            lemma_lower_nlits(*l, ctr, vars);
            lemma_lower_nlits(*r, ctr + n_lits(*l), vars);
        },
        TermV::Or(l, r) => {
            lemma_lower_nlits(*l, ctr, vars);
            lemma_lower_nlits(*r, ctr + n_lits(*l), vars);
        },
        TermV::And(l, r) => {
            lemma_lower_nlits(*l, ctr, vars);
            lemma_lower_nlits(*r, ctr + n_lits(*l), vars);
        },
        TermV::Lt(l, r) => {
            lemma_lower_nlits(*l, ctr, vars);
            lemma_lower_nlits(*r, ctr + n_lits(*l), vars);
        },
        TermV::Le(l, r) => {
            lemma_lower_nlits(*l, ctr, vars);
            lemma_lower_nlits(*r, ctr + n_lits(*l), vars);
        },
        TermV::Gt(l, r) => {
            lemma_lower_nlits(*l, ctr, vars);
            lemma_lower_nlits(*r, ctr + n_lits(*l), vars);
        },
        TermV::Ge(l, r) => {
            lemma_lower_nlits(*l, ctr, vars);
            lemma_lower_nlits(*r, ctr + n_lits(*l), vars);
        },
        _ => {},
    }
}

/// Every literal leaf's value sits in the slot the loader assigned to
/// it, counting slots from `ctr` in post-order.
pub open spec fn lits_loaded(t: TermV, ctr: int, s: Seq<ValueV>) -> bool
    decreases t,
{
    match t {
        TermV::Int(v) => s[ctr] == ValueV::I64(v),
        TermV::Float(b) => s[ctr] == ValueV::F64(b),
        TermV::String(x) => s[ctr] == ValueV::Str(x),
        TermV::Regex(p) => s[ctr] == ValueV::Regex(p),
        TermV::Not(x) => lits_loaded(*x, ctr, s),
        TermV::Eq(l, r) => lits_loaded(*l, ctr, s) && lits_loaded(*r, ctr + n_lits(*l), s),
        TermV::Or(l, r) => lits_loaded(*l, ctr, s) && lits_loaded(*r, ctr + n_lits(*l), s),
        TermV::And(l, r) => lits_loaded(*l, ctr, s) && lits_loaded(*r, ctr + n_lits(*l), s),
        TermV::Lt(l, r) => lits_loaded(*l, ctr, s) && lits_loaded(*r, ctr + n_lits(*l), s),
        TermV::Le(l, r) => lits_loaded(*l, ctr, s) && lits_loaded(*r, ctr + n_lits(*l), s),
        TermV::Gt(l, r) => lits_loaded(*l, ctr, s) && lits_loaded(*r, ctr + n_lits(*l), s),
        TermV::Ge(l, r) => lits_loaded(*l, ctr, s) && lits_loaded(*r, ctr + n_lits(*l), s),
        _ => true,
    }
}

/// Whether the literal slots hold the literals depends only on the
/// literal region of the table.
pub proof fn lemma_lits_frame(t: TermV, ctr: int, s1: Seq<ValueV>, s2: Seq<ValueV>)
    requires
        forall|j: int| ctr <= j < ctr + n_lits(t) ==> s1[j] == s2[j],
    ensures
        lits_loaded(t, ctr, s1) == lits_loaded(t, ctr, s2),
    decreases t,
{
    match t {
        TermV::Not(x) => lemma_lits_frame(*x, ctr, s1, s2),
        TermV::Eq(l, r) => {
            lemma_nlits_nonneg(*l);
            lemma_nlits_nonneg(*r);
            lemma_lits_frame(*l, ctr, s1, s2);
            lemma_lits_frame(*r, ctr + n_lits(*l), s1, s2);
        },
        TermV::Or(l, r) => {
            lemma_nlits_nonneg(*l);
            lemma_nlits_nonneg(*r);
            lemma_lits_frame(*l, ctr, s1, s2);
            lemma_lits_frame(*r, ctr + n_lits(*l), s1, s2);
        },
        TermV::And(l, r) => {
            lemma_nlits_nonneg(*l);
            lemma_nlits_nonneg(*r);
            lemma_lits_frame(*l, ctr, s1, s2);
            lemma_lits_frame(*r, ctr + n_lits(*l), s1, s2);
        },
        TermV::Lt(l, r) => {
            lemma_nlits_nonneg(*l);
            lemma_nlits_nonneg(*r);
            lemma_lits_frame(*l, ctr, s1, s2);
            lemma_lits_frame(*r, ctr + n_lits(*l), s1, s2);
        },
        TermV::Le(l, r) => {
            lemma_nlits_nonneg(*l);
            lemma_nlits_nonneg(*r);
            lemma_lits_frame(*l, ctr, s1, s2);
            lemma_lits_frame(*r, ctr + n_lits(*l), s1, s2);
        },
        TermV::Gt(l, r) => {
            lemma_nlits_nonneg(*l);
            lemma_nlits_nonneg(*r);
            lemma_lits_frame(*l, ctr, s1, s2);
            lemma_lits_frame(*r, ctr + n_lits(*l), s1, s2);
        },
        TermV::Ge(l, r) => {
            lemma_nlits_nonneg(*l);
            lemma_nlits_nonneg(*r);
            lemma_lits_frame(*l, ctr, s1, s2);
            lemma_lits_frame(*r, ctr + n_lits(*l), s1, s2);
        },
        _ => {},
    }
}

/// The one-time load establishes the literal slots and touches nothing
/// below `ctr` or beyond the literal region.
pub proof fn lemma_env_loads(t: TermV, ctr: int, s0: Seq<ValueV>)
    requires
        0 <= ctr,
        ctr + n_lits(t) <= s0.len(),
    ensures
        lits_loaded(t, ctr, load_env(t, ctr, s0).1),
        forall|j: int|
            0 <= j < s0.len() && !(ctr <= j < ctr + n_lits(t)) ==> load_env(t, ctr, s0).1[j]
                == s0[j],
    decreases t,
{
    lemma_env_ctr(t, ctr, s0, Seq::empty());
    lemma_lower_nlits(t, ctr, Seq::empty());
    lemma_env_len(t, ctr, s0);
    lemma_nlits_nonneg(t);
    match t {
        TermV::Not(x) => lemma_env_loads(*x, ctr, s0),
        TermV::Eq(l, r) => {
            let (c2, s2) = load_env(*l, ctr, s0);
            lemma_nlits_nonneg(*l);
            lemma_nlits_nonneg(*r);
            lemma_env_ctr(*l, ctr, s0, Seq::empty());
            lemma_lower_nlits(*l, ctr, Seq::empty());
            lemma_env_len(*l, ctr, s0);
            lemma_env_loads(*l, ctr, s0);
            lemma_env_ctr(*r, c2, s2, Seq::empty());
            lemma_lower_nlits(*r, c2, Seq::empty());
            lemma_env_loads(*r, c2, s2);
            let s3 = load_env(*r, c2, s2).1;
            lemma_env_len(*r, c2, s2);
            assert forall|j: int| ctr <= j < ctr + n_lits(*l) implies s3[j] == s2[j] by {}
            lemma_lits_frame(*l, ctr, s2, s3);
        },
        TermV::Or(l, r) => {
            let (c2, s2) = load_env(*l, ctr, s0);
            lemma_nlits_nonneg(*l);
            lemma_nlits_nonneg(*r);
            lemma_env_ctr(*l, ctr, s0, Seq::empty());
            lemma_lower_nlits(*l, ctr, Seq::empty());
            lemma_env_len(*l, ctr, s0);
            lemma_env_loads(*l, ctr, s0);
            lemma_env_ctr(*r, c2, s2, Seq::empty());
            lemma_lower_nlits(*r, c2, Seq::empty());
            lemma_env_loads(*r, c2, s2);
            let s3 = load_env(*r, c2, s2).1;
            lemma_env_len(*r, c2, s2);
            assert forall|j: int| ctr <= j < ctr + n_lits(*l) implies s3[j] == s2[j] by {}
            lemma_lits_frame(*l, ctr, s2, s3);
        },
        TermV::And(l, r) => {
            let (c2, s2) = load_env(*l, ctr, s0);
            lemma_nlits_nonneg(*l);
            lemma_nlits_nonneg(*r);
            lemma_env_ctr(*l, ctr, s0, Seq::empty());
            lemma_lower_nlits(*l, ctr, Seq::empty());
            lemma_env_len(*l, ctr, s0);
            lemma_env_loads(*l, ctr, s0);
            lemma_env_ctr(*r, c2, s2, Seq::empty());
            lemma_lower_nlits(*r, c2, Seq::empty());
            lemma_env_loads(*r, c2, s2);
            let s3 = load_env(*r, c2, s2).1;
            lemma_env_len(*r, c2, s2);
            assert forall|j: int| ctr <= j < ctr + n_lits(*l) implies s3[j] == s2[j] by {}
            lemma_lits_frame(*l, ctr, s2, s3);
        },
        TermV::Lt(l, r) => {
            let (c2, s2) = load_env(*l, ctr, s0);
            lemma_nlits_nonneg(*l);
            lemma_nlits_nonneg(*r);
            lemma_env_ctr(*l, ctr, s0, Seq::empty());
            lemma_lower_nlits(*l, ctr, Seq::empty());
            lemma_env_len(*l, ctr, s0);
            lemma_env_loads(*l, ctr, s0);
            lemma_env_ctr(*r, c2, s2, Seq::empty());
            lemma_lower_nlits(*r, c2, Seq::empty());
            lemma_env_loads(*r, c2, s2);
            let s3 = load_env(*r, c2, s2).1;
            lemma_env_len(*r, c2, s2);
            assert forall|j: int| ctr <= j < ctr + n_lits(*l) implies s3[j] == s2[j] by {}
            lemma_lits_frame(*l, ctr, s2, s3);
        },
        TermV::Le(l, r) => {
            let (c2, s2) = load_env(*l, ctr, s0);
            lemma_nlits_nonneg(*l);
            lemma_nlits_nonneg(*r);
            lemma_env_ctr(*l, ctr, s0, Seq::empty());
            lemma_lower_nlits(*l, ctr, Seq::empty());
            lemma_env_len(*l, ctr, s0);
            lemma_env_loads(*l, ctr, s0);
            lemma_env_ctr(*r, c2, s2, Seq::empty());
            lemma_lower_nlits(*r, c2, Seq::empty());
            lemma_env_loads(*r, c2, s2);
            let s3 = load_env(*r, c2, s2).1;
            lemma_env_len(*r, c2, s2);
            assert forall|j: int| ctr <= j < ctr + n_lits(*l) implies s3[j] == s2[j] by {}
            lemma_lits_frame(*l, ctr, s2, s3);
        },
        TermV::Gt(l, r) => {
            let (c2, s2) = load_env(*l, ctr, s0);
            lemma_nlits_nonneg(*l);
            lemma_nlits_nonneg(*r);
            lemma_env_ctr(*l, ctr, s0, Seq::empty());
            lemma_lower_nlits(*l, ctr, Seq::empty());
            lemma_env_len(*l, ctr, s0);
            lemma_env_loads(*l, ctr, s0);
            lemma_env_ctr(*r, c2, s2, Seq::empty());
            lemma_lower_nlits(*r, c2, Seq::empty());
            lemma_env_loads(*r, c2, s2);
            let s3 = load_env(*r, c2, s2).1;
            lemma_env_len(*r, c2, s2);
            assert forall|j: int| ctr <= j < ctr + n_lits(*l) implies s3[j] == s2[j] by {}
            lemma_lits_frame(*l, ctr, s2, s3);
        },
        TermV::Ge(l, r) => {
            let (c2, s2) = load_env(*l, ctr, s0);
            lemma_nlits_nonneg(*l);
            lemma_nlits_nonneg(*r);
            lemma_env_ctr(*l, ctr, s0, Seq::empty());
            lemma_lower_nlits(*l, ctr, Seq::empty());
            lemma_env_len(*l, ctr, s0);
            lemma_env_loads(*l, ctr, s0);
            lemma_env_ctr(*r, c2, s2, Seq::empty());
            lemma_lower_nlits(*r, c2, Seq::empty());
            lemma_env_loads(*r, c2, s2);
            let s3 = load_env(*r, c2, s2).1;
            lemma_env_len(*r, c2, s2);
            assert forall|j: int| ctr <= j < ctr + n_lits(*l) implies s3[j] == s2[j] by {}
            lemma_lits_frame(*l, ctr, s2, s3);
        },
        _ => {},
    }
}

/// The user-level denotation of a formula: literals denote their
/// values, a variable denotes whatever its slot currently holds, and
/// the operators compose through the runtime's boolean extraction and
/// polymorphic equality.
pub open spec fn user_denote(t: TermV, vars: Seq<(Seq<u8>, i64)>, slots: Seq<ValueV>) -> ValueV
    decreases t,
{
    match t {
        TermV::Int(v) => ValueV::I64(v),
        TermV::Float(b) => ValueV::F64(b),
        TermV::String(x) => ValueV::Str(x),
        TermV::Regex(p) => ValueV::Regex(p),
        TermV::Variable(n) => match lookup_var(vars, n) {
            Some(i) => slots[i as int],
            None => ValueV::Missing,
        },
        TermV::Not(x) => ValueV::Bool(!spec_truth(user_denote(*x, vars, slots))),
        TermV::And(l, r) => ValueV::Bool(
            spec_truth(user_denote(*l, vars, slots)) && spec_truth(user_denote(*r, vars, slots)),
        ),
        TermV::Or(l, r) => ValueV::Bool(
            spec_truth(user_denote(*l, vars, slots)) || spec_truth(user_denote(*r, vars, slots)),
        ),
        TermV::Eq(l, r) => ValueV::Bool(
            spec_eq_val(user_denote(*l, vars, slots), user_denote(*r, vars, slots)),
        ),
        _ => ValueV::Missing,
    }
}

/// The compiled formula means the formula: against any slot table whose
/// literal region still holds the loaded literals — the one-time load
/// establishes it, `run` reads without writing, and the setters only
/// write variable slots below the literal region — the lowered tree
/// denotes exactly the user-level reading of the original tree.
#[verifier::rlimit(100)]
pub proof fn lemma_lower_semantics(
    t: TermV,
    ctr: int,
    vars: Seq<(Seq<u8>, i64)>,
    s: Seq<ValueV>,
)
    requires
        user_term(t),
        !has_undef_var(t, vars),
        !has_cmp_op(t),
        0 <= ctr,
        ctr + n_lits(t) <= s.len(),
        s.len() <= 0x7fff_ffff_ffff_ffff,
        lits_loaded(t, ctr, s),
    ensures
        denote(spec_lower(t, ctr, vars).0, s) == user_denote(t, vars, s),
    decreases t,
{
    lemma_lower_nlits(t, ctr, vars);
    match t {
        TermV::Not(x) => lemma_lower_semantics(*x, ctr, vars, s),
        TermV::Eq(l, r) => {
            lemma_nlits_nonneg(*l);
            lemma_nlits_nonneg(*r);
            lemma_lower_nlits(*l, ctr, vars);
            lemma_lower_semantics(*l, ctr, vars, s);
            lemma_lower_semantics(*r, ctr + n_lits(*l), vars, s);
        },
        TermV::Or(l, r) => {
            lemma_nlits_nonneg(*l);
            lemma_nlits_nonneg(*r);
            lemma_lower_nlits(*l, ctr, vars);
            lemma_lower_semantics(*l, ctr, vars, s);
            lemma_lower_semantics(*r, ctr + n_lits(*l), vars, s);
        },
        TermV::And(l, r) => {
            lemma_nlits_nonneg(*l);
            lemma_nlits_nonneg(*r);
            lemma_lower_nlits(*l, ctr, vars);
            lemma_lower_semantics(*l, ctr, vars, s);
            lemma_lower_semantics(*r, ctr + n_lits(*l), vars, s);
        },
        _ => {},
    }
}

} // verus!
