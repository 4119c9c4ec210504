//! The loader and evaluator generators.
//!
//! The loader generator walks a user term in post-order, emits the
//! stack-machine code that materializes every literal operand into a
//! pre-allocated value slot, and substitutes each leaf with a
//! `LoadedTerm` placeholder referencing that slot. The evaluator
//! generator walks the lowered tree and emits the code that composes the
//! pre-loaded slots through the runtime primitives, leaving the result's
//! slot index on the operand stack.

use vstd::prelude::*;

use crate::term::{Term, TermV, user_term};

verus! {

/// Imported runtime functions, by their fixed import index. Call sites in
/// generated code reference these indices; the module assembler declares
/// the imports in exactly this order.
pub const FUN_MAKE_STATE: u32 = 0;

pub const FUN_FREE_STATE: u32 = 1;

pub const FUN_MAKE_I64: u32 = 2;

pub const FUN_MAKE_F64: u32 = 3;

pub const FUN_RTL_EQ: u32 = 4;

pub const FUN_RTL_GET_BOOL: u32 = 5;

pub const FUN_RTL_AND: u32 = 6;

pub const FUN_RTL_OR: u32 = 7;

pub const FUN_RTL_NOT: u32 = 8;

pub const FUN_ALLOC_STRING: u32 = 9;

pub const FUN_GET_STRING_BUF: u32 = 10;

pub const FUN_MAKE_STRING: u32 = 11;

pub const FUN_MAKE_REGEX: u32 = 12;

/// Locals of the generated `load` function, with fixed indices.
pub const IDX_STATE: u32 = 0;

pub const IDX_RESULT: u32 = 1;

pub const IDX_MEM_BUF_PTR: u32 = 2;

pub const IDX_STRING: u32 = 3;

pub const IDX_VAR_RESULT: u32 = 4;

/// The largest byte length of a string or regex literal: its length must
/// be expressible as an `i32` in the generated code.
pub const MAX_LITERAL_LEN: usize = 0x7fff_ffff;

/// One stack-machine instruction of the generated code.
#[derive(Clone, Copy, PartialEq, Eq, Structural, Debug)]
pub enum Instr {
    GetLocal(u32),
    SetLocal(u32),
    TeeLocal(u32),
    I32Const(i32),
    I64Const(i64),
    /// IEEE-754 bit pattern of the `f64` immediate.
    F64Const(u64),
    /// Store the low byte of the second operand at the address given by
    /// the first plus `offset`; `align` is the encoded alignment hint.
    I32Store8 { align: u32, offset: u32 },
    Call(u32),
    Drop,
    End,
}

/// A compile-phase failure, surfaced to the caller.
#[derive(Clone, Copy, PartialEq, Eq, Structural, Debug)]
pub enum CompileError {
    /// The tree holds `Lt`, `Le`, `Gt` or `Ge`, which the evaluator
    /// generator does not support yet.
    UnsupportedOperator,
    /// A raw literal or `Variable` reached the evaluator generator.
    MalformedAst,
    /// A `LoadedTerm` placeholder occurred in a user tree: loading an
    /// already loaded tree is forbidden.
    AlreadyLoaded,
    /// A variable was not defined in the compiling context.
    UndefinedVariable,
    /// The tree's literals do not fit in the reserved slot budget.
    CapacityExceeded,
    /// A string or regex literal is too long for the generated code.
    StringTooLong,
    /// A regex literal does not compile.
    RegexError,
}

/// The variable table of a context, modelled as a name-to-slot list in
/// which the last binding of a name wins.
pub open spec fn lookup_var(vars: Seq<(Seq<u8>, i64)>, name: Seq<u8>) -> Option<i64>
    decreases vars.len(),
{
    if vars.len() == 0 {
        None
    } else if vars.last().0 == name {
        Some(vars.last().1)
    } else {
        lookup_var(vars.drop_last(), name)
    }
}

/// The model of an executable variable table.
pub open spec fn vars_view(vars: Seq<(Vec<u8>, i64)>) -> Seq<(Seq<u8>, i64)> {
    vars.map_values(|p: (Vec<u8>, i64)| (p.0@, p.1))
}

/// True when the term references a variable that the table does not bind.
pub open spec fn has_undef_var(t: TermV, vars: Seq<(Seq<u8>, i64)>) -> bool
    decreases t,
{
    match t {
        TermV::Variable(n) => lookup_var(vars, n) is None,
        TermV::Not(x) => has_undef_var(*x, vars),
        TermV::Eq(l, r) => has_undef_var(*l, vars) || has_undef_var(*r, vars),
        TermV::Or(l, r) => has_undef_var(*l, vars) || has_undef_var(*r, vars),
        TermV::And(l, r) => has_undef_var(*l, vars) || has_undef_var(*r, vars),
        TermV::Lt(l, r) => has_undef_var(*l, vars) || has_undef_var(*r, vars),
        TermV::Le(l, r) => has_undef_var(*l, vars) || has_undef_var(*r, vars),
        TermV::Gt(l, r) => has_undef_var(*l, vars) || has_undef_var(*r, vars),
        TermV::Ge(l, r) => has_undef_var(*l, vars) || has_undef_var(*r, vars),
        _ => false,
    }
}

/// True when a string or regex literal of the term is longer than
/// [`MAX_LITERAL_LEN`].
pub open spec fn has_long_literal(t: TermV) -> bool
    decreases t,
{
    match t {
        TermV::String(s) => s.len() > MAX_LITERAL_LEN,
        TermV::Regex(s) => s.len() > MAX_LITERAL_LEN,
        TermV::Not(x) => has_long_literal(*x),
        TermV::Eq(l, r) => has_long_literal(*l) || has_long_literal(*r),
        TermV::Or(l, r) => has_long_literal(*l) || has_long_literal(*r),
        TermV::And(l, r) => has_long_literal(*l) || has_long_literal(*r),
        TermV::Lt(l, r) => has_long_literal(*l) || has_long_literal(*r),
        TermV::Le(l, r) => has_long_literal(*l) || has_long_literal(*r),
        TermV::Gt(l, r) => has_long_literal(*l) || has_long_literal(*r),
        TermV::Ge(l, r) => has_long_literal(*l) || has_long_literal(*r),
        _ => false,
    }
}

/// The code that materializes an integer literal into a slot.
pub open spec fn load_i64_code(slot: int, v: i64) -> Seq<Instr> {
    seq![
        Instr::GetLocal(IDX_STATE),
        Instr::I64Const(slot as i64),
        Instr::I64Const(v),
        Instr::Call(FUN_MAKE_I64),
        Instr::Drop,
    ]
}

/// The code that materializes a float literal into a slot.
pub open spec fn load_f64_code(slot: int, bits: u64) -> Seq<Instr> {
    seq![
        Instr::GetLocal(IDX_STATE),
        Instr::I64Const(slot as i64),
        Instr::F64Const(bits),
        Instr::Call(FUN_MAKE_F64),
        Instr::Drop,
    ]
}

/// The code that copies a literal's bytes, one i8-wide store at a time,
/// into the scratch buffer whose address is in `IDX_MEM_BUF_PTR`.
pub open spec fn store_bytes_code(s: Seq<u8>) -> Seq<Instr>
    decreases s.len(),
{
    if s.len() == 0 {
        Seq::empty()
    } else {
        store_bytes_code(s.drop_last()) + seq![
            Instr::GetLocal(IDX_MEM_BUF_PTR),
            Instr::I32Const(s.last() as i32),
            Instr::I32Store8 { align: 0, offset: (s.len() - 1) as u32 },
        ]
    }
}

/// The code that allocates a scratch string buffer for `len` bytes and
/// leaves its handle in `IDX_STRING` and its address in `IDX_MEM_BUF_PTR`.
pub open spec fn alloc_string_code(len: int) -> Seq<Instr> {
    seq![
        Instr::I32Const(len as i32),
        Instr::Call(FUN_ALLOC_STRING),
        Instr::TeeLocal(IDX_STRING),
        Instr::Call(FUN_GET_STRING_BUF),
        Instr::SetLocal(IDX_MEM_BUF_PTR),
    ]
}

/// The code that materializes a string literal into a slot.
pub open spec fn load_string_code(slot: int, s: Seq<u8>) -> Seq<Instr> {
    alloc_string_code(s.len() as int) + store_bytes_code(s) + seq![
        Instr::GetLocal(IDX_STATE),
        Instr::I64Const(slot as i64),
        Instr::GetLocal(IDX_STRING),
        Instr::I32Const(s.len() as i32),
        Instr::Call(FUN_MAKE_STRING),
        Instr::Drop,
    ]
}

/// The code that materializes a regex literal into a slot; the flags
/// immediate is zero.
pub open spec fn load_regex_code(slot: int, s: Seq<u8>) -> Seq<Instr> {
    alloc_string_code(s.len() as int) + store_bytes_code(s) + seq![
        Instr::GetLocal(IDX_STATE),
        Instr::I64Const(slot as i64),
        Instr::I64Const(0),
        Instr::GetLocal(IDX_STRING),
        Instr::I32Const(s.len() as i32),
        Instr::Call(FUN_MAKE_REGEX),
        Instr::Drop,
    ]
}

/// The loader generator's result on a user tree: the lowered tree in
/// which every leaf is a `LoadedTerm`, the next free slot counter, and
/// the emitted loader code. Slot indices are assigned to literal leaves
/// in post-order, monotonically from `ctr`; variables resolve to their
/// slot in the table (or the `-1` sentinel when unbound, though the
/// executable generator rejects that case).
pub open spec fn spec_lower(t: TermV, ctr: int, vars: Seq<(Seq<u8>, i64)>) -> (TermV, int, Seq<
    Instr,
>)
    decreases t,
{
    match t {
        TermV::Int(v) => (TermV::LoadedTerm(ctr as i64), ctr + 1, load_i64_code(ctr, v)),
        TermV::Float(b) => (TermV::LoadedTerm(ctr as i64), ctr + 1, load_f64_code(ctr, b)),
        TermV::String(s) => (TermV::LoadedTerm(ctr as i64), ctr + 1, load_string_code(ctr, s)),
        TermV::Regex(s) => (TermV::LoadedTerm(ctr as i64), ctr + 1, load_regex_code(ctr, s)),
        TermV::Variable(n) => (
            TermV::LoadedTerm(
                match lookup_var(vars, n) {
                    Some(i) => i,
                    None => (-1) as i64,
                },
            ),
            ctr,
            Seq::empty(),
        ),
        TermV::LoadedTerm(i) => (TermV::LoadedTerm(i), ctr, Seq::empty()),
        TermV::Not(x) => {
            let (x2, c2, is2) = spec_lower(*x, ctr, vars);
            (TermV::Not(Box::new(x2)), c2, is2)
        },
        TermV::Eq(l, r) => {
            let (l2, c2, il) = spec_lower(*l, ctr, vars);
            let (r2, c3, ir) = spec_lower(*r, c2, vars);
            (TermV::Eq(Box::new(l2), Box::new(r2)), c3, il + ir)
        },
        TermV::Or(l, r) => {
            let (l2, c2, il) = spec_lower(*l, ctr, vars);
            let (r2, c3, ir) = spec_lower(*r, c2, vars);
            (TermV::Or(Box::new(l2), Box::new(r2)), c3, il + ir)
        },
        TermV::And(l, r) => {
            let (l2, c2, il) = spec_lower(*l, ctr, vars);
            let (r2, c3, ir) = spec_lower(*r, c2, vars);
            (TermV::And(Box::new(l2), Box::new(r2)), c3, il + ir)
        },
        TermV::Lt(l, r) => {
            let (l2, c2, il) = spec_lower(*l, ctr, vars);
            let (r2, c3, ir) = spec_lower(*r, c2, vars);
            (TermV::Lt(Box::new(l2), Box::new(r2)), c3, il + ir)
        },
        TermV::Le(l, r) => {
            let (l2, c2, il) = spec_lower(*l, ctr, vars);
            let (r2, c3, ir) = spec_lower(*r, c2, vars);
            (TermV::Le(Box::new(l2), Box::new(r2)), c3, il + ir)
        },
        TermV::Gt(l, r) => {
            let (l2, c2, il) = spec_lower(*l, ctr, vars);
            let (r2, c3, ir) = spec_lower(*r, c2, vars);
            (TermV::Gt(Box::new(l2), Box::new(r2)), c3, il + ir)
        },
        TermV::Ge(l, r) => {
            let (l2, c2, il) = spec_lower(*l, ctr, vars);
            let (r2, c3, ir) = spec_lower(*r, c2, vars);
            (TermV::Ge(Box::new(l2), Box::new(r2)), c3, il + ir)
        },
    }
}

/// The slot counter never decreases across lowering.
pub proof fn lemma_lower_ctr_monotone(t: TermV, ctr: int, vars: Seq<(Seq<u8>, i64)>)
    ensures
        spec_lower(t, ctr, vars).1 >= ctr,
    decreases t,
{
    match t {
        TermV::Not(x) => lemma_lower_ctr_monotone(*x, ctr, vars),
        TermV::Eq(l, r) => {
            lemma_lower_ctr_monotone(*l, ctr, vars);
            lemma_lower_ctr_monotone(*r, spec_lower(*l, ctr, vars).1, vars);
        },
        TermV::Or(l, r) => {
            lemma_lower_ctr_monotone(*l, ctr, vars);
            lemma_lower_ctr_monotone(*r, spec_lower(*l, ctr, vars).1, vars);
        },
        TermV::And(l, r) => {
            lemma_lower_ctr_monotone(*l, ctr, vars);
            lemma_lower_ctr_monotone(*r, spec_lower(*l, ctr, vars).1, vars);
        },
        TermV::Lt(l, r) => {
            lemma_lower_ctr_monotone(*l, ctr, vars);
            lemma_lower_ctr_monotone(*r, spec_lower(*l, ctr, vars).1, vars);
        },
        TermV::Le(l, r) => {
            lemma_lower_ctr_monotone(*l, ctr, vars);
            lemma_lower_ctr_monotone(*r, spec_lower(*l, ctr, vars).1, vars);
        },
        TermV::Gt(l, r) => {
            lemma_lower_ctr_monotone(*l, ctr, vars);
            lemma_lower_ctr_monotone(*r, spec_lower(*l, ctr, vars).1, vars);
        },
        TermV::Ge(l, r) => {
            lemma_lower_ctr_monotone(*l, ctr, vars);
            lemma_lower_ctr_monotone(*r, spec_lower(*l, ctr, vars).1, vars);
        },
        _ => {},
    }
}

/// Look a variable up in an executable table, last binding first.
pub fn exec_lookup_var(vars: &Vec<(Vec<u8>, i64)>, name: &Vec<u8>) -> (r: Option<i64>)
    ensures
        r == lookup_var(vars_view(vars@), name@),
{
    let ghost full = vars_view(vars@);
    let mut i: usize = vars.len();
    proof {
        assert(full.take(i as int) =~= full);
    }
    while i > 0
        invariant
            0 <= i <= vars@.len(),
            full == vars_view(vars@),
            lookup_var(full, name@) == lookup_var(full.take(i as int), name@),
        decreases i,
    {
        i = i - 1;
        if crate::term::bytes_eq(&vars[i].0, name) {
            proof {
                assert(full.take(i as int + 1).last() == (vars@[i as int].0@, vars@[i as int].1));
            }
            return Some(vars[i].1);
        }
        proof {
            assert(full.take(i as int + 1).last().0 != name@);
            assert(full.take(i as int + 1).drop_last() =~= full.take(i as int));
        }
    }
    proof {
        assert(full.take(0) =~= Seq::<(Seq<u8>, i64)>::empty());
    }
    None
}

/// The loader generator. Walks the user tree `t` in post-order, appends
/// the loader code to `instrs`, allocates literal slots from `*locals`
/// within the `reserved` budget, and returns the lowered tree. Fails, and
/// only fails, when the tree holds a `LoadedTerm` placeholder, references
/// an undefined variable, holds an over-long literal, or does not fit in
/// the slot budget.
#[verifier::rlimit(60)]
pub fn int_build_loader(
    t: &Term,
    vars: &Vec<(Vec<u8>, i64)>,
    locals: &mut i64,
    reserved: i64,
    instrs: &mut Vec<Instr>,
) -> (r: Result<Term, CompileError>)
    requires
        0 <= *old(locals) <= reserved,
        reserved <= 0x7fff_ffff,
    ensures
        (r is Ok <==> user_term(t@) && !has_undef_var(t@, vars_view(vars@)) && !has_long_literal(
            t@,
        ) && spec_lower(t@, *old(locals) as int, vars_view(vars@)).1 <= reserved),
        r matches Ok(t2) ==> {
            let (lt, c2, code) = spec_lower(t@, *old(locals) as int, vars_view(vars@));
            &&& t2@ == lt
            &&& *final(locals) == c2
            &&& final(instrs)@ == old(instrs)@ + code
        },
        *final(locals) >= *old(locals),
        r matches Err(e) ==> (e == CompileError::AlreadyLoaded || e == CompileError::UndefinedVariable
            || e == CompileError::StringTooLong || e == CompileError::CapacityExceeded),
    decreases t,
{
    let ghost vview = vars_view(vars@);
    match t {
        Term::Int(v) => {
            if *locals >= reserved {
                return Err(CompileError::CapacityExceeded);
            }
            let slot: i64 = *locals;
            *locals = *locals + 1;
            instrs.push(Instr::GetLocal(IDX_STATE));
            instrs.push(Instr::I64Const(slot));
            instrs.push(Instr::I64Const(*v));
            instrs.push(Instr::Call(FUN_MAKE_I64));
            instrs.push(Instr::Drop);
            proof {
                assert(instrs@ =~= old(instrs)@ + load_i64_code(slot as int, *v));
            }
            Ok(Term::LoadedTerm(slot))
        },
        Term::Float(b) => {
            if *locals >= reserved {
                return Err(CompileError::CapacityExceeded);
            }
            let slot: i64 = *locals;
            *locals = *locals + 1;
            instrs.push(Instr::GetLocal(IDX_STATE));
            instrs.push(Instr::I64Const(slot));
            instrs.push(Instr::F64Const(*b));
            instrs.push(Instr::Call(FUN_MAKE_F64));
            instrs.push(Instr::Drop);
            proof {
                assert(instrs@ =~= old(instrs)@ + load_f64_code(slot as int, *b));
            }
            Ok(Term::LoadedTerm(slot))
        },
        Term::String(s) => {
            if s.len() > MAX_LITERAL_LEN {
                return Err(CompileError::StringTooLong);
            }
            if *locals >= reserved {
                return Err(CompileError::CapacityExceeded);
            }
            let slot: i64 = *locals;
            *locals = *locals + 1;
            emit_alloc_string(s.len(), instrs);
            emit_store_bytes(s, instrs);
            instrs.push(Instr::GetLocal(IDX_STATE));
            instrs.push(Instr::I64Const(slot));
            instrs.push(Instr::GetLocal(IDX_STRING));
            instrs.push(Instr::I32Const(s.len() as i32));
            instrs.push(Instr::Call(FUN_MAKE_STRING));
            instrs.push(Instr::Drop);
            proof {
                assert(instrs@ =~= old(instrs)@ + load_string_code(slot as int, s@));
            }
            Ok(Term::LoadedTerm(slot))
        },
        Term::Regex(s) => {
            if s.len() > MAX_LITERAL_LEN {
                return Err(CompileError::StringTooLong);
            }
            if *locals >= reserved {
                return Err(CompileError::CapacityExceeded);
            }
            let slot: i64 = *locals;
            *locals = *locals + 1;
            emit_alloc_string(s.len(), instrs);
            emit_store_bytes(s, instrs);
            instrs.push(Instr::GetLocal(IDX_STATE));
            instrs.push(Instr::I64Const(slot));
            instrs.push(Instr::I64Const(0));
            instrs.push(Instr::GetLocal(IDX_STRING));
            instrs.push(Instr::I32Const(s.len() as i32));
            instrs.push(Instr::Call(FUN_MAKE_REGEX));
            instrs.push(Instr::Drop);
            proof {
                assert(instrs@ =~= old(instrs)@ + load_regex_code(slot as int, s@));
            }
            Ok(Term::LoadedTerm(slot))
        },
        Term::Variable(n) => {
            match exec_lookup_var(vars, n) {
                Some(idx) => {
                    proof {
                        assert(instrs@ =~= old(instrs)@ + Seq::<Instr>::empty());
                    }
                    Ok(Term::LoadedTerm(idx))
                },
                None => Err(CompileError::UndefinedVariable),
            }
        },
        Term::LoadedTerm(_) => Err(CompileError::AlreadyLoaded),
        Term::Not(x) => {
            let x2 = int_build_loader(x, vars, locals, reserved, instrs)?;
            Ok(Term::Not(Box::new(x2)))
        },
        Term::Eq(l, r) => {
            let l2 = match int_build_loader(l, vars, locals, reserved, instrs) {
                Ok(v) => v,
                Err(e) => {
                    proof {
                        lemma_lower_ctr_monotone(
                            r@,
                            spec_lower(l@, *old(locals) as int, vview).1,
                            vview,
                        );
                    }
                    return Err(e);
                },
            };
            let r2 = int_build_loader(r, vars, locals, reserved, instrs)?;
            proof {
                assert(instrs@ =~= old(instrs)@ + spec_lower(t@, *old(locals) as int, vview).2);
            }
            Ok(Term::Eq(Box::new(l2), Box::new(r2)))
        },
        Term::Or(l, r) => {
            let l2 = match int_build_loader(l, vars, locals, reserved, instrs) {
                Ok(v) => v,
                Err(e) => {
                    proof {
                        lemma_lower_ctr_monotone(
                            r@,
                            spec_lower(l@, *old(locals) as int, vview).1,
                            vview,
                        );
                    }
                    return Err(e);
                },
            };
            let r2 = int_build_loader(r, vars, locals, reserved, instrs)?;
            proof {
                assert(instrs@ =~= old(instrs)@ + spec_lower(t@, *old(locals) as int, vview).2);
            }
            Ok(Term::Or(Box::new(l2), Box::new(r2)))
        },
        Term::And(l, r) => {
            let l2 = match int_build_loader(l, vars, locals, reserved, instrs) {
                Ok(v) => v,
                Err(e) => {
                    proof {
                        lemma_lower_ctr_monotone(
                            r@,
                            spec_lower(l@, *old(locals) as int, vview).1,
                            vview,
                        );
                    }
                    return Err(e);
                },
            };
            let r2 = int_build_loader(r, vars, locals, reserved, instrs)?;
            proof {
                assert(instrs@ =~= old(instrs)@ + spec_lower(t@, *old(locals) as int, vview).2);
            }
            Ok(Term::And(Box::new(l2), Box::new(r2)))
        },
        Term::Lt(l, r) => {
            let l2 = match int_build_loader(l, vars, locals, reserved, instrs) {
                Ok(v) => v,
                Err(e) => {
                    proof {
                        lemma_lower_ctr_monotone(
                            r@,
                            spec_lower(l@, *old(locals) as int, vview).1,
                            vview,
                        );
                    }
                    return Err(e);
                },
            };
            let r2 = int_build_loader(r, vars, locals, reserved, instrs)?;
            proof {
                assert(instrs@ =~= old(instrs)@ + spec_lower(t@, *old(locals) as int, vview).2);
            }
            Ok(Term::Lt(Box::new(l2), Box::new(r2)))
        },
        Term::Le(l, r) => {
            let l2 = match int_build_loader(l, vars, locals, reserved, instrs) {
                Ok(v) => v,
                Err(e) => {
                    proof {
                        lemma_lower_ctr_monotone(
                            r@,
                            spec_lower(l@, *old(locals) as int, vview).1,
                            vview,
                        );
                    }
                    return Err(e);
                },
            };
            let r2 = int_build_loader(r, vars, locals, reserved, instrs)?;
            proof {
                assert(instrs@ =~= old(instrs)@ + spec_lower(t@, *old(locals) as int, vview).2);
            }
            Ok(Term::Le(Box::new(l2), Box::new(r2)))
        },
        Term::Gt(l, r) => {
            let l2 = match int_build_loader(l, vars, locals, reserved, instrs) {
                Ok(v) => v,
                Err(e) => {
                    proof {
                        lemma_lower_ctr_monotone(
                            r@,
                            spec_lower(l@, *old(locals) as int, vview).1,
                            vview,
                        );
                    }
                    return Err(e);
                },
            };
            let r2 = int_build_loader(r, vars, locals, reserved, instrs)?;
            proof {
                assert(instrs@ =~= old(instrs)@ + spec_lower(t@, *old(locals) as int, vview).2);
            }
            Ok(Term::Gt(Box::new(l2), Box::new(r2)))
        },
        Term::Ge(l, r) => {
            let l2 = match int_build_loader(l, vars, locals, reserved, instrs) {
                Ok(v) => v,
                Err(e) => {
                    proof {
                        lemma_lower_ctr_monotone(
                            r@,
                            spec_lower(l@, *old(locals) as int, vview).1,
                            vview,
                        );
                    }
                    return Err(e);
                },
            };
            let r2 = int_build_loader(r, vars, locals, reserved, instrs)?;
            proof {
                assert(instrs@ =~= old(instrs)@ + spec_lower(t@, *old(locals) as int, vview).2);
            }
            Ok(Term::Ge(Box::new(l2), Box::new(r2)))
        },
    }
}

/// Append the scratch-buffer allocation code for a `len`-byte literal.
fn emit_alloc_string(len: usize, instrs: &mut Vec<Instr>)
    requires
        len <= MAX_LITERAL_LEN,
    ensures
        final(instrs)@ == old(instrs)@ + alloc_string_code(len as int),
{
    instrs.push(Instr::I32Const(len as i32));
    instrs.push(Instr::Call(FUN_ALLOC_STRING));
    instrs.push(Instr::TeeLocal(IDX_STRING));
    instrs.push(Instr::Call(FUN_GET_STRING_BUF));
    instrs.push(Instr::SetLocal(IDX_MEM_BUF_PTR));
    proof {
        assert(instrs@ =~= old(instrs)@ + alloc_string_code(len as int));
    }
}

/// Append the byte-by-byte copy of a literal into the scratch buffer.
fn emit_store_bytes(s: &Vec<u8>, instrs: &mut Vec<Instr>)
    requires
        s@.len() <= MAX_LITERAL_LEN,
    ensures
        final(instrs)@ == old(instrs)@ + store_bytes_code(s@),
{
    let mut i: usize = 0;
    proof {
        assert(store_bytes_code(s@.take(0)) =~= Seq::<Instr>::empty());
        assert(instrs@ =~= old(instrs)@ + store_bytes_code(s@.take(0)));
    }
    while i < s.len()
        invariant
            0 <= i <= s@.len(),
            s@.len() <= MAX_LITERAL_LEN,
            instrs@ == old(instrs)@ + store_bytes_code(s@.take(i as int)),
        decreases s@.len() - i,
    {
        instrs.push(Instr::GetLocal(IDX_MEM_BUF_PTR));
        instrs.push(Instr::I32Const(s[i] as i32));
        instrs.push(Instr::I32Store8 { align: 0, offset: i as u32 });
        proof {
            let tk = s@.take(i as int + 1);
            assert(tk.drop_last() =~= s@.take(i as int));
            assert(tk.last() == s@[i as int]);
            assert(instrs@ =~= old(instrs)@ + store_bytes_code(tk));
        }
        i += 1;
    }
    proof {
        assert(s@.take(s@.len() as int) =~= s@);
    }
}

/// Whether the evaluator generator accepts a tree: every leaf is a
/// `LoadedTerm` and only the supported operators occur.
pub open spec fn eval_gen_ok(t: TermV) -> bool
    decreases t,
{
    match t {
        TermV::LoadedTerm(_) => true,
        TermV::Not(x) => eval_gen_ok(*x),
        TermV::Eq(l, r) => eval_gen_ok(*l) && eval_gen_ok(*r),
        TermV::Or(l, r) => eval_gen_ok(*l) && eval_gen_ok(*r),
        TermV::And(l, r) => eval_gen_ok(*l) && eval_gen_ok(*r),
        _ => false,
    }
}

/// The evaluator code of a lowered tree: each node pushes the state
/// local, emits its children — each child leaves a slot index on the
/// operand stack — and calls the matching runtime primitive. Both sides
/// of `And` and `Or` are always materialized: the code of both children
/// is always present, so there is no short-circuiting.
pub open spec fn spec_eval_code(t: TermV) -> Seq<Instr>
    decreases t,
{
    match t {
        TermV::LoadedTerm(i) => seq![Instr::I64Const(i)],
        TermV::Not(x) => seq![Instr::GetLocal(IDX_STATE)] + spec_eval_code(*x) + seq![
            Instr::Call(FUN_RTL_NOT),
        ],
        TermV::Eq(l, r) => seq![Instr::GetLocal(IDX_STATE)] + spec_eval_code(*l) + spec_eval_code(
            *r,
        ) + seq![Instr::Call(FUN_RTL_EQ)],
        TermV::Or(l, r) => seq![Instr::GetLocal(IDX_STATE)] + spec_eval_code(*l) + spec_eval_code(
            *r,
        ) + seq![Instr::Call(FUN_RTL_OR)],
        TermV::And(l, r) => seq![Instr::GetLocal(IDX_STATE)] + spec_eval_code(*l) + spec_eval_code(
            *r,
        ) + seq![Instr::Call(FUN_RTL_AND)],
        _ => Seq::empty(),
    }
}

/// The evaluator generator. Appends the evaluator code of the lowered
/// tree to `instrs`. Fails, and only fails, when a raw literal or
/// variable reaches it or an unsupported comparison operator occurs.
pub fn int_compile(t: &Term, instrs: &mut Vec<Instr>) -> (r: Result<(), CompileError>)
    ensures
        (r is Ok <==> eval_gen_ok(t@)),
        r is Ok ==> final(instrs)@ == old(instrs)@ + spec_eval_code(t@),
        r matches Err(e) ==> (e == CompileError::MalformedAst || e
            == CompileError::UnsupportedOperator),
    decreases t,
{
    match t {
        Term::LoadedTerm(i) => {
            instrs.push(Instr::I64Const(*i));
            proof {
                assert(instrs@ =~= old(instrs)@ + spec_eval_code(t@));
            }
            Ok(())
        },
        Term::Not(x) => {
            instrs.push(Instr::GetLocal(IDX_STATE));
            int_compile(x, instrs)?;
            instrs.push(Instr::Call(FUN_RTL_NOT));
            proof {
                assert(instrs@ =~= old(instrs)@ + spec_eval_code(t@));
            }
            Ok(())
        },
        Term::Eq(l, r) => {
            instrs.push(Instr::GetLocal(IDX_STATE));
            int_compile(l, instrs)?;
            int_compile(r, instrs)?;
            instrs.push(Instr::Call(FUN_RTL_EQ));
            proof {
                assert(instrs@ =~= old(instrs)@ + spec_eval_code(t@));
            }
            Ok(())
        },
        Term::Or(l, r) => {
            instrs.push(Instr::GetLocal(IDX_STATE));
            int_compile(l, instrs)?;
            int_compile(r, instrs)?;
            instrs.push(Instr::Call(FUN_RTL_OR));
            proof {
                assert(instrs@ =~= old(instrs)@ + spec_eval_code(t@));
            }
            Ok(())
        },
        Term::And(l, r) => {
            instrs.push(Instr::GetLocal(IDX_STATE));
            int_compile(l, instrs)?;
            int_compile(r, instrs)?;
            instrs.push(Instr::Call(FUN_RTL_AND));
            proof {
                assert(instrs@ =~= old(instrs)@ + spec_eval_code(t@));
            }
            Ok(())
        },
        Term::Lt(_, _) => Err(CompileError::UnsupportedOperator),
        Term::Le(_, _) => Err(CompileError::UnsupportedOperator),
        Term::Gt(_, _) => Err(CompileError::UnsupportedOperator),
        Term::Ge(_, _) => Err(CompileError::UnsupportedOperator),
        _ => Err(CompileError::MalformedAst),
    }
}

} // verus!
