//! The module assembler: packages the generated code into a binary
//! bytecode module with the fixed import order, the three functions
//! `load` (13), `eval` (14) and `cleanup` (15), their exports, and the
//! locals the loader declares.
//!
//! The fixed parts of the module — the type, import, function and export
//! sections — are constant byte strings; only the code section depends
//! on the generated instructions. Sizes and immediates are encoded in
//! LEB128.

use vstd::prelude::*;

use crate::codegen::Instr;

verus! {

/// The binary header: magic and version.
pub const MODULE_HEADER: [u8; 8] = [0x00, 0x61, 0x73, 0x6d, 0x01, 0x00, 0x00, 0x00];

/// The type section content: the signatures of the thirteen imports and
/// of `load`, `eval` and `cleanup`, in index order.
pub const TYPE_CONTENT: [u8; 97] = [0x10, 0x60, 0x01, 0x7e, 0x01, 0x7f, 0x60, 0x01, 0x7f, 0x00, 0x60, 0x03, 0x7f, 0x7e, 0x7e, 0x01, 0x7e, 0x60, 0x03, 0x7f, 0x7e, 0x7c, 0x01, 0x7e, 0x60, 0x03, 0x7f, 0x7e, 0x7e, 0x01, 0x7e, 0x60, 0x02, 0x7f, 0x7e, 0x01, 0x7f, 0x60, 0x03, 0x7f, 0x7e, 0x7e, 0x01, 0x7e, 0x60, 0x03, 0x7f, 0x7e, 0x7e, 0x01, 0x7e, 0x60, 0x02, 0x7f, 0x7e, 0x01, 0x7e, 0x60, 0x01, 0x7f, 0x01, 0x7f, 0x60, 0x01, 0x7f, 0x01, 0x7f, 0x60, 0x04, 0x7f, 0x7e, 0x7f, 0x7f, 0x01, 0x7e, 0x60, 0x05, 0x7f, 0x7e, 0x7e, 0x7f, 0x7f, 0x01, 0x7e, 0x60, 0x00, 0x01, 0x7f, 0x60, 0x01, 0x7f, 0x01, 0x7f, 0x60, 0x01, 0x7f, 0x00];

pub const IMPORT_CONTENT: [u8; 283] = [0x0e, 0x07, 0x77, 0x6f, 0x72, 0x6d, 0x72, 0x74, 0x6c, 0x0a, 0x6d, 0x61, 0x6b, 0x65, 0x5f, 0x73, 0x74, 0x61, 0x74, 0x65, 0x00, 0x00, 0x07, 0x77, 0x6f, 0x72, 0x6d, 0x72, 0x74, 0x6c, 0x0a, 0x66, 0x72, 0x65, 0x65, 0x5f, 0x73, 0x74, 0x61, 0x74, 0x65, 0x00, 0x01, 0x07, 0x77, 0x6f, 0x72, 0x6d, 0x72, 0x74, 0x6c, 0x08, 0x6d, 0x61, 0x6b, 0x65, 0x5f, 0x69, 0x36, 0x34, 0x00, 0x02, 0x07, 0x77, 0x6f, 0x72, 0x6d, 0x72, 0x74, 0x6c, 0x08, 0x6d, 0x61, 0x6b, 0x65, 0x5f, 0x66, 0x36, 0x34, 0x00, 0x03, 0x07, 0x77, 0x6f, 0x72, 0x6d, 0x72, 0x74, 0x6c, 0x06, 0x72, 0x74, 0x6c, 0x5f, 0x65, 0x71, 0x00, 0x04, 0x07, 0x77, 0x6f, 0x72, 0x6d, 0x72, 0x74, 0x6c, 0x0c, 0x72, 0x74, 0x6c, 0x5f, 0x67, 0x65, 0x74, 0x5f, 0x62, 0x6f, 0x6f, 0x6c, 0x00, 0x05, 0x07, 0x77, 0x6f, 0x72, 0x6d, 0x72, 0x74, 0x6c, 0x07, 0x72, 0x74, 0x6c, 0x5f, 0x61, 0x6e, 0x64, 0x00, 0x06, 0x07, 0x77, 0x6f, 0x72, 0x6d, 0x72, 0x74, 0x6c, 0x06, 0x72, 0x74, 0x6c, 0x5f, 0x6f, 0x72, 0x00, 0x07, 0x07, 0x77, 0x6f, 0x72, 0x6d, 0x72, 0x74, 0x6c, 0x07, 0x72, 0x74, 0x6c, 0x5f, 0x6e, 0x6f, 0x74, 0x00, 0x08, 0x07, 0x77, 0x6f, 0x72, 0x6d, 0x72, 0x74, 0x6c, 0x0c, 0x61, 0x6c, 0x6c, 0x6f, 0x63, 0x5f, 0x73, 0x74, 0x72, 0x69, 0x6e, 0x67, 0x00, 0x09, 0x07, 0x77, 0x6f, 0x72, 0x6d, 0x72, 0x74, 0x6c, 0x0e, 0x67, 0x65, 0x74, 0x5f, 0x73, 0x74, 0x72, 0x69, 0x6e, 0x67, 0x5f, 0x62, 0x75, 0x66, 0x00, 0x0a, 0x07, 0x77, 0x6f, 0x72, 0x6d, 0x72, 0x74, 0x6c, 0x0b, 0x6d, 0x61, 0x6b, 0x65, 0x5f, 0x73, 0x74, 0x72, 0x69, 0x6e, 0x67, 0x00, 0x0b, 0x07, 0x77, 0x6f, 0x72, 0x6d, 0x72, 0x74, 0x6c, 0x0a, 0x6d, 0x61, 0x6b, 0x65, 0x5f, 0x72, 0x65, 0x67, 0x65, 0x78, 0x00, 0x0c, 0x07, 0x77, 0x6f, 0x72, 0x6d, 0x72, 0x74, 0x6c, 0x06, 0x6d, 0x65, 0x6d, 0x6f, 0x72, 0x79, 0x02, 0x00, 0x00];

pub const FUNCTION_CONTENT: [u8; 4] = [0x03, 0x0d, 0x0e, 0x0f];

pub const EXPORT_CONTENT: [u8; 25] = [0x03, 0x04, 0x6c, 0x6f, 0x61, 0x64, 0x00, 0x0d, 0x04, 0x65, 0x76, 0x61, 0x6c, 0x00, 0x0e, 0x07, 0x63, 0x6c, 0x65, 0x61, 0x6e, 0x75, 0x70, 0x00, 0x0f];

/// The locals declaration of `load`: four i32 scratch locals (state,
/// result, buffer pointer, string handle) and one i64 local.
pub const LOAD_LOCALS: [u8; 5] = [0x02, 0x04, 0x7f, 0x01, 0x7e];

/// The locals declaration of a function without locals of its own.
pub const NO_LOCALS: [u8; 1] = [0x00];

/// Unsigned LEB128.
pub open spec fn spec_uleb(v: int) -> Seq<u8>
    decreases v,
{
    if v < 128 {
        seq![v as u8]
    } else {
        seq![(v % 128 + 128) as u8] + spec_uleb(v / 128)
    }
}

/// Signed LEB128 of a mathematical integer.
pub open spec fn spec_sleb(v: int) -> Seq<u8>
    decreases (if v < 0 { -1 - v } else { v }),
{
    let b = v % 128;
    let rest = v / 128;
    if (rest == 0 && b < 64) || (rest == -1 && b >= 64) {
        seq![b as u8]
    } else {
        seq![(b + 128) as u8] + spec_sleb(rest)
    }
}

/// The eight bytes of a 64-bit pattern, little endian.
pub open spec fn spec_le8(b: u64) -> Seq<u8> {
    seq![
        (b & 0xff) as u8,
        ((b >> 8) & 0xff) as u8,
        ((b >> 16) & 0xff) as u8,
        ((b >> 24) & 0xff) as u8,
        ((b >> 32) & 0xff) as u8,
        ((b >> 40) & 0xff) as u8,
        ((b >> 48) & 0xff) as u8,
        ((b >> 56) & 0xff) as u8,
    ]
}

/// The encoding of one instruction.
pub open spec fn instr_bytes(i: Instr) -> Seq<u8> {
    match i {
        Instr::GetLocal(x) => seq![0x20u8] + spec_uleb(x as int),
        Instr::SetLocal(x) => seq![0x21u8] + spec_uleb(x as int),
        Instr::TeeLocal(x) => seq![0x22u8] + spec_uleb(x as int),
        Instr::I32Const(v) => seq![0x41u8] + spec_sleb(v as int),
        Instr::I64Const(v) => seq![0x42u8] + spec_sleb(v as int),
        Instr::F64Const(b) => seq![0x44u8] + spec_le8(b),
        Instr::I32Store8 { align, offset } => seq![0x3au8] + spec_uleb(align as int) + spec_uleb(
            offset as int,
        ),
        Instr::Call(f) => seq![0x10u8] + spec_uleb(f as int),
        Instr::Drop => seq![0x1au8],
        Instr::End => seq![0x0bu8],
    }
}

/// The encoding of an instruction sequence.
pub open spec fn code_bytes(s: Seq<Instr>) -> Seq<u8>
    decreases s.len(),
{
    if s.len() == 0 {
        Seq::empty()
    } else {
        code_bytes(s.drop_last()) + instr_bytes(s.last())
    }
}

/// A section: its id, the size of its content, the content.
pub open spec fn section_bytes(id: u8, content: Seq<u8>) -> Seq<u8> {
    seq![id] + spec_uleb(content.len() as int) + content
}

/// A code-section function entry: the size of the body, the locals
/// declaration, the code.
pub open spec fn func_entry_bytes(locals: Seq<u8>, code: Seq<Instr>) -> Seq<u8> {
    let body = locals + code_bytes(code);
    spec_uleb(body.len() as int) + body
}

/// The code section content: three bodies, for `load`, `eval` and
/// `cleanup`.
pub open spec fn code_content_bytes(load: Seq<Instr>, eval: Seq<Instr>, cleanup: Seq<Instr>) -> Seq<
    u8,
> {
    seq![0x03u8] + func_entry_bytes(LOAD_LOCALS@, load) + func_entry_bytes(NO_LOCALS@, eval)
        + func_entry_bytes(NO_LOCALS@, cleanup)
}

/// The whole module.
pub open spec fn spec_module_bytes(load: Seq<Instr>, eval: Seq<Instr>, cleanup: Seq<Instr>) -> Seq<
    u8,
> {
    MODULE_HEADER@ + section_bytes(1, TYPE_CONTENT@) + section_bytes(2, IMPORT_CONTENT@)
        + section_bytes(3, FUNCTION_CONTENT@) + section_bytes(7, EXPORT_CONTENT@) + section_bytes(
        10,
        code_content_bytes(load, eval, cleanup),
    )
}

/// Append a byte string.
fn emit_bytes(out: &mut Vec<u8>, bytes: &[u8])
    ensures
        final(out)@ == old(out)@ + bytes@,
{
    let mut i: usize = 0;
    proof {
        assert(out@ =~= old(out)@ + bytes@.take(0));
    }
    while i < bytes.len()
        invariant
            0 <= i <= bytes@.len(),
            out@ == old(out)@ + bytes@.take(i as int),
        decreases bytes@.len() - i,
    {
        out.push(bytes[i]);
        proof {
            assert(bytes@.take(i as int + 1).drop_last() =~= bytes@.take(i as int));
            assert(out@ =~= old(out)@ + bytes@.take(i as int + 1));
        }
        i += 1;
    }
    proof {
        assert(bytes@.take(bytes@.len() as int) =~= bytes@);
    }
}

/// Append the unsigned LEB128 of a length.
fn emit_uleb_usize(out: &mut Vec<u8>, v: usize)
    ensures
        final(out)@ == old(out)@ + spec_uleb(v as int),
    decreases v,
{
    if v < 128 {
        out.push(v as u8);
        proof {
            assert(out@ =~= old(out)@ + spec_uleb(v as int));
        }
    } else {
        out.push((v % 128 + 128) as u8);
        emit_uleb_usize(out, v / 128);
        proof {
            assert(out@ =~= old(out)@ + spec_uleb(v as int));
        }
    }
}

/// Append the unsigned LEB128 of a 32-bit immediate.
fn emit_uleb32(out: &mut Vec<u8>, v: u32)
    ensures
        final(out)@ == old(out)@ + spec_uleb(v as int),
    decreases v,
{
    if v < 128 {
        out.push(v as u8);
        proof {
            assert(out@ =~= old(out)@ + spec_uleb(v as int));
        }
    } else {
        out.push((v % 128 + 128) as u8);
        emit_uleb32(out, v / 128);
        proof {
            assert(out@ =~= old(out)@ + spec_uleb(v as int));
        }
    }
}

/// Append the signed LEB128 of a 64-bit immediate.
fn emit_sleb64(out: &mut Vec<u8>, v: i64)
    ensures
        final(out)@ == old(out)@ + spec_sleb(v as int),
    decreases (if v < 0 { -1 - v as int } else { v as int }),
{
    let b: u8;
    let rest: i64;
    if v >= 0 {
        b = (v % 128) as u8;
        rest = v / 128;
    } else {
        let m = v % 128;
        if m == 0 {
            b = 0;
            rest = v / 128;
        } else {
            b = (m + 128) as u8;
            rest = v / 128 - 1;
        }
    }
    proof {
        assert(v as int == rest as int * 128 + b as int);
        assert(v as int % 128 == b as int);
        assert(v as int / 128 == rest as int);
    }
    if (rest == 0 && b < 64) || (rest == -1 && b >= 64) {
        out.push(b);
        proof {
            assert(out@ =~= old(out)@ + spec_sleb(v as int));
        }
    } else {
        out.push(b + 128);
        emit_sleb64(out, rest);
        proof {
            assert(out@ =~= old(out)@ + spec_sleb(v as int));
        }
    }
}

/// Append the signed LEB128 of a 32-bit immediate.
fn emit_sleb32(out: &mut Vec<u8>, v: i32)
    ensures
        final(out)@ == old(out)@ + spec_sleb(v as int),
    decreases (if v < 0 { -1 - v as int } else { v as int }),
{
    let b: u8;
    let rest: i32;
    if v >= 0 {
        b = (v % 128) as u8;
        rest = v / 128;
    } else {
        let m = v % 128;
        if m == 0 {
            b = 0;
            rest = v / 128;
        } else {
            b = (m + 128) as u8;
            rest = v / 128 - 1;
        }
    }
    proof {
        assert(v as int == rest as int * 128 + b as int);
        assert(v as int % 128 == b as int);
        assert(v as int / 128 == rest as int);
    }
    if (rest == 0 && b < 64) || (rest == -1 && b >= 64) {
        out.push(b);
        proof {
            assert(out@ =~= old(out)@ + spec_sleb(v as int));
        }
    } else {
        out.push(b + 128);
        emit_sleb32(out, rest);
        proof {
            assert(out@ =~= old(out)@ + spec_sleb(v as int));
        }
    }
}

/// Append one instruction's encoding.
fn emit_instr(out: &mut Vec<u8>, i: &Instr)
    ensures
        final(out)@ == old(out)@ + instr_bytes(*i),
{
    match i {
        Instr::GetLocal(x) => {
            out.push(0x20);
            emit_uleb32(out, *x);
        },
        Instr::SetLocal(x) => {
            out.push(0x21);
            emit_uleb32(out, *x);
        },
        Instr::TeeLocal(x) => {
            out.push(0x22);
            emit_uleb32(out, *x);
        },
        Instr::I32Const(v) => {
            out.push(0x41);
            emit_sleb32(out, *v);
        },
        Instr::I64Const(v) => {
            out.push(0x42);
            emit_sleb64(out, *v);
        },
        Instr::F64Const(b) => {
            out.push(0x44);
            out.push((*b & 0xff) as u8);
            out.push(((*b >> 8) & 0xff) as u8);
            out.push(((*b >> 16) & 0xff) as u8);
            out.push(((*b >> 24) & 0xff) as u8);
            out.push(((*b >> 32) & 0xff) as u8);
            out.push(((*b >> 40) & 0xff) as u8);
            out.push(((*b >> 48) & 0xff) as u8);
            out.push(((*b >> 56) & 0xff) as u8);
        },
        Instr::I32Store8 { align, offset } => {
            out.push(0x3a);
            emit_uleb32(out, *align);
            emit_uleb32(out, *offset);
        },
        Instr::Call(f) => {
            out.push(0x10);
            emit_uleb32(out, *f);
        },
        Instr::Drop => {
            out.push(0x1a);
        },
        Instr::End => {
            out.push(0x0b);
        },
    }
    proof {
        assert(out@ =~= old(out)@ + instr_bytes(*i));
    }
}

/// Append the encoding of an instruction sequence.
fn emit_code(out: &mut Vec<u8>, code: &Vec<Instr>)
    ensures
        final(out)@ == old(out)@ + code_bytes(code@),
{
    let mut i: usize = 0;
    proof {
        assert(code_bytes(code@.take(0)) =~= Seq::<u8>::empty());
        assert(out@ =~= old(out)@ + code_bytes(code@.take(0)));
    }
    while i < code.len()
        invariant
            0 <= i <= code@.len(),
            out@ == old(out)@ + code_bytes(code@.take(i as int)),
        decreases code@.len() - i,
    {
        emit_instr(out, &code[i]);
        proof {
            assert(code@.take(i as int + 1).drop_last() =~= code@.take(i as int));
            assert(code@.take(i as int + 1).last() == code@[i as int]);
            assert(out@ =~= old(out)@ + code_bytes(code@.take(i as int + 1)));
        }
        i += 1;
    }
    proof {
        assert(code@.take(code@.len() as int) =~= code@);
    }
}

/// Append a whole section.
fn emit_section(out: &mut Vec<u8>, id: u8, content: &Vec<u8>)
    ensures
        final(out)@ == old(out)@ + section_bytes(id, content@),
{
    out.push(id);
    emit_uleb_usize(out, content.len());
    emit_bytes(out, content.as_slice());
    proof {
        assert(out@ =~= old(out)@ + section_bytes(id, content@));
    }
}

/// Append a code-section function entry.
fn emit_func_entry(out: &mut Vec<u8>, locals: &[u8], code: &Vec<Instr>)
    ensures
        final(out)@ == old(out)@ + func_entry_bytes(locals@, code@),
{
    let mut body: Vec<u8> = Vec::new();
    emit_bytes(&mut body, locals);
    emit_code(&mut body, code);
    emit_uleb_usize(out, body.len());
    emit_bytes(out, body.as_slice());
    proof {
        assert(out@ =~= old(out)@ + func_entry_bytes(locals@, code@));
    }
}

/// Assemble the bytecode module holding the three generated functions,
/// the fixed imports and the exports.
pub fn assemble_module(
    load_code: &Vec<Instr>,
    eval_code: &Vec<Instr>,
    cleanup_code: &Vec<Instr>,
) -> (r: Vec<u8>)
    ensures
        r@ == spec_module_bytes(load_code@, eval_code@, cleanup_code@),
{
    let mut out: Vec<u8> = Vec::new();
    emit_bytes(&mut out, &MODULE_HEADER);
    let mut tc: Vec<u8> = Vec::new();
    emit_bytes(&mut tc, &TYPE_CONTENT);
    emit_section(&mut out, 1, &tc);
    let mut ic: Vec<u8> = Vec::new();
    emit_bytes(&mut ic, &IMPORT_CONTENT);
    emit_section(&mut out, 2, &ic);
    let mut fc: Vec<u8> = Vec::new();
    emit_bytes(&mut fc, &FUNCTION_CONTENT);
    emit_section(&mut out, 3, &fc);
    let mut ec: Vec<u8> = Vec::new();
    emit_bytes(&mut ec, &EXPORT_CONTENT);
    emit_section(&mut out, 7, &ec);
    let mut cc: Vec<u8> = Vec::new();
    cc.push(0x03);
    emit_func_entry(&mut cc, &LOAD_LOCALS, load_code);
    emit_func_entry(&mut cc, &NO_LOCALS, eval_code);
    emit_func_entry(&mut cc, &NO_LOCALS, cleanup_code);
    proof {
        assert(cc@ =~= code_content_bytes(load_code@, eval_code@, cleanup_code@));
    }
    emit_section(&mut out, 10, &cc);
    proof {
        assert(out@ =~= spec_module_bytes(load_code@, eval_code@, cleanup_code@));
    }
    out
}

} // verus!
