use wormula::codegen::{int_build_loader, int_compile, Instr};
use wormula::evaluator::Context;
use wormula::parse::parse;
use wormula::term::Term;

#[test]
fn assembled_module_is_valid_bytecode() {
    let mut context = Context::new();
    context.define_var("name");
    let (ast, _) = parse("name == \"alice\" and name != /bob+/").unwrap();
    let cf = context.compile(&ast).unwrap();
    let bytes = cf.module_bytes();
    wasmparser::validate(&bytes).expect("module validates");
}

#[test]
fn module_starts_with_magic_and_version() {
    let mut context = Context::new();
    let (ast, _) = parse("1 == 1").unwrap();
    let cf = context.compile(&ast).unwrap();
    let bytes = cf.module_bytes();
    assert_eq!(&bytes[0..8], &[0x00, 0x61, 0x73, 0x6d, 0x01, 0x00, 0x00, 0x00]);
}

#[test]
fn module_exports_load_eval_cleanup() {
    let mut context = Context::new();
    let (ast, _) = parse("1 == 1").unwrap();
    let cf = context.compile(&ast).unwrap();
    let bytes = cf.module_bytes();
    let mut saw_load = false;
    let mut saw_eval = false;
    let mut saw_cleanup = false;
    for payload in wasmparser::Parser::new(0).parse_all(&bytes) {
        if let wasmparser::Payload::ExportSection(reader) = payload.unwrap() {
            for e in reader {
                let e = e.unwrap();
                match e.name {
                    "load" => saw_load = true,
                    "eval" => saw_eval = true,
                    "cleanup" => saw_cleanup = true,
                    _ => {}
                }
            }
        }
    }
    assert!(saw_load && saw_eval && saw_cleanup);
}

#[test]
fn conjunction_code_holds_both_operands() {
    let lowered = Term::And(
        Box::new(Term::LoadedTerm(1)),
        Box::new(Term::LoadedTerm(2)),
    );
    let mut instrs: Vec<Instr> = Vec::new();
    int_compile(&lowered, &mut instrs).unwrap();
    assert_eq!(
        instrs,
        vec![
            Instr::GetLocal(0),
            Instr::I64Const(1),
            Instr::I64Const(2),
            Instr::Call(6),
        ]
    );
}

#[test]
fn disjunction_code_holds_both_operands() {
    let lowered = Term::Or(
        Box::new(Term::LoadedTerm(3)),
        Box::new(Term::LoadedTerm(4)),
    );
    let mut instrs: Vec<Instr> = Vec::new();
    int_compile(&lowered, &mut instrs).unwrap();
    assert_eq!(
        instrs,
        vec![
            Instr::GetLocal(0),
            Instr::I64Const(3),
            Instr::I64Const(4),
            Instr::Call(7),
        ]
    );
}

#[test]
fn eval_generator_rejects_raw_literals() {
    let mut instrs: Vec<Instr> = Vec::new();
    assert!(int_compile(&Term::Int(1), &mut instrs).is_err());
    let mut instrs: Vec<Instr> = Vec::new();
    assert!(int_compile(
        &Term::Gt(Box::new(Term::LoadedTerm(1)), Box::new(Term::LoadedTerm(2))),
        &mut instrs
    )
    .is_err());
}

#[test]
fn loader_code_for_integer_literal() {
    let vars: Vec<(Vec<u8>, i64)> = Vec::new();
    let mut locals: i64 = 1;
    let mut instrs: Vec<Instr> = Vec::new();
    let lowered =
        int_build_loader(&Term::Int(42), &vars, &mut locals, 1000, &mut instrs).unwrap();
    assert!(matches!(lowered, Term::LoadedTerm(1)));
    assert_eq!(locals, 2);
    assert_eq!(
        instrs,
        vec![
            Instr::GetLocal(0),
            Instr::I64Const(1),
            Instr::I64Const(42),
            Instr::Call(2),
            Instr::Drop,
        ]
    );
}

#[test]
fn loader_code_for_string_literal() {
    let vars: Vec<(Vec<u8>, i64)> = Vec::new();
    let mut locals: i64 = 1;
    let mut instrs: Vec<Instr> = Vec::new();
    let t = Term::String(b"ab".to_vec());
    int_build_loader(&t, &vars, &mut locals, 1000, &mut instrs).unwrap();
    assert_eq!(
        instrs,
        vec![
            Instr::I32Const(2),
            Instr::Call(9),
            Instr::TeeLocal(3),
            Instr::Call(10),
            Instr::SetLocal(2),
            Instr::GetLocal(2),
            Instr::I32Const(97),
            Instr::I32Store8 { align: 0, offset: 0 },
            Instr::GetLocal(2),
            Instr::I32Const(98),
            Instr::I32Store8 { align: 0, offset: 1 },
            Instr::GetLocal(0),
            Instr::I64Const(1),
            Instr::GetLocal(3),
            Instr::I32Const(2),
            Instr::Call(11),
            Instr::Drop,
        ]
    );
}

#[test]
fn negative_immediates_encode_to_valid_bytecode() {
    let mut context = Context::new();
    let ast = Term::Eq(
        Box::new(Term::Int(-300)),
        Box::new(Term::Int(i64::MIN)),
    );
    let cf = context.compile(&ast).unwrap();
    wasmparser::validate(&cf.module_bytes()).expect("module validates");
    let inst = cf.instantiate();
    assert!(!inst.run());
}
