use wormula::codegen::CompileError;
use wormula::evaluator::Context;
use wormula::parse::parse;
use wormula::term::Term;

#[test]
fn iterations_formula_false_at_one() {
    let mut context = Context::new();
    context.define_var("iterations");
    let formula = "iterations == 0 or iterations == 1000000";
    let (ast, consumed) = parse(formula).unwrap();
    assert_eq!(consumed, formula.len());
    let cf = context.compile(&ast).unwrap();
    let mut inst = cf.instantiate();
    let v = inst.get_variable("iterations").unwrap();
    v.set_f64(&mut inst, 1.0f64.to_bits());
    assert!(!inst.run());
}

#[test]
fn iterations_formula_true_at_million() {
    let mut context = Context::new();
    context.define_var("iterations");
    let formula = "iterations == 0 or iterations == 1000000";
    let (ast, _) = parse(formula).unwrap();
    let cf = context.compile(&ast).unwrap();
    let mut inst = cf.instantiate();
    let v = inst.get_variable("iterations").unwrap();
    v.set_f64(&mut inst, 1000000.0f64.to_bits());
    assert!(inst.run());
}

#[test]
fn string_variable_matches_literal() {
    let mut context = Context::new();
    context.define_var("name");
    let (ast, _) = parse("name == \"alice\"").unwrap();
    let cf = context.compile(&ast).unwrap();
    let mut inst = cf.instantiate();
    let v = inst.get_variable("name").unwrap();
    v.set_string(&mut inst, "alice");
    assert!(inst.run());
}

#[test]
fn string_variable_differs_from_literal() {
    let mut context = Context::new();
    context.define_var("name");
    let (ast, _) = parse("name == \"alice\"").unwrap();
    let cf = context.compile(&ast).unwrap();
    let mut inst = cf.instantiate();
    let v = inst.get_variable("name").unwrap();
    v.set_string(&mut inst, "bob");
    assert!(!inst.run());
}

#[test]
fn not_equal_and_equal_combination() {
    let mut context = Context::new();
    context.define_var("x");
    let (ast, _) = parse("x != 3.0 and x == 4.0").unwrap();
    let cf = context.compile(&ast).unwrap();
    let mut inst = cf.instantiate();
    let v = inst.get_variable("x").unwrap();
    v.set_f64(&mut inst, 4.0f64.to_bits());
    assert!(inst.run());
}

#[test]
fn regex_literal_matches_string_literal() {
    let mut context = Context::new();
    let (ast, _) = parse("/foo/ == \"foobar\"").unwrap();
    let cf = context.compile(&ast).unwrap();
    let inst = cf.instantiate();
    assert!(inst.run());
}

#[test]
fn regex_literal_misses_string_literal() {
    let mut context = Context::new();
    let (ast, _) = parse("/^bar/ == \"foobar\"").unwrap();
    let cf = context.compile(&ast).unwrap();
    let inst = cf.instantiate();
    assert!(!inst.run());
}

#[test]
fn repeated_runs_return_same_boolean() {
    let mut context = Context::new();
    context.define_var("x");
    let (ast, _) = parse("x == 2").unwrap();
    let cf = context.compile(&ast).unwrap();
    let mut inst = cf.instantiate();
    let v = inst.get_variable("x").unwrap();
    v.set_f64(&mut inst, 2.0f64.to_bits());
    let first = inst.run();
    for _ in 0..100 {
        assert_eq!(inst.run(), first);
    }
    assert!(first);
}

#[test]
fn variable_handle_reused_across_runs() {
    let mut context = Context::new();
    context.define_var("i");
    let (ast, _) = parse("i == 0 or i == 50").unwrap();
    let cf = context.compile(&ast).unwrap();
    let mut inst = cf.instantiate();
    let v = inst.get_variable("i").unwrap();
    let mut hits = 0;
    for i in 1..=100 {
        v.set_f64(&mut inst, (i as f64).to_bits());
        if inst.run() {
            hits += 1;
            assert_eq!(i, 50);
        }
    }
    assert_eq!(hits, 1);
}

#[test]
fn setting_one_variable_leaves_others_alone() {
    let mut context = Context::new();
    context.define_var("x");
    context.define_var("y");
    let (ast, _) = parse("y == 2").unwrap();
    let cf = context.compile(&ast).unwrap();
    let mut inst = cf.instantiate();
    let vx = inst.get_variable("x").unwrap();
    let vy = inst.get_variable("y").unwrap();
    vy.set_f64(&mut inst, 2.0f64.to_bits());
    assert!(inst.run());
    vx.set_f64(&mut inst, 9.0f64.to_bits());
    assert!(inst.run());
    vx.set_string(&mut inst, "nine");
    assert!(inst.run());
}

#[test]
fn operators_total_on_mismatched_types() {
    let mut context = Context::new();
    let ast = Term::And(
        Box::new(Term::Int(3)),
        Box::new(Term::String(b"x".to_vec())),
    );
    let cf = context.compile(&ast).unwrap();
    let inst = cf.instantiate();
    assert!(!inst.run());

    let mut context = Context::new();
    context.define_var("x");
    let (ast, _) = parse("x == \"s\"").unwrap();
    let cf = context.compile(&ast).unwrap();
    let mut inst = cf.instantiate();
    let v = inst.get_variable("x").unwrap();
    v.set_i64(&mut inst, 1);
    assert!(!inst.run());
}

#[test]
fn integer_variable_compares_with_int_leaf() {
    let mut context = Context::new();
    context.define_var("n");
    let ast = Term::Eq(
        Box::new(Term::Variable(b"n".to_vec())),
        Box::new(Term::Int(7)),
    );
    let cf = context.compile(&ast).unwrap();
    let mut inst = cf.instantiate();
    let v = inst.get_variable("n").unwrap();
    v.set_i64(&mut inst, 7);
    assert!(inst.run());
    v.set_i64(&mut inst, 8);
    assert!(!inst.run());
}

#[test]
fn unsupported_operator_is_rejected_not_trapped() {
    let mut context = Context::new();
    let ast = Term::Lt(Box::new(Term::Int(1)), Box::new(Term::Int(2)));
    match context.compile(&ast) {
        Err(e) => assert_eq!(e, CompileError::UnsupportedOperator),
        Ok(_) => panic!("expected a compile error"),
    }
}

#[test]
fn undefined_variable_is_a_compile_error() {
    let mut context = Context::new();
    let ast = Term::Variable(b"nope".to_vec());
    match context.compile(&ast) {
        Err(e) => assert_eq!(e, CompileError::UndefinedVariable),
        Ok(_) => panic!("expected a compile error"),
    }
}

#[test]
fn loaded_placeholder_cannot_be_compiled_again() {
    let mut context = Context::new();
    let ast = Term::LoadedTerm(5);
    match context.compile(&ast) {
        Err(e) => assert_eq!(e, CompileError::AlreadyLoaded),
        Ok(_) => panic!("expected a compile error"),
    }
}

#[test]
fn bad_regex_is_a_compile_error() {
    let mut context = Context::new();
    let (ast, _) = parse("/(/ == \"x\"").unwrap();
    match context.compile(&ast) {
        Err(e) => assert_eq!(e, CompileError::RegexError),
        Ok(_) => panic!("expected a compile error"),
    }
}

#[test]
fn slot_budget_is_enforced() {
    let mut context = Context::new();
    let mut ast = Term::Int(0);
    for _ in 0..1000 {
        ast = Term::Eq(Box::new(Term::Int(1)), Box::new(ast));
    }
    match context.compile(&ast) {
        Err(e) => assert_eq!(e, CompileError::CapacityExceeded),
        Ok(_) => panic!("expected a compile error"),
    }
}

#[test]
fn variables_share_slots_across_formulas_of_one_context() {
    let mut context = Context::new();
    context.define_var("x");
    let (a1, _) = parse("x == 1").unwrap();
    let (a2, _) = parse("x == 2").unwrap();
    let c1 = context.compile(&a1).unwrap();
    let c2 = context.compile(&a2).unwrap();
    let mut i1 = c1.instantiate();
    let mut i2 = c2.instantiate();
    let v1 = i1.get_variable("x").unwrap();
    let v2 = i2.get_variable("x").unwrap();
    v1.set_f64(&mut i1, 1.0f64.to_bits());
    v2.set_f64(&mut i2, 2.0f64.to_bits());
    assert!(i1.run());
    assert!(i2.run());
    v2.set_f64(&mut i2, 1.0f64.to_bits());
    assert!(i1.run());
    assert!(!i2.run());
}

#[test]
fn unknown_variable_name_yields_none() {
    let mut context = Context::new();
    context.define_var("x");
    let (ast, _) = parse("x == 1").unwrap();
    let cf = context.compile(&ast).unwrap();
    let inst = cf.instantiate();
    assert!(inst.get_variable("y").is_none());
}
