use wormula::parse::{parse, print_term};
use wormula::term::{term_eq, Term};

fn var(name: &str) -> Term {
    Term::Variable(name.as_bytes().to_vec())
}

#[test]
fn parses_or_of_two_comparisons() {
    let formula = "iterations == 0 or iterations == 1000000";
    let (ast, consumed) = parse(formula).unwrap();
    assert_eq!(consumed, formula.len());
    let expected = Term::Or(
        Box::new(Term::Eq(
            Box::new(var("iterations")),
            Box::new(Term::Float(0.0f64.to_bits())),
        )),
        Box::new(Term::Eq(
            Box::new(var("iterations")),
            Box::new(Term::Float(1000000.0f64.to_bits())),
        )),
    );
    assert!(term_eq(&ast, &expected));
}

#[test]
fn numeric_literals_become_floats() {
    let (ast, consumed) = parse("3.5").unwrap();
    assert_eq!(consumed, 3);
    assert!(term_eq(&ast, &Term::Float(3.5f64.to_bits())));
    let (ast, consumed) = parse("11e-1").unwrap();
    assert_eq!(consumed, 5);
    assert!(term_eq(&ast, &Term::Float(1.1f64.to_bits())));
}

#[test]
fn not_equal_desugars_to_not_eq() {
    let (ast, _) = parse("x != 3.0").unwrap();
    let expected = Term::Not(Box::new(Term::Eq(
        Box::new(var("x")),
        Box::new(Term::Float(3.0f64.to_bits())),
    )));
    assert!(term_eq(&ast, &expected));
}

#[test]
fn string_and_regex_literals() {
    let (ast, _) = parse("\"a b\" == /c+/").unwrap();
    let expected = Term::Eq(
        Box::new(Term::String(b"a b".to_vec())),
        Box::new(Term::Regex(b"c+".to_vec())),
    );
    assert!(term_eq(&ast, &expected));
}

#[test]
fn and_binds_after_comparison() {
    let (ast, _) = parse("a == b and c").unwrap();
    let expected = Term::And(
        Box::new(Term::Eq(Box::new(var("a")), Box::new(var("b")))),
        Box::new(var("c")),
    );
    assert!(term_eq(&ast, &expected));
}

#[test]
fn comparison_right_operand_is_a_full_term() {
    let (ast, _) = parse("a == b == c").unwrap();
    let expected = Term::Eq(
        Box::new(var("a")),
        Box::new(Term::Eq(Box::new(var("b")), Box::new(var("c")))),
    );
    assert!(term_eq(&ast, &expected));
}

#[test]
fn bare_conjunction_stops_at_the_value() {
    let (ast, consumed) = parse("x and y").unwrap();
    assert_eq!(consumed, 1);
    assert!(term_eq(&ast, &var("x")));
}

#[test]
fn empty_input_is_an_error_at_offset_zero() {
    let err = parse("").unwrap_err();
    assert_eq!(err.at, 0);
    let err = parse("==").unwrap_err();
    assert_eq!(err.at, 0);
}

#[test]
fn round_trip_of_printable_trees() {
    let samples = vec![
        var("iterations"),
        Term::String(b"hello world".to_vec()),
        Term::Regex(b"c+".to_vec()),
        Term::Eq(Box::new(var("a")), Box::new(Term::String(b"x".to_vec()))),
        Term::Not(Box::new(Term::Eq(Box::new(var("a")), Box::new(var("b"))))),
        Term::And(
            Box::new(Term::Eq(Box::new(var("a")), Box::new(var("b")))),
            Box::new(var("c")),
        ),
        Term::Or(
            Box::new(Term::Eq(
                Box::new(Term::String(b"s".to_vec())),
                Box::new(Term::Regex(b"t".to_vec())),
            )),
            Box::new(Term::And(
                Box::new(Term::Eq(Box::new(var("x")), Box::new(var("y")))),
                Box::new(var("z")),
            )),
        ),
    ];
    for t in samples {
        let text = print_term(&t).expect("printable");
        let s = String::from_utf8(text).unwrap();
        let (back, consumed) = parse(&s).unwrap();
        assert_eq!(consumed, s.len(), "whole text consumed for {s}");
        assert!(term_eq(&back, &t), "round trip failed for {s}");
    }
}

#[test]
fn printer_rejects_trees_outside_the_grammar() {
    assert!(print_term(&Term::Lt(Box::new(var("a")), Box::new(var("b")))).is_none());
    assert!(print_term(&Term::Not(Box::new(var("a")))).is_none());
    assert!(print_term(&Term::And(Box::new(var("a")), Box::new(var("b")))).is_none());
    assert!(print_term(&Term::Variable(b"3x".to_vec())).is_none());
    assert!(print_term(&Term::Variable(b"inferno".to_vec())).is_none());
    assert!(print_term(&Term::String(b"a\"b".to_vec())).is_none());
    assert!(print_term(&Term::Regex(b"".to_vec())).is_none());
}

#[test]
fn identifier_looking_like_infinity_still_parses_as_number() {
    let (ast, consumed) = parse("inf").unwrap();
    assert_eq!(consumed, 3);
    assert!(term_eq(&ast, &Term::Float(f64::INFINITY.to_bits())));
}
