//! End-to-end tests: one line of source through the lexer, the parser and
//! the interpreter.

use sexpr_lang::ast::Expr;
use sexpr_lang::interp::{EvalError, Interp};
use sexpr_lang::parser::{ParseError, Parser};
use sexpr_lang::value::Value;

fn eval_line(interp: &mut Interp, line: &str) -> Result<Value, EvalError> {
    let mut parser = Parser::new(line.as_bytes());
    let exprs = match parser.parse() {
        Ok(exprs) => exprs,
        Err(err) => panic!("parse of {:?} failed: {:?}", line, err),
    };
    interp.interp(exprs)
}

fn eval_one(line: &str) -> Result<Value, EvalError> {
    let mut interp = Interp::new();
    eval_line(&mut interp, line)
}

fn parse_line(line: &str) -> Result<Vec<Expr>, ParseError> {
    let mut parser = Parser::new(line.as_bytes());
    parser.parse()
}

#[test]
fn plus_no_arguments_is_nil() {
    assert!(matches!(eval_one("(+)"), Ok(Value::Nil)));
}

#[test]
fn plus_folds_all_arguments() {
    assert!(matches!(eval_one("(+ 1 2 3)"), Ok(Value::Int(6))));
}

#[test]
fn minus_folds_left_to_right() {
    assert!(matches!(eval_one("(- 10 3 2)"), Ok(Value::Int(5))));
}

#[test]
fn minus_single_argument_is_identity() {
    assert!(matches!(eval_one("(- 7)"), Ok(Value::Int(7))));
}

#[test]
fn multiply_folds_all_arguments() {
    assert!(matches!(eval_one("(* 2 3 4)"), Ok(Value::Int(24))));
}

#[test]
fn multiply_single_argument_is_identity() {
    assert!(matches!(eval_one("(* 9)"), Ok(Value::Int(9))));
}

#[test]
fn divide_folds_left_to_right() {
    assert!(matches!(eval_one("(/ 24 3 2)"), Ok(Value::Int(4))));
}

#[test]
fn divide_by_zero_is_an_error() {
    assert!(matches!(eval_one("(/ 12 0)"), Err(EvalError::DivisionByZero)));
}

#[test]
fn division_truncates_toward_zero() {
    assert!(matches!(eval_one("(/ (- 0 7) 2)"), Ok(Value::Int(-3))));
}

#[test]
fn minus_zero_arguments_is_nil() {
    assert!(matches!(eval_one("(-)"), Ok(Value::Nil)));
}

#[test]
fn nested_forms_evaluate_inside_out() {
    assert!(matches!(eval_one("(+ (* 2 3) (- 8 2))"), Ok(Value::Int(12))));
}

#[test]
fn let_binds_then_lookup_returns_the_value() {
    let mut interp = Interp::new();
    assert!(matches!(eval_line(&mut interp, "(let x 5)"), Ok(Value::Nil)));
    assert!(matches!(eval_line(&mut interp, "x"), Ok(Value::Int(5))));
}

#[test]
fn let_overwrites_an_existing_binding() {
    let mut interp = Interp::new();
    assert!(matches!(eval_line(&mut interp, "(let x 5)"), Ok(Value::Nil)));
    assert!(matches!(eval_line(&mut interp, "(let x 10)"), Ok(Value::Nil)));
    assert!(matches!(eval_line(&mut interp, "x"), Ok(Value::Int(10))));
}

#[test]
fn bindings_persist_across_lines_in_one_session() {
    let mut interp = Interp::new();
    assert!(matches!(eval_line(&mut interp, "(let a 2)"), Ok(Value::Nil)));
    assert!(matches!(eval_line(&mut interp, "(let b 3)"), Ok(Value::Nil)));
    assert!(matches!(eval_line(&mut interp, "(* a b)"), Ok(Value::Int(6))));
}

#[test]
fn empty_form_parses_to_empty_and_evaluates_to_nil() {
    let exprs = parse_line("()").expect("parse");
    assert_eq!(exprs.len(), 1);
    assert!(matches!(exprs[0], Expr::Empty));
    assert!(matches!(eval_one("()"), Ok(Value::Nil)));
}

#[test]
fn unclosed_form_is_a_parse_error_citing_the_form() {
    assert!(matches!(parse_line("(+ 1 2"), Err(ParseError::UnclosedSExpr(0))));
    assert!(matches!(parse_line("  (+ 1 2"), Err(ParseError::UnclosedSExpr(2))));
}

#[test]
fn unknown_identifier_is_an_error_naming_it() {
    match eval_one("foo") {
        Err(EvalError::UnknownIdentifier(name)) => assert_eq!(name, b"foo".to_vec()),
        other => panic!("expected an unknown-identifier error, got {:?}", other),
    }
}

#[test]
fn whitespace_only_line_is_an_empty_sequence_and_nil() {
    let exprs = parse_line(" \t  ").expect("parse");
    assert_eq!(exprs.len(), 0);
    assert!(matches!(eval_one(" \t  "), Ok(Value::Nil)));
}

#[test]
fn several_expressions_yield_the_last_value() {
    assert!(matches!(eval_one("1 2 3"), Ok(Value::Int(3))));
    assert!(matches!(eval_one("(let x 4) x"), Ok(Value::Int(4))));
}

#[test]
fn unknown_operator_is_an_error_carrying_the_token() {
    match eval_one("(5 1 2)") {
        Err(EvalError::UnknownOperator(tok)) => assert_eq!(tok.value, b"5".to_vec()),
        other => panic!("expected an unknown-operator error, got {:?}", other),
    }
}

#[test]
fn let_with_no_argument_is_an_error() {
    assert!(matches!(eval_one("(let)"), Err(EvalError::LetMissingIdentifier)));
}

#[test]
fn let_with_a_non_identifier_first_argument_is_an_error() {
    assert!(matches!(eval_one("(let 5 3)"), Err(EvalError::LetNonIdentifier)));
}

#[test]
fn let_with_wrong_arity_is_an_error() {
    assert!(matches!(eval_one("(let x)"), Err(EvalError::LetWrongArity)));
    assert!(matches!(eval_one("(let x 1 2)"), Err(EvalError::LetWrongArity)));
}

#[test]
fn nil_operand_in_arithmetic_is_an_error() {
    assert!(matches!(eval_one("(+ 1 ())"), Err(EvalError::InvalidOperand(Value::Nil))));
    assert!(matches!(eval_one("(+ 1 (let y 2))"), Err(EvalError::InvalidOperand(Value::Nil))));
}

#[test]
fn boolean_operand_in_arithmetic_is_an_error() {
    assert!(matches!(eval_one("(+ true 1)"), Err(EvalError::InvalidOperand(Value::Bool(true)))));
}

#[test]
fn float_operand_in_arithmetic_is_an_error() {
    assert!(matches!(eval_one("(+ 1.5 1)"), Err(EvalError::InvalidOperand(Value::Float(_)))));
}

#[test]
fn binding_made_before_an_error_survives() {
    let mut interp = Interp::new();
    assert!(matches!(
        eval_line(&mut interp, "(+ 1 (let z 9) 2)"),
        Err(EvalError::InvalidOperand(Value::Nil))
    ));
    assert!(matches!(eval_line(&mut interp, "z"), Ok(Value::Int(9))));
}

#[test]
fn boolean_literals_evaluate_to_booleans() {
    assert!(matches!(eval_one("true"), Ok(Value::Bool(true))));
    assert!(matches!(eval_one("false"), Ok(Value::Bool(false))));
}

#[test]
fn float_literal_keeps_its_text() {
    match eval_one("1.5") {
        Ok(Value::Float(text)) => assert_eq!(text, b"1.5".to_vec()),
        other => panic!("expected a float value, got {:?}", other),
    }
}

#[test]
fn let_can_bind_booleans_and_floats() {
    let mut interp = Interp::new();
    assert!(matches!(eval_line(&mut interp, "(let t true )"), Ok(Value::Nil)));
    assert!(matches!(eval_line(&mut interp, "t"), Ok(Value::Bool(true))));
    assert!(matches!(eval_line(&mut interp, "(let f 2.5 )"), Ok(Value::Nil)));
    assert!(matches!(eval_line(&mut interp, "f"), Ok(Value::Float(_))));
}

#[test]
fn arithmetic_overflow_is_an_error() {
    assert!(matches!(
        eval_one("(+ 9223372036854775807 1)"),
        Err(EvalError::Overflow)
    ));
    assert!(matches!(
        eval_one("(* 4611686018427387904 2)"),
        Err(EvalError::Overflow)
    ));
    // the most negative value divided by minus one leaves the 64-bit range
    assert!(matches!(
        eval_one("(/ (- (- 0 9223372036854775807) 1) (- 0 1))"),
        Err(EvalError::Overflow)
    ));
}
