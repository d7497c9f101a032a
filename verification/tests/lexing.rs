//! Tests of the lexer and of literal handling in the parser.

use sexpr_lang::ast::Expr;
use sexpr_lang::lexer::Lexer;
use sexpr_lang::parser::{ParseError, Parser};
use sexpr_lang::token::{Token, Type};

fn kinds_of(line: &str) -> Vec<Type> {
    let mut lexer = Lexer::new(line.as_bytes());
    let mut kinds = Vec::new();
    loop {
        let tok = lexer.take();
        if tok.t_type == Type::EOF {
            return kinds;
        }
        kinds.push(tok.t_type);
    }
}

fn parse_line(line: &str) -> Result<Vec<Expr>, ParseError> {
    let mut parser = Parser::new(line.as_bytes());
    parser.parse()
}

#[test]
fn single_byte_tokens_and_offsets() {
    let mut lexer = Lexer::new(b"  (+ 1)");
    let open = lexer.take();
    assert_eq!(open.t_type, Type::OpenParen);
    assert_eq!(open.loc, 2);
    assert_eq!(open.value, b"(".to_vec());
    let plus = lexer.take();
    assert_eq!(plus.t_type, Type::Plus);
    assert_eq!(plus.loc, 3);
    let one = lexer.take();
    assert_eq!(one.t_type, Type::Int);
    assert_eq!(one.loc, 5);
    assert_eq!(one.value, b"1".to_vec());
    let close = lexer.take();
    assert_eq!(close.t_type, Type::CloseParen);
    assert_eq!(close.loc, 6);
}

#[test]
fn peek_is_idempotent_and_take_advances() {
    let mut lexer = Lexer::new(b"1 2");
    assert_eq!(lexer.peek().value, b"1".to_vec());
    assert_eq!(lexer.peek().value, b"1".to_vec());
    assert_eq!(lexer.take().value, b"1".to_vec());
    assert_eq!(lexer.peek().value, b"2".to_vec());
}

#[test]
fn take_past_the_end_keeps_returning_the_end_token() {
    let mut lexer = Lexer::new(b"1");
    assert_eq!(lexer.take().t_type, Type::Int);
    assert_eq!(lexer.take().t_type, Type::EOF);
    assert_eq!(lexer.take().t_type, Type::EOF);
}

#[test]
fn operators_lex_as_their_own_kinds() {
    assert_eq!(
        kinds_of("( ) + - * /"),
        vec![
            Type::OpenParen,
            Type::CloseParen,
            Type::Plus,
            Type::Minus,
            Type::Multiply,
            Type::Divide
        ]
    );
}

#[test]
fn keyword_identifier_and_literals_lex_apart() {
    assert_eq!(
        kinds_of("let letx true false tru 12 1.5 x_1"),
        vec![
            Type::Let,
            Type::Identifier,
            Type::Bool,
            Type::Bool,
            Type::Identifier,
            Type::Int,
            Type::Float,
            Type::Identifier
        ]
    );
}

#[test]
fn booleans_need_a_whitespace_boundary() {
    // `true)` is an identifier, not a boolean literal
    assert_eq!(kinds_of("true)"), vec![Type::Identifier, Type::CloseParen]);
}

#[test]
fn floats_need_digits_on_both_sides_of_the_point() {
    assert_eq!(kinds_of("1."), vec![Type::Int, Type::Unknown]);
    assert_eq!(kinds_of(".5"), vec![Type::Unknown]);
    assert_eq!(kinds_of("1.5"), vec![Type::Float]);
}

#[test]
fn unrecognised_bytes_lex_as_one_unknown_run() {
    let mut lexer = Lexer::new(b"@#! 1");
    let unknown = lexer.take();
    assert_eq!(unknown.t_type, Type::Unknown);
    assert_eq!(unknown.value, b"@#!".to_vec());
    assert_eq!(lexer.take().t_type, Type::Int);
}

#[test]
fn token_constructors_keep_text_offset_and_kind() {
    let tok = Token::from_bytes(b"abc", 7, Type::Identifier);
    assert_eq!(tok.value, b"abc".to_vec());
    assert_eq!(tok.loc, 7);
    assert_eq!(tok.t_type, Type::Identifier);
    let one = Token::from_byte(&b'(', 0, Type::OpenParen);
    assert_eq!(one.value, b"(".to_vec());
    assert_eq!(one.loc, 0);
    assert_eq!(one.t_type, Type::OpenParen);
}

#[test]
fn underscored_integer_literals_round_trip() {
    match parse_line("1_000").expect("parse").as_slice() {
        [Expr::Int(v)] => assert_eq!(*v, 1000),
        other => panic!("expected one integer, got {:?}", other),
    }
    match parse_line("_1_2_").expect("parse").as_slice() {
        [Expr::Int(v)] => assert_eq!(*v, 12),
        other => panic!("expected one integer, got {:?}", other),
    }
}

#[test]
fn largest_integer_literal_parses() {
    match parse_line("9223372036854775807").expect("parse").as_slice() {
        [Expr::Int(v)] => assert_eq!(*v, i64::MAX),
        other => panic!("expected one integer, got {:?}", other),
    }
}

#[test]
fn too_large_integer_literal_is_a_parse_error() {
    assert!(matches!(
        parse_line("9223372036854775808"),
        Err(ParseError::InvalidIntLiteral(_))
    ));
}

#[test]
fn digitless_integer_literal_is_a_parse_error() {
    assert!(matches!(parse_line("_"), Err(ParseError::InvalidIntLiteral(_))));
}

#[test]
fn unknown_token_where_an_expression_was_expected_is_an_error() {
    match parse_line("@oops") {
        Err(ParseError::UnexpectedToken(tok)) => {
            assert_eq!(tok.t_type, Type::Unknown);
            assert_eq!(tok.value, b"@oops".to_vec());
        },
        other => panic!("expected an unexpected-token error, got {:?}", other),
    }
}

#[test]
fn bare_operator_or_keyword_at_top_level_is_an_error() {
    assert!(matches!(parse_line("+"), Err(ParseError::UnexpectedToken(_))));
    assert!(matches!(parse_line("let"), Err(ParseError::UnexpectedToken(_))));
    assert!(matches!(parse_line(")"), Err(ParseError::UnexpectedToken(_))));
}
