use tapelang::ast::{ast_eq, Node};
use tapelang::lexer::{tokenize, Token};
use tapelang::parser::{parse, ParseError};

#[test]
fn tokenize_classifies_each_character() {
    let tokens = tokenize("+-<>.,[]x \n");
    assert_eq!(
        tokens,
        vec![
            Token::Increment,
            Token::Decrement,
            Token::ShiftLeft,
            Token::ShiftRight,
            Token::Output,
            Token::Input,
            Token::LoopOpen,
            Token::LoopClose,
            Token::Comment,
            Token::Comment,
            Token::Comment,
        ]
    );
}

#[test]
fn tokenize_is_one_token_per_character() {
    assert_eq!(tokenize("").len(), 0);
    assert_eq!(tokenize("hello, world!").len(), 13);
}

#[test]
fn parse_empty_source_gives_empty_program() {
    let ast = parse("").expect("empty source must parse");
    assert_eq!(ast.len(), 0);
}

#[test]
fn parse_unmatched_open_fails() {
    assert_eq!(parse("[").unwrap_err(), ParseError::UnterminatedLoop);
    assert_eq!(parse("+[-").unwrap_err(), ParseError::UnterminatedLoop);
    assert_eq!(parse("[[]").unwrap_err(), ParseError::UnterminatedLoop);
}

#[test]
fn parse_unmatched_close_fails() {
    assert_eq!(parse("]").unwrap_err(), ParseError::UnmatchedLoopClose);
    assert_eq!(parse("+]-").unwrap_err(), ParseError::UnmatchedLoopClose);
    assert_eq!(parse("[]]").unwrap_err(), ParseError::UnmatchedLoopClose);
}

#[test]
fn parse_builds_nested_loops() {
    let ast = parse("+[>[-]<]").expect("balanced loops must parse");
    assert_eq!(ast.len(), 2);
    assert!(matches!(ast[0], Node::Incr));
    match &ast[1] {
        Node::Loop { body } => {
            assert_eq!(body.len(), 3);
            assert!(matches!(body[0], Node::ShiftRight));
            match &body[1] {
                Node::Loop { body: inner } => {
                    assert_eq!(inner.len(), 1);
                    assert!(matches!(inner[0], Node::Decr));
                }
                _ => panic!("expected an inner loop"),
            }
            assert!(matches!(body[2], Node::ShiftLeft));
        }
        _ => panic!("expected a loop"),
    }
}

#[test]
fn parse_is_idempotent() {
    let source = "+[>,.<-]x";
    let first = parse(source).expect("source must parse");
    let second = parse(source).expect("source must parse");
    assert!(ast_eq(&first, &second));
}

#[test]
fn parse_skips_comments() {
    let commented = parse("+a[b-c.d]e").expect("commented source must parse");
    let plain = parse("+[-.]").expect("plain source must parse");
    assert!(ast_eq(&commented, &plain));
}

#[test]
fn parse_distinguishes_trees() {
    let plus = parse("+").expect("must parse");
    let minus = parse("-").expect("must parse");
    assert!(!ast_eq(&plus, &minus));
}
