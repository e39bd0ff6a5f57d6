//! The parser's tests: token sequences against the trees they parse
//! to, and the two structural errors with their exact spans.

use langfuck::ast::Instruction;
use langfuck::lexer::{lex, LexerToken, Span, TokenType};
use langfuck::parser::{hello_world, Parser, ParserError};

#[test]
fn parser_test() {
    assert_eq!(
        Parser::new(vec![
            LexerToken::new(Span::from(0, 0), TokenType::Left),
            LexerToken::new(Span::from(0, 0), TokenType::Right),
            LexerToken::new(Span::from(0, 0), TokenType::Add)
        ])
        .parse()
        .unwrap(),
        vec![
            Instruction::Left(1),
            Instruction::Right(1),
            Instruction::Add(1)
        ]
    );
    assert_eq!(
        Parser::new(vec![
            LexerToken::new(Span::from(0, 0), TokenType::Add),
            LexerToken::new(Span::from(0, 0), TokenType::Add),
            LexerToken::new(Span::from(0, 0), TokenType::Add),
            LexerToken::new(Span::from(0, 0), TokenType::Add),
            LexerToken::new(Span::from(0, 0), TokenType::Add),
            LexerToken::new(Span::from(0, 0), TokenType::Add),
            LexerToken::new(Span::from(0, 0), TokenType::Add),
            LexerToken::new(Span::from(0, 0), TokenType::Add),
            LexerToken::new(Span::from(0, 0), TokenType::OpenLoop),
            LexerToken::new(Span::from(0, 0), TokenType::Right),
            LexerToken::new(Span::from(0, 0), TokenType::Add),
            LexerToken::new(Span::from(0, 0), TokenType::Add),
            LexerToken::new(Span::from(0, 0), TokenType::Add),
            LexerToken::new(Span::from(0, 0), TokenType::Add),
            LexerToken::new(Span::from(0, 0), TokenType::OpenLoop),
            LexerToken::new(Span::from(0, 0), TokenType::Right),
            LexerToken::new(Span::from(0, 0), TokenType::Add),
            LexerToken::new(Span::from(0, 0), TokenType::Add),
            LexerToken::new(Span::from(0, 0), TokenType::Right),
            LexerToken::new(Span::from(0, 0), TokenType::Add),
            LexerToken::new(Span::from(0, 0), TokenType::Add),
            LexerToken::new(Span::from(0, 0), TokenType::Add),
            LexerToken::new(Span::from(0, 0), TokenType::Right),
            LexerToken::new(Span::from(0, 0), TokenType::Add),
            LexerToken::new(Span::from(0, 0), TokenType::Add),
            LexerToken::new(Span::from(0, 0), TokenType::Add),
            LexerToken::new(Span::from(0, 0), TokenType::Right),
            LexerToken::new(Span::from(0, 0), TokenType::Add),
            LexerToken::new(Span::from(0, 0), TokenType::Left),
            LexerToken::new(Span::from(0, 0), TokenType::Left),
            LexerToken::new(Span::from(0, 0), TokenType::Left),
            LexerToken::new(Span::from(0, 0), TokenType::Left),
            LexerToken::new(Span::from(0, 0), TokenType::Subtract),
            LexerToken::new(Span::from(0, 0), TokenType::CloseLoop),
            LexerToken::new(Span::from(0, 0), TokenType::Right),
            LexerToken::new(Span::from(0, 0), TokenType::Add),
            LexerToken::new(Span::from(0, 0), TokenType::Right),
            LexerToken::new(Span::from(0, 0), TokenType::Add),
            LexerToken::new(Span::from(0, 0), TokenType::Right),
            LexerToken::new(Span::from(0, 0), TokenType::Subtract),
            LexerToken::new(Span::from(0, 0), TokenType::Right),
            LexerToken::new(Span::from(0, 0), TokenType::Right),
            LexerToken::new(Span::from(0, 0), TokenType::Add),
            LexerToken::new(Span::from(0, 0), TokenType::OpenLoop),
            LexerToken::new(Span::from(0, 0), TokenType::Left),
            LexerToken::new(Span::from(0, 0), TokenType::CloseLoop),
            LexerToken::new(Span::from(0, 0), TokenType::Left),
            LexerToken::new(Span::from(0, 0), TokenType::Subtract),
            LexerToken::new(Span::from(0, 0), TokenType::CloseLoop),
            LexerToken::new(Span::from(0, 0), TokenType::Right),
            LexerToken::new(Span::from(0, 0), TokenType::Right),
            LexerToken::new(Span::from(0, 0), TokenType::Output),
            LexerToken::new(Span::from(0, 0), TokenType::Right),
            LexerToken::new(Span::from(0, 0), TokenType::Subtract),
            LexerToken::new(Span::from(0, 0), TokenType::Subtract),
            LexerToken::new(Span::from(0, 0), TokenType::Subtract),
            LexerToken::new(Span::from(0, 0), TokenType::Output),
            LexerToken::new(Span::from(0, 0), TokenType::Add),
            LexerToken::new(Span::from(0, 0), TokenType::Add),
            LexerToken::new(Span::from(0, 0), TokenType::Add),
            LexerToken::new(Span::from(0, 0), TokenType::Add),
            LexerToken::new(Span::from(0, 0), TokenType::Add),
            LexerToken::new(Span::from(0, 0), TokenType::Add),
            LexerToken::new(Span::from(0, 0), TokenType::Add),
            LexerToken::new(Span::from(0, 0), TokenType::Output),
            LexerToken::new(Span::from(0, 0), TokenType::Output),
            LexerToken::new(Span::from(0, 0), TokenType::Add),
            LexerToken::new(Span::from(0, 0), TokenType::Add),
            LexerToken::new(Span::from(0, 0), TokenType::Add),
            LexerToken::new(Span::from(0, 0), TokenType::Output),
            LexerToken::new(Span::from(0, 0), TokenType::Right),
            LexerToken::new(Span::from(0, 0), TokenType::Right),
            LexerToken::new(Span::from(0, 0), TokenType::Output),
            LexerToken::new(Span::from(0, 0), TokenType::Left),
            LexerToken::new(Span::from(0, 0), TokenType::Subtract),
            LexerToken::new(Span::from(0, 0), TokenType::Output),
            LexerToken::new(Span::from(0, 0), TokenType::Left),
            LexerToken::new(Span::from(0, 0), TokenType::Output),
            LexerToken::new(Span::from(0, 0), TokenType::Add),
            LexerToken::new(Span::from(0, 0), TokenType::Add),
            LexerToken::new(Span::from(0, 0), TokenType::Add),
            LexerToken::new(Span::from(0, 0), TokenType::Output),
            LexerToken::new(Span::from(0, 0), TokenType::Subtract),
            LexerToken::new(Span::from(0, 0), TokenType::Subtract),
            LexerToken::new(Span::from(0, 0), TokenType::Subtract),
            LexerToken::new(Span::from(0, 0), TokenType::Subtract),
            LexerToken::new(Span::from(0, 0), TokenType::Subtract),
            LexerToken::new(Span::from(0, 0), TokenType::Subtract),
            LexerToken::new(Span::from(0, 0), TokenType::Output),
            LexerToken::new(Span::from(0, 0), TokenType::Subtract),
            LexerToken::new(Span::from(0, 0), TokenType::Subtract),
            LexerToken::new(Span::from(0, 0), TokenType::Subtract),
            LexerToken::new(Span::from(0, 0), TokenType::Subtract),
            LexerToken::new(Span::from(0, 0), TokenType::Subtract),
            LexerToken::new(Span::from(0, 0), TokenType::Subtract),
            LexerToken::new(Span::from(0, 0), TokenType::Subtract),
            LexerToken::new(Span::from(0, 0), TokenType::Subtract),
            LexerToken::new(Span::from(0, 0), TokenType::Output),
            LexerToken::new(Span::from(0, 0), TokenType::Right),
            LexerToken::new(Span::from(0, 0), TokenType::Right),
            LexerToken::new(Span::from(0, 0), TokenType::Add),
            LexerToken::new(Span::from(0, 0), TokenType::Output),
            LexerToken::new(Span::from(0, 0), TokenType::Right),
            LexerToken::new(Span::from(0, 0), TokenType::Add),
            LexerToken::new(Span::from(0, 0), TokenType::Add),
            LexerToken::new(Span::from(0, 0), TokenType::Output),
        ])
        .parse()
        .unwrap(),
        hello_world()
    )
}

#[test]
fn parser_error_locality() {
    // An unmatched close fails at once, at its own offset.
    let r = Parser::new(lex("]")).parse();
    assert_eq!(r.unwrap_err(), ParserError::UnexpectedClosing(Span::from(0, 1)));

    // The tokens end while the outer loop is open: the span points at
    // the outer opening token.
    let r = Parser::new(lex("[[]")).parse();
    assert_eq!(r.unwrap_err(), ParserError::UnexpectedEOF(Span::from(0, 1)));

    // An inner unclosed loop is reported at the innermost open.
    let r = Parser::new(lex("[[")).parse();
    assert_eq!(r.unwrap_err(), ParserError::UnexpectedEOF(Span::from(1, 1 + 1)));
}

#[test]
fn parse_simple_program() {
    let r = Parser::new(lex("+[-].,")).parse().unwrap();
    assert_eq!(
        r,
        vec![
            Instruction::Add(1),
            Instruction::Loop(vec![Instruction::Subtract(1)]),
            Instruction::Output,
            Instruction::Input,
        ]
    );
}

#[test]
fn lex_skips_comments_and_keeps_spans() {
    let toks = lex("a+b[");
    assert_eq!(
        toks,
        vec![
            LexerToken::new(Span::from(1, 2), TokenType::Add),
            LexerToken::new(Span::from(3, 4), TokenType::OpenLoop),
        ]
    );
    assert_eq!(lex(""), vec![]);
}

#[test]
fn instruction_helpers() {
    assert_eq!(Instruction::Add(3).to_number(), 3);
    assert_eq!(Instruction::Subtract(2).to_number(), -2);
    assert_eq!(Instruction::Left(4).to_number(), -4);
    assert_eq!(Instruction::Right(5).to_number(), 5);
    assert_eq!(Instruction::Output.to_number(), 0);
    assert!(Instruction::Loop(vec![]).is_loop());
    assert!(Instruction::Clear.is_loop());
    assert!(!Instruction::Add(1).is_loop());
}

#[test]
fn hello_world_tree_shape() {
    let tree = hello_world();
    assert_eq!(tree.len(), 66);
    assert_eq!(tree[0], Instruction::Add(1));
    assert!(tree[8].is_loop());
}
