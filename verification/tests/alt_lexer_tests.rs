//! The configurable tokenizer: multi-character words, priority order,
//! comment skipping, and whitespace-tolerant matching.

use langfuck::alt_lexer::{lex_with, TokenSet};
use langfuck::interpreter::Interpreter;
use langfuck::lexer::{LexerToken, Span, TokenType};
use langfuck::parser::Parser;

fn words(
    left: &str,
    right: &str,
    plus: &str,
    minus: &str,
    input: &str,
    output: &str,
    open_loop: &str,
    close_loop: &str,
) -> TokenSet {
    TokenSet {
        left: left.to_string(),
        right: right.to_string(),
        plus: plus.to_string(),
        minus: minus.to_string(),
        input: input.to_string(),
        output: output.to_string(),
        open_loop: open_loop.to_string(),
        close_loop: close_loop.to_string(),
    }
}

#[test]
fn single_character_words() {
    let set = words("<", ">", "+", "-", ",", ".", "[", "]");
    let toks = lex_with(&set, "+[-]", false);
    assert_eq!(
        toks,
        vec![
            LexerToken::new(Span::from(0, 1), TokenType::Add),
            LexerToken::new(Span::from(1, 2), TokenType::OpenLoop),
            LexerToken::new(Span::from(2, 3), TokenType::Subtract),
            LexerToken::new(Span::from(3, 4), TokenType::CloseLoop),
        ]
    );
}

#[test]
fn multi_character_words() {
    let set = words("links", "rechts", "plus", "minus", "rein", "raus", "auf", "zu");
    let toks = lex_with(&set, "plus auf minus zu", false);
    assert_eq!(
        toks,
        vec![
            LexerToken::new(Span::from(0, 4), TokenType::Add),
            LexerToken::new(Span::from(5, 8), TokenType::OpenLoop),
            LexerToken::new(Span::from(9, 14), TokenType::Subtract),
            LexerToken::new(Span::from(15, 17), TokenType::CloseLoop),
        ]
    );
}

#[test]
fn whitespace_inside_words_can_be_ignored() {
    let set = words("links", "rechts", "plus", "minus", "rein", "raus", "auf", "zu");
    let toks = lex_with(&set, "pl us", true);
    assert_eq!(toks, vec![LexerToken::new(Span::from(0, 5), TokenType::Add)]);
    // Without the setting the split word matches nothing.
    assert_eq!(lex_with(&set, "pl us", false), vec![]);
}

#[test]
fn alternate_syntax_runs_through_the_pipeline() {
    let set = words("L", "R", "UP", "DOWN", "IN", "OUT", "BEGIN", "END");
    let toks = lex_with(&set, "UP UP UP BEGIN R UP UP L DOWN END R OUT", false);
    let instructions = Parser::new(toks).parse().unwrap();
    let mut machine = Interpreter::new();
    machine.interpret_ins(&instructions, u64::MAX).unwrap();
    // Three times two, multiplied into the right neighbor.
    assert_eq!(&machine.output()[..], &[6]);
}
