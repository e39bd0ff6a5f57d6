//! The diagnostic renderer's exact output text, and the line counting
//! under it.

use langfuck::diagnostics::{get_line_of_error, print_error};
use langfuck::lexer::{lex, Span};
use langfuck::parser::{Parser, ParserError};

#[test]
fn unexpected_closing_rendering() {
    let input = "]";
    let err = Parser::new(lex(input)).parse().unwrap_err();
    assert_eq!(err, ParserError::UnexpectedClosing(Span::from(0, 1)));
    let text = print_error(&err, input);
    assert_eq!(
        text,
        "Error: Unexpected closing of loop\n  |\n1 | ]\n  | ^\n  = note: Remove the unnecessary \"]\"\n"
    );
}

#[test]
fn unexpected_eof_rendering() {
    let input = "++[";
    let err = Parser::new(lex(input)).parse().unwrap_err();
    assert_eq!(err, ParserError::UnexpectedEOF(Span::from(2, 3)));
    let text = print_error(&err, input);
    assert_eq!(
        text,
        "Error: End of file before loop close\n  |\n1 | ++[\n  |   ^\n  = note: close the loop before the file ends\n"
    );
}

#[test]
fn rendering_points_into_later_lines() {
    let input = "++\n>>]";
    let err = Parser::new(lex(input)).parse().unwrap_err();
    assert_eq!(err, ParserError::UnexpectedClosing(Span::from(5, 6)));
    let text = print_error(&err, input);
    assert_eq!(
        text,
        "Error: Unexpected closing of loop\n  |\n2 | >>]\n  |   ^\n  = note: Remove the unnecessary \"]\"\n"
    );
}

#[test]
fn line_of_error_counts_newlines() {
    assert_eq!(get_line_of_error(&Span::from(0, 1), "]"), 0);
    assert_eq!(get_line_of_error(&Span::from(5, 6), "++\n>>]"), 1);
    assert_eq!(get_line_of_error(&Span::from(4, 5), "\n\n\n\n]"), 4);
}
