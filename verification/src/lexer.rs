//! The token source for the standard one-character syntax: classifies
//! each source byte as one of the eight operation tokens, or skips it as
//! a comment, recording the byte span each token came from.

use vstd::prelude::*;
use vstd::string::StringSliceAdditionalSpecFns;

verus! {

/// The eight primitive operations of the language.
#[derive(Eq, PartialEq, Debug, Clone, Copy)]
pub enum TokenType {
    Left,
    Right,
    Add,
    Subtract,
    OpenLoop,
    CloseLoop,
    Output,
    Input,
}

/// A half-open byte-offset range `[from, to)` into the source text,
/// used only for diagnostics.
#[derive(Eq, PartialEq, Debug, Clone, Copy)]
pub struct Span {
    pub from: usize,
    pub to: usize,
}

impl Span {
    /// Builds the span `[from, to)`.
    pub fn from(from: usize, to: usize) -> (s: Self)
        ensures
            s == (Span { from, to }),
    {
        Span { from, to }
    }
}

/// One operation token, with the span of the source text it came from.
#[derive(Eq, PartialEq, Debug, Clone, Copy)]
pub struct LexerToken {
    pub span: Span,
    pub token: TokenType,
}

impl LexerToken {
    /// Builds a token from its parts.
    pub fn new(span: Span, token: TokenType) -> (t: Self)
        ensures
            t == (LexerToken { span, token }),
    {
        LexerToken { span, token }
    }
}

/// The operation a source byte denotes, if any. Every other byte is a
/// comment and produces no token.
pub open spec fn spec_token_of(b: u8) -> Option<TokenType> {
    if b == '<' as u8 {
        Some(TokenType::Left)
    } else if b == '>' as u8 {
        Some(TokenType::Right)
    } else if b == '.' as u8 {
        Some(TokenType::Output)
    } else if b == ',' as u8 {
        Some(TokenType::Input)
    } else if b == '[' as u8 {
        Some(TokenType::OpenLoop)
    } else if b == ']' as u8 {
        Some(TokenType::CloseLoop)
    } else if b == '+' as u8 {
        Some(TokenType::Add)
    } else if b == '-' as u8 {
        Some(TokenType::Subtract)
    } else {
        None
    }
}

/// The tokens of the source bytes from position `i` on, each spanning
/// the one byte it came from.
pub open spec fn spec_lex(bytes: Seq<u8>, i: int) -> Seq<LexerToken>
    decreases bytes.len() - i,
{
    if i < 0 || i >= bytes.len() {
        Seq::empty()
    } else {
        let rest = spec_lex(bytes, i + 1);
        match spec_token_of(bytes[i]) {
            Some(t) => seq![
                LexerToken { span: Span { from: i as usize, to: (i + 1) as usize }, token: t },
            ] + rest,
            None => rest,
        }
    }
}

/// Classifies one byte, as [`spec_token_of`] says.
fn token_of(b: u8) -> (t: Option<TokenType>)
    ensures
        t == spec_token_of(b),
{
    if b == '<' as u8 {
        Some(TokenType::Left)
    } else if b == '>' as u8 {
        Some(TokenType::Right)
    } else if b == '.' as u8 {
        Some(TokenType::Output)
    } else if b == ',' as u8 {
        Some(TokenType::Input)
    } else if b == '[' as u8 {
        Some(TokenType::OpenLoop)
    } else if b == ']' as u8 {
        Some(TokenType::CloseLoop)
    } else if b == '+' as u8 {
        Some(TokenType::Add)
    } else if b == '-' as u8 {
        Some(TokenType::Subtract)
    } else {
        None
    }
}

/// Tokenizes the source text: one token per operation byte, in source
/// order, with its byte span; every other byte is skipped. A multi-byte
/// character of the source never contains an operation byte, so spans
/// are byte-exact for any text.
pub fn lex(input: &str) -> (r: Vec<LexerToken>)
    ensures
        r@ == spec_lex(input.spec_bytes(), 0),
{
    let bytes = input.as_bytes();
    let mut r: Vec<LexerToken> = Vec::new();
    let mut i: usize = 0;
    while i < bytes.len()
        invariant
            bytes@ == input.spec_bytes(),
            i <= bytes@.len(),
            r@ + spec_lex(bytes@, i as int) == spec_lex(bytes@, 0),
        decreases bytes@.len() - i,
    {
        let b = bytes[i];
        match token_of(b) {
            Some(t) => {
                let tok = LexerToken::new(Span::from(i, i + 1), t);
                r.push(tok);
                proof {
                    assert(spec_lex(bytes@, i as int) == seq![tok] + spec_lex(
                        bytes@,
                        i + 1,
                    ));
                    assert(r@ + spec_lex(bytes@, i + 1) =~= spec_lex(bytes@, 0));
                }
            },
            None => {
                proof {
                    assert(spec_lex(bytes@, i as int) == spec_lex(bytes@, i + 1));
                }
            },
        }
        i = i + 1;
    }
    proof {
        assert(r@ + spec_lex(bytes@, i as int) =~= r@);
    }
    r
}

} // verus!
