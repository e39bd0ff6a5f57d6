//! A token source for configurable concrete syntaxes: each of the
//! eight operations is written as a word of one or more characters,
//! and the source is scanned left to right, matching greedily at each
//! position in a fixed priority order. Anything that matches no word
//! is a comment character and is skipped. Optionally, whitespace
//! inside a word's occurrence is ignored.
//!
//! Spans of these tokens are character offsets into the source.

use vstd::prelude::*;
use crate::lexer::{LexerToken, Span, TokenType};
use vstd::string::StrSliceExecFns;

verus! {

/// The eight words of a concrete syntax, one per operation.
pub struct TokenSet {
    pub left: String,
    pub right: String,
    pub plus: String,
    pub minus: String,
    pub input: String,
    pub output: String,
    pub open_loop: String,
    pub close_loop: String,
}

/// Every word has at least one character: a match always consumes
/// something.
pub open spec fn token_set_wf(ts: &TokenSet) -> bool {
    &&& ts.left@.len() >= 1
    &&& ts.right@.len() >= 1
    &&& ts.plus@.len() >= 1
    &&& ts.minus@.len() >= 1
    &&& ts.input@.len() >= 1
    &&& ts.output@.len() >= 1
    &&& ts.open_loop@.len() >= 1
    &&& ts.close_loop@.len() >= 1
}

/// The characters the scanner may skip inside a word's occurrence.
pub open spec fn is_space(c: char) -> bool {
    c == ' ' || c == '\t' || c == '\n' || c == '\r'
}

/// Whether word `w`, from its character `j` on, occurs in `s` at
/// position `i`: the end position just past the occurrence, if it
/// does. A source character matching the word's next character
/// consumes both; with `skip`, whitespace inside the occurrence (never
/// before its first character) is passed over.
pub open spec fn match_at(s: Seq<char>, i: int, w: Seq<char>, j: int, skip: bool) -> Option<int>
    decreases s.len() - i,
{
    if j >= w.len() {
        Some(i)
    } else if i < 0 || i >= s.len() {
        None
    } else if s[i] == w[j] {
        match_at(s, i + 1, w, j + 1, skip)
    } else if skip && j > 0 && is_space(s[i]) {
        match_at(s, i + 1, w, j, skip)
    } else {
        None
    }
}

/// A match consumes at least the word's first character.
pub proof fn lemma_match_at_advances(s: Seq<char>, i: int, w: Seq<char>, j: int, skip: bool)
    ensures
        match_at(s, i, w, j, skip) matches Some(e) ==> e >= i && (j < w.len() ==> e > i) && (i
            <= s.len() ==> e <= s.len()),
    decreases s.len() - i,
{
    if j < w.len() && 0 <= i < s.len() {
        if s[i] == w[j] {
            lemma_match_at_advances(s, i + 1, w, j + 1, skip);
        } else if skip && j > 0 && is_space(s[i]) {
            lemma_match_at_advances(s, i + 1, w, j, skip);
        }
    }
}

/// The first word of the priority order that occurs at position `i`,
/// with its operation and the end of its occurrence.
pub open spec fn first_match(
    s: Seq<char>,
    i: int,
    ts: &TokenSet,
    skip: bool,
) -> Option<(TokenType, int)> {
    match match_at(s, i, ts.left@, 0, skip) {
        Some(e) => Some((TokenType::Left, e)),
        None => match match_at(s, i, ts.right@, 0, skip) {
            Some(e) => Some((TokenType::Right, e)),
            None => match match_at(s, i, ts.plus@, 0, skip) {
                Some(e) => Some((TokenType::Add, e)),
                None => match match_at(s, i, ts.minus@, 0, skip) {
                    Some(e) => Some((TokenType::Subtract, e)),
                    None => match match_at(s, i, ts.input@, 0, skip) {
                        Some(e) => Some((TokenType::Input, e)),
                        None => match match_at(s, i, ts.output@, 0, skip) {
                            Some(e) => Some((TokenType::Output, e)),
                            None => match match_at(s, i, ts.open_loop@, 0, skip) {
                                Some(e) => Some((TokenType::OpenLoop, e)),
                                None => match match_at(s, i, ts.close_loop@, 0, skip) {
                                    Some(e) => Some((TokenType::CloseLoop, e)),
                                    None => None,
                                },
                            },
                        },
                    },
                },
            },
        },
    }
}

/// The token sequence of the source from position `i` on: at each
/// position the first matching word yields one token spanning its
/// occurrence, and scanning resumes past it; a position matching
/// nothing is skipped.
pub open spec fn spec_lex_with(s: Seq<char>, i: int, ts: &TokenSet, skip: bool) -> Seq<LexerToken>
    decreases s.len() - i,
    when token_set_wf(ts)
    via spec_lex_with_decreases
{
    if i < 0 || i >= s.len() {
        Seq::empty()
    } else {
        match first_match(s, i, ts, skip) {
            Some((t, e)) => seq![
                LexerToken { span: Span { from: i as usize, to: e as usize }, token: t },
            ] + spec_lex_with(s, e, ts, skip),
            None => spec_lex_with(s, i + 1, ts, skip),
        }
    }
}

#[via_fn]
proof fn spec_lex_with_decreases(s: Seq<char>, i: int, ts: &TokenSet, skip: bool) {
    lemma_match_at_advances(s, i, ts.left@, 0, skip);
    lemma_match_at_advances(s, i, ts.right@, 0, skip);
    lemma_match_at_advances(s, i, ts.plus@, 0, skip);
    lemma_match_at_advances(s, i, ts.minus@, 0, skip);
    lemma_match_at_advances(s, i, ts.input@, 0, skip);
    lemma_match_at_advances(s, i, ts.output@, 0, skip);
    lemma_match_at_advances(s, i, ts.open_loop@, 0, skip);
    lemma_match_at_advances(s, i, ts.close_loop@, 0, skip);
}

/// Whether one word occurs at position `i`, as [`match_at`] says.
fn word_match(code: &str, i: usize, w: &str, skip: bool) -> (r: Option<usize>)
    requires
        i <= code@.len(),
    ensures
        match match_at(code@, i as int, w@, 0, skip) {
            Some(e) => r matches Some(e2) && e2 == e && i <= e <= code@.len(),
            None => r is None,
        },
{
    let ghost s = code@;
    let n = code.unicode_len();
    let wn = w.unicode_len();
    let mut pos = i;
    let mut j: usize = 0;
    loop
        invariant
            s == code@,
            n == s.len(),
            wn == w@.len(),
            i <= pos <= n,
            j <= wn,
            match_at(s, i as int, w@, 0, skip) == match_at(s, pos as int, w@, j as int, skip),
        decreases n - pos,
    {
        if j >= wn {
            return Some(pos);
        }
        if pos >= n {
            return None;
        }
        let c = code.get_char(pos);
        let wc = w.get_char(j);
        if c == wc {
            pos = pos + 1;
            j = j + 1;
        } else if skip && j > 0 && (c == ' ' || c == '\t' || c == '\n' || c == '\r') {
            pos = pos + 1;
        } else {
            return None;
        }
    }
}

/// Tokenizes a source text written with the given words, as
/// [`spec_lex_with`] says.
pub fn lex_with(ts: &TokenSet, code: &str, ignore_whitespace: bool) -> (r: Vec<LexerToken>)
    requires
        token_set_wf(ts),
    ensures
        r@ == spec_lex_with(code@, 0, ts, ignore_whitespace),
{
    let ghost s = code@;
    let skip = ignore_whitespace;
    let n = code.unicode_len();
    let mut r: Vec<LexerToken> = Vec::new();
    let mut i: usize = 0;
    while i < n
        invariant
            s == code@,
            n == s.len(),
            token_set_wf(ts),
            skip == ignore_whitespace,
            i <= n,
            r@ + spec_lex_with(s, i as int, ts, skip) == spec_lex_with(s, 0, ts, skip),
        decreases n - i,
    {
        let stepped = match try_all_words(ts, code, i, skip) {
            Some((token, e)) => {
                let tok = LexerToken::new(Span::from(i, e), token);
                r.push(tok);
                proof {
                    lemma_match_all_advance(s, i as int, ts, skip);
                    assert(spec_lex_with(s, i as int, ts, skip) == seq![tok] + spec_lex_with(
                        s,
                        e as int,
                        ts,
                        skip,
                    ));
                    assert(r@ + spec_lex_with(s, e as int, ts, skip) =~= spec_lex_with(
                        s,
                        0,
                        ts,
                        skip,
                    ));
                }
                e
            },
            None => {
                proof {
                    assert(spec_lex_with(s, i as int, ts, skip) == spec_lex_with(
                        s,
                        i + 1,
                        ts,
                        skip,
                    ));
                }
                i + 1
            },
        };
        i = stepped;
    }
    proof {
        assert(r@ + spec_lex_with(s, i as int, ts, skip) =~= r@);
    }
    r
}

/// A matched word ends past its start.
proof fn lemma_match_all_advance(s: Seq<char>, i: int, ts: &TokenSet, skip: bool)
    requires
        token_set_wf(ts),
    ensures
        first_match(s, i, ts, skip) matches Some(te) ==> te.1 > i,
{
    lemma_match_at_advances(s, i, ts.left@, 0, skip);
    lemma_match_at_advances(s, i, ts.right@, 0, skip);
    lemma_match_at_advances(s, i, ts.plus@, 0, skip);
    lemma_match_at_advances(s, i, ts.minus@, 0, skip);
    lemma_match_at_advances(s, i, ts.input@, 0, skip);
    lemma_match_at_advances(s, i, ts.output@, 0, skip);
    lemma_match_at_advances(s, i, ts.open_loop@, 0, skip);
    lemma_match_at_advances(s, i, ts.close_loop@, 0, skip);
}

/// Tries the eight words in priority order, as [`first_match`] says.
fn try_all_words(ts: &TokenSet, code: &str, i: usize, skip: bool) -> (r: Option<(
    TokenType,
    usize,
)>)
    requires
        i <= code@.len(),
    ensures
        match first_match(code@, i as int, ts, skip) {
            Some((t, e)) => r matches Some(te) && te.0 == t && te.1 == e && e <= code@.len(),
            None => r is None,
        },
{
    if let Some(e) = word_match(code, i, ts.left.as_str(), skip) {
        return Some((TokenType::Left, e));
    }
    if let Some(e) = word_match(code, i, ts.right.as_str(), skip) {
        return Some((TokenType::Right, e));
    }
    if let Some(e) = word_match(code, i, ts.plus.as_str(), skip) {
        return Some((TokenType::Add, e));
    }
    if let Some(e) = word_match(code, i, ts.minus.as_str(), skip) {
        return Some((TokenType::Subtract, e));
    }
    if let Some(e) = word_match(code, i, ts.input.as_str(), skip) {
        return Some((TokenType::Input, e));
    }
    if let Some(e) = word_match(code, i, ts.output.as_str(), skip) {
        return Some((TokenType::Output, e));
    }
    if let Some(e) = word_match(code, i, ts.open_loop.as_str(), skip) {
        return Some((TokenType::OpenLoop, e));
    }
    if let Some(e) = word_match(code, i, ts.close_loop.as_str(), skip) {
        return Some((TokenType::CloseLoop, e));
    }
    None
}

} // verus!
