//! The parser: turns the token sequence into an instruction tree,
//! detecting the two structural errors the language has.
//!
//! The meaning of parsing is fixed by [`spec_parse`], a left-to-right
//! fold over the tokens that keeps a stack of open loops. The executable
//! parser is recursive descent — its call depth is the nesting depth —
//! and is proved to return exactly what the fold says.

use vstd::prelude::*;
use crate::ast::{Instruction, SpecIns, view_ins, view_seq, lemma_view_seq};
use crate::lexer::{LexerToken, Span, TokenType};

verus! {

/// Everything a parse can report: the token sequence ended while a loop
/// was open (the span is the unmatched opening token's), or a closing
/// token appeared with no loop open (the span is that token's).
#[derive(Eq, PartialEq, Debug, Clone, Copy)]
pub enum ParserError {
    UnexpectedEOF(Span),
    UnexpectedClosing(Span),
}

pub type ParserResult<T> = Result<T, ParserError>;

/// What parsing yields: an instruction sequence, or the error.
pub ghost enum SpecParse {
    Parsed(Seq<SpecIns>),
    Failed(ParserError),
}

/// One open loop the fold below has yet to close: the token that opened
/// it and the instructions parsed before it at the enclosing level.
pub ghost struct PFrame {
    pub open: LexerToken,
    pub done: Seq<SpecIns>,
}

/// The meaning of parsing: a single left-to-right pass over the tokens
/// from position `i`, carrying the instructions of the enclosing levels
/// in `stack` and of the current level in `cur`. Each primitive token is
/// one single-count instruction; an opening token starts a new level; a
/// closing token wraps the current level in a `Loop`. A closing token
/// with no open level, or the end of the tokens with one, is an error.
pub open spec fn spec_parse_fold(
    tokens: Seq<LexerToken>,
    i: int,
    stack: Seq<PFrame>,
    cur: Seq<SpecIns>,
) -> SpecParse
    decreases tokens.len() - i,
{
    if i < 0 || i >= tokens.len() {
        if stack.len() == 0 {
            SpecParse::Parsed(cur)
        } else {
            SpecParse::Failed(ParserError::UnexpectedEOF(stack.last().open.span))
        }
    } else {
        let t = tokens[i];
        match t.token {
            TokenType::OpenLoop => spec_parse_fold(
                tokens,
                i + 1,
                stack.push(PFrame { open: t, done: cur }),
                Seq::empty(),
            ),
            TokenType::CloseLoop => if stack.len() == 0 {
                SpecParse::Failed(ParserError::UnexpectedClosing(t.span))
            } else {
                spec_parse_fold(
                    tokens,
                    i + 1,
                    stack.drop_last(),
                    stack.last().done.push(SpecIns::Loop(cur)),
                )
            },
            TokenType::Add => spec_parse_fold(tokens, i + 1, stack, cur.push(SpecIns::Add(1))),
            TokenType::Subtract => spec_parse_fold(
                tokens,
                i + 1,
                stack,
                cur.push(SpecIns::Subtract(1)),
            ),
            TokenType::Left => spec_parse_fold(tokens, i + 1, stack, cur.push(SpecIns::Left(1))),
            TokenType::Right => spec_parse_fold(tokens, i + 1, stack, cur.push(SpecIns::Right(1))),
            TokenType::Output => spec_parse_fold(tokens, i + 1, stack, cur.push(SpecIns::Output)),
            TokenType::Input => spec_parse_fold(tokens, i + 1, stack, cur.push(SpecIns::Input)),
        }
    }
}

/// The result of parsing a whole token sequence.
pub open spec fn spec_parse(tokens: Seq<LexerToken>) -> SpecParse {
    spec_parse_fold(tokens, 0, Seq::empty(), Seq::empty())
}

/// The parser's abstract state: the tokens, how many have been
/// consumed, and the models of the instructions built so far.
pub ghost struct ParserView {
    pub tokens: Seq<LexerToken>,
    pub pos: int,
    pub instructions: Seq<SpecIns>,
}

/// Consumes a token sequence once, in order, and builds the tree.
pub struct Parser {
    tokens: Vec<LexerToken>,
    pos: usize,
    instructions: Vec<Instruction>,
}

impl View for Parser {
    type V = ParserView;

    closed spec fn view(&self) -> ParserView {
        ParserView {
            tokens: self.tokens@,
            pos: self.pos as int,
            instructions: view_seq(self.instructions@),
        }
    }
}

impl Parser {
    /// A parser at the start of the given tokens, with nothing built.
    pub fn new(tokens: Vec<LexerToken>) -> (r: Self)
        ensures
            r@.tokens == tokens@,
            r@.pos == 0,
            r@.instructions == Seq::<SpecIns>::empty(),
    {
        let r = Parser { tokens, pos: 0, instructions: Vec::new() };
        proof {
            assert(r@.instructions =~= Seq::<SpecIns>::empty());
        }
        r
    }

    /// Parses the remaining tokens: returns the instructions, or the
    /// first structural error, exactly as [`spec_parse_fold`] says.
    /// For a parser fresh from [`Parser::new`] that is [`spec_parse`]
    /// of its tokens.
    pub fn parse(self) -> (r: ParserResult<Vec<Instruction>>)
        requires
            self@.pos <= self@.tokens.len(),
        ensures
            match spec_parse_fold(self@.tokens, self@.pos, Seq::empty(), self@.instructions) {
                SpecParse::Parsed(s) => r matches Ok(v) && view_seq(v@) == s,
                SpecParse::Failed(e) => r matches Err(e2) && e2 == e,
            },
    {
        let mut this = self;
        match this.parse_remaining() {
            Ok(()) => Ok(this.instructions),
            Err(e) => Err(e),
        }
    }

    /// The loop of [`Parser::parse`]: consumes the remaining tokens,
    /// growing `instructions`, until they are exhausted or a structural
    /// error stops the parse.
    fn parse_remaining(&mut self) -> (r: Result<(), ParserError>)
        requires
            old(self)@.pos <= old(self)@.tokens.len(),
        ensures
            final(self)@.tokens == old(self)@.tokens,
            match spec_parse_fold(
                old(self)@.tokens,
                old(self)@.pos,
                Seq::empty(),
                old(self)@.instructions,
            ) {
                SpecParse::Parsed(s) => r is Ok && final(self)@.instructions == s,
                SpecParse::Failed(e) => r matches Err(e2) && e2 == e,
            },
    {
        loop
            invariant
                self@.tokens == old(self)@.tokens,
                0 <= self@.pos <= self@.tokens.len(),
                spec_parse_fold(self@.tokens, self@.pos, Seq::empty(), self@.instructions)
                    == spec_parse_fold(
                    old(self)@.tokens,
                    old(self)@.pos,
                    Seq::empty(),
                    old(self)@.instructions,
                ),
            decreases self@.tokens.len() - self@.pos,
        {
            match self.next() {
                None => {
                    return Ok(());
                },
                Some(token) => {
                    let ghost cur = self@.instructions;
                    match self.parse_token(&token, Ghost(Seq::empty()), Ghost(cur)) {
                        Ok(ins) => {
                            proof {
                                lemma_view_seq_push(self.instructions@, ins);
                            }
                            self.instructions.push(ins);
                        },
                        Err(e) => {
                            return Err(e);
                        },
                    }
                },
            }
        }
    }

    /// Turns one consumed token into one instruction. An opening token
    /// parses its whole loop; a closing token is the "unexpected
    /// closing" error (it is only handed here at the top level).
    fn parse_token(
        &mut self,
        token: &LexerToken,
        stack: Ghost<Seq<PFrame>>,
        cur: Ghost<Seq<SpecIns>>,
    ) -> (r: ParserResult<Instruction>)
        requires
            1 <= old(self)@.pos <= old(self)@.tokens.len(),
            old(self)@.tokens[old(self)@.pos - 1] == *token,
            token.token is CloseLoop ==> stack@.len() == 0,
        ensures
            final(self)@.tokens == old(self)@.tokens,
            final(self)@.instructions == old(self)@.instructions,
            old(self)@.pos <= final(self)@.pos <= old(self)@.tokens.len(),
            r matches Ok(ins) ==> spec_parse_fold(
                old(self)@.tokens,
                old(self)@.pos - 1,
                stack@,
                cur@,
            ) == spec_parse_fold(
                old(self)@.tokens,
                final(self)@.pos,
                stack@,
                cur@.push(view_ins(ins)),
            ),
            r matches Err(e) ==> spec_parse_fold(
                old(self)@.tokens,
                old(self)@.pos - 1,
                stack@,
                cur@,
            ) == SpecParse::Failed(e),
        decreases old(self)@.tokens.len() - old(self)@.pos, 1nat,
    {
        match token.token {
            TokenType::OpenLoop => self.parse_loop(token, stack, cur),
            TokenType::CloseLoop => Err(ParserError::UnexpectedClosing(token.span)),
            TokenType::Add => Ok(Instruction::Add(1)),
            TokenType::Subtract => Ok(Instruction::Subtract(1)),
            TokenType::Left => Ok(Instruction::Left(1)),
            TokenType::Right => Ok(Instruction::Right(1)),
            TokenType::Output => Ok(Instruction::Output),
            TokenType::Input => Ok(Instruction::Input),
        }
    }

    /// Parses the body of the loop `first_token` opened, up to and past
    /// its matching closing token; the end of the tokens before that
    /// close is the "unexpected end" error, pointing at `first_token`.
    fn parse_loop(
        &mut self,
        first_token: &LexerToken,
        stack: Ghost<Seq<PFrame>>,
        cur: Ghost<Seq<SpecIns>>,
    ) -> (r: ParserResult<Instruction>)
        requires
            1 <= old(self)@.pos <= old(self)@.tokens.len(),
            old(self)@.tokens[old(self)@.pos - 1] == *first_token,
            first_token.token is OpenLoop,
        ensures
            final(self)@.tokens == old(self)@.tokens,
            final(self)@.instructions == old(self)@.instructions,
            old(self)@.pos <= final(self)@.pos <= old(self)@.tokens.len(),
            r matches Ok(ins) ==> spec_parse_fold(
                old(self)@.tokens,
                old(self)@.pos - 1,
                stack@,
                cur@,
            ) == spec_parse_fold(
                old(self)@.tokens,
                final(self)@.pos,
                stack@,
                cur@.push(view_ins(ins)),
            ),
            r matches Err(e) ==> spec_parse_fold(
                old(self)@.tokens,
                old(self)@.pos - 1,
                stack@,
                cur@,
            ) == SpecParse::Failed(e),
        decreases old(self)@.tokens.len() - old(self)@.pos, 0nat,
    {
        let ghost frame = PFrame { open: *first_token, done: cur@ };
        let mut loop_instructions: Vec<Instruction> = Vec::new();
        proof {
            assert(view_seq(loop_instructions@) =~= Seq::<SpecIns>::empty());
        }
        loop
            invariant
                self@.tokens == old(self)@.tokens,
                self@.instructions == old(self)@.instructions,
                old(self)@.pos <= self@.pos <= self@.tokens.len(),
                1 <= old(self)@.pos,
                old(self)@.tokens[old(self)@.pos - 1] == *first_token,
                frame == (PFrame { open: *first_token, done: cur@ }),
                spec_parse_fold(old(self)@.tokens, old(self)@.pos - 1, stack@, cur@)
                    == spec_parse_fold(
                    old(self)@.tokens,
                    self@.pos,
                    stack@.push(frame),
                    view_seq(loop_instructions@),
                ),
            decreases self@.tokens.len() - self@.pos,
        {
            match self.next() {
                None => {
                    return Err(ParserError::UnexpectedEOF(Span::from(
                        first_token.span.from,
                        first_token.span.to,
                    )));
                },
                Some(token) => {
                    if matches!(token.token, TokenType::CloseLoop) {
                        let ghost body = view_seq(loop_instructions@);
                        let result = Instruction::Loop(loop_instructions);
                        proof {
                            assert(view_ins(result) == SpecIns::Loop(body));
                            assert((stack@.push(frame)).last() == frame);
                            assert((stack@.push(frame)).drop_last() =~= stack@);
                        }
                        return Ok(result);
                    }
                    let ghost body_before = view_seq(loop_instructions@);
                    match self.parse_token(
                        &token,
                        Ghost(stack@.push(frame)),
                        Ghost(body_before),
                    ) {
                        Ok(new_token) => {
                            proof {
                                lemma_view_seq_push(loop_instructions@, new_token);
                            }
                            loop_instructions.push(new_token);
                        },
                        Err(e) => {
                            return Err(e);
                        },
                    }
                },
            }
        }
    }

    /// Hands out the next token, if one is left, and moves past it.
    fn next(&mut self) -> (r: Option<LexerToken>)
        ensures
            final(self)@.tokens == old(self)@.tokens,
            final(self)@.instructions == old(self)@.instructions,
            old(self)@.pos < old(self)@.tokens.len() ==> r == Some(
                old(self)@.tokens[old(self)@.pos],
            ) && final(self)@.pos == old(self)@.pos + 1,
            old(self)@.pos >= old(self)@.tokens.len() ==> r is None && final(self)@ == old(
                self,
            )@,
    {
        if self.pos < self.tokens.len() {
            let t = self.tokens[self.pos];
            self.pos = self.pos + 1;
            Some(t)
        } else {
            None
        }
    }
}

/// Pushing an instruction extends the model by its view.
pub proof fn lemma_view_seq_push(s: Seq<Instruction>, x: Instruction)
    ensures
        view_seq(s.push(x)) == view_seq(s).push(view_ins(x)),
{
    lemma_view_seq(s.push(x));
    lemma_view_seq(s);
    assert(view_seq(s.push(x)) =~= view_seq(s).push(view_ins(x)));
}

/// One nested body of [`hello_world_model`].
pub open spec fn spec_hw_loop_2() -> Seq<SpecIns> {
    seq![
        SpecIns::Right(1),
        SpecIns::Add(1),
        SpecIns::Add(1),
        SpecIns::Right(1),
        SpecIns::Add(1),
        SpecIns::Add(1),
        SpecIns::Add(1),
        SpecIns::Right(1),
        SpecIns::Add(1),
        SpecIns::Add(1),
        SpecIns::Add(1),
        SpecIns::Right(1),
        SpecIns::Add(1),
        SpecIns::Left(1),
        SpecIns::Left(1),
        SpecIns::Left(1),
        SpecIns::Left(1),
        SpecIns::Subtract(1),
    ]
}

/// One nested body of [`hello_world_model`].
pub open spec fn spec_hw_loop_3() -> Seq<SpecIns> {
    seq![
        SpecIns::Left(1),
    ]
}

/// One nested body of [`hello_world_model`].
pub open spec fn spec_hw_loop_1() -> Seq<SpecIns> {
    seq![
        SpecIns::Right(1),
        SpecIns::Add(1),
        SpecIns::Add(1),
        SpecIns::Add(1),
        SpecIns::Add(1),
        SpecIns::Loop(spec_hw_loop_2()),
        SpecIns::Right(1),
        SpecIns::Add(1),
        SpecIns::Right(1),
        SpecIns::Add(1),
        SpecIns::Right(1),
        SpecIns::Subtract(1),
        SpecIns::Right(1),
        SpecIns::Right(1),
        SpecIns::Add(1),
        SpecIns::Loop(spec_hw_loop_3()),
        SpecIns::Left(1),
        SpecIns::Subtract(1),
    ]
}

/// The model of [`hello_world`].
pub open spec fn spec_hw_top() -> Seq<SpecIns> {
    seq![
        SpecIns::Add(1),
        SpecIns::Add(1),
        SpecIns::Add(1),
        SpecIns::Add(1),
        SpecIns::Add(1),
        SpecIns::Add(1),
        SpecIns::Add(1),
        SpecIns::Add(1),
        SpecIns::Loop(spec_hw_loop_1()),
        SpecIns::Right(1),
        SpecIns::Right(1),
        SpecIns::Output,
        SpecIns::Right(1),
        SpecIns::Subtract(1),
        SpecIns::Subtract(1),
        SpecIns::Subtract(1),
        SpecIns::Output,
        SpecIns::Add(1),
        SpecIns::Add(1),
        SpecIns::Add(1),
        SpecIns::Add(1),
        SpecIns::Add(1),
        SpecIns::Add(1),
        SpecIns::Add(1),
        SpecIns::Output,
        SpecIns::Output,
        SpecIns::Add(1),
        SpecIns::Add(1),
        SpecIns::Add(1),
        SpecIns::Output,
        SpecIns::Right(1),
        SpecIns::Right(1),
        SpecIns::Output,
        SpecIns::Left(1),
        SpecIns::Subtract(1),
        SpecIns::Output,
        SpecIns::Left(1),
        SpecIns::Output,
        SpecIns::Add(1),
        SpecIns::Add(1),
        SpecIns::Add(1),
        SpecIns::Output,
        SpecIns::Subtract(1),
        SpecIns::Subtract(1),
        SpecIns::Subtract(1),
        SpecIns::Subtract(1),
        SpecIns::Subtract(1),
        SpecIns::Subtract(1),
        SpecIns::Output,
        SpecIns::Subtract(1),
        SpecIns::Subtract(1),
        SpecIns::Subtract(1),
        SpecIns::Subtract(1),
        SpecIns::Subtract(1),
        SpecIns::Subtract(1),
        SpecIns::Subtract(1),
        SpecIns::Subtract(1),
        SpecIns::Output,
        SpecIns::Right(1),
        SpecIns::Right(1),
        SpecIns::Add(1),
        SpecIns::Output,
        SpecIns::Right(1),
        SpecIns::Add(1),
        SpecIns::Add(1),
        SpecIns::Output,
    ]
}

/// The model of the tree [`hello_world`] builds.
pub open spec fn hello_world_model() -> Seq<SpecIns> {
    spec_hw_top()
}

/// A known program that writes the text `Hello World!` followed by a
/// newline, as the parser would build it: single-count instructions
/// only, loops nested two deep.
pub fn hello_world() -> (r: Vec<Instruction>)
    ensures
        view_seq(r@) == hello_world_model(),
{
    let hw_loop_2: Vec<Instruction> = vec![
        Instruction::Right(1),
        Instruction::Add(1),
        Instruction::Add(1),
        Instruction::Right(1),
        Instruction::Add(1),
        Instruction::Add(1),
        Instruction::Add(1),
        Instruction::Right(1),
        Instruction::Add(1),
        Instruction::Add(1),
        Instruction::Add(1),
        Instruction::Right(1),
        Instruction::Add(1),
        Instruction::Left(1),
        Instruction::Left(1),
        Instruction::Left(1),
        Instruction::Left(1),
        Instruction::Subtract(1),
    ];
    proof {
        lemma_view_seq(hw_loop_2@);
        assert(view_seq(hw_loop_2@) =~= spec_hw_loop_2());
    }

    let hw_loop_3: Vec<Instruction> = vec![
        Instruction::Left(1),
    ];
    proof {
        lemma_view_seq(hw_loop_3@);
        assert(view_seq(hw_loop_3@) =~= spec_hw_loop_3());
    }

    let hw_loop_1: Vec<Instruction> = vec![
        Instruction::Right(1),
        Instruction::Add(1),
        Instruction::Add(1),
        Instruction::Add(1),
        Instruction::Add(1),
        Instruction::Loop(hw_loop_2),
        Instruction::Right(1),
        Instruction::Add(1),
        Instruction::Right(1),
        Instruction::Add(1),
        Instruction::Right(1),
        Instruction::Subtract(1),
        Instruction::Right(1),
        Instruction::Right(1),
        Instruction::Add(1),
        Instruction::Loop(hw_loop_3),
        Instruction::Left(1),
        Instruction::Subtract(1),
    ];
    proof {
        lemma_view_seq(hw_loop_1@);
        assert(view_seq(hw_loop_1@) =~= spec_hw_loop_1());
    }

    let hw_top: Vec<Instruction> = vec![
        Instruction::Add(1),
        Instruction::Add(1),
        Instruction::Add(1),
        Instruction::Add(1),
        Instruction::Add(1),
        Instruction::Add(1),
        Instruction::Add(1),
        Instruction::Add(1),
        Instruction::Loop(hw_loop_1),
        Instruction::Right(1),
        Instruction::Right(1),
        Instruction::Output,
        Instruction::Right(1),
        Instruction::Subtract(1),
        Instruction::Subtract(1),
        Instruction::Subtract(1),
        Instruction::Output,
        Instruction::Add(1),
        Instruction::Add(1),
        Instruction::Add(1),
        Instruction::Add(1),
        Instruction::Add(1),
        Instruction::Add(1),
        Instruction::Add(1),
        Instruction::Output,
        Instruction::Output,
        Instruction::Add(1),
        Instruction::Add(1),
        Instruction::Add(1),
        Instruction::Output,
        Instruction::Right(1),
        Instruction::Right(1),
        Instruction::Output,
        Instruction::Left(1),
        Instruction::Subtract(1),
        Instruction::Output,
        Instruction::Left(1),
        Instruction::Output,
        Instruction::Add(1),
        Instruction::Add(1),
        Instruction::Add(1),
        Instruction::Output,
        Instruction::Subtract(1),
        Instruction::Subtract(1),
        Instruction::Subtract(1),
        Instruction::Subtract(1),
        Instruction::Subtract(1),
        Instruction::Subtract(1),
        Instruction::Output,
        Instruction::Subtract(1),
        Instruction::Subtract(1),
        Instruction::Subtract(1),
        Instruction::Subtract(1),
        Instruction::Subtract(1),
        Instruction::Subtract(1),
        Instruction::Subtract(1),
        Instruction::Subtract(1),
        Instruction::Output,
        Instruction::Right(1),
        Instruction::Right(1),
        Instruction::Add(1),
        Instruction::Output,
        Instruction::Right(1),
        Instruction::Add(1),
        Instruction::Add(1),
        Instruction::Output,
    ];
    proof {
        lemma_view_seq(hw_top@);
        assert(view_seq(hw_top@) =~= spec_hw_top());
    }

    hw_top
}

} // verus!
