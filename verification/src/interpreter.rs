//! The interpreter: executes an instruction tree against the tape,
//! proved to produce exactly the state and output that the execution
//! model in [`crate::semantics`] assigns to the tree.
//!
//! The byte sink and byte source are in-memory buffers: the output
//! accumulates in the interpreter, and the input is supplied up front.
//! A run takes a fuel budget, paid once per loop iteration; a run that
//! exhausts it reports so, and a larger budget never changes a decided
//! outcome.

use vstd::prelude::*;
use vstd::arithmetic::div_mod::{
    lemma_add_mod_noop_right, lemma_mod_add_multiples_vanish, lemma_mod_bound,
    lemma_mul_mod_noop_right, lemma_small_mod, lemma_sub_mod_noop_right,
};
use crate::ast::{Instruction, SpecIns, view_ins, view_seq, lemma_view_seq, ins_size, seq_size,
    lemma_seq_size_element};
use crate::semantics::{
    State, Outcome, state_wf, wrap_ptr, byte_add, byte_mul_add, multiply_effect, eval_ins,
    eval_seq, eval_loop, MEM_SIZE, CELL_MOD,
};
use crate::lexer::{lex, spec_lex};
use crate::parser::{Parser, ParserError, SpecParse, spec_parse};
use crate::optimizer::{Optimizer, opt_seq};
use vstd::string::StringSliceAdditionalSpecFns;

verus! {

/// A fatal condition met while running: the input was exhausted by a
/// read, or the fuel budget was spent by a loop iteration.
#[derive(Eq, PartialEq, Debug, Clone, Copy)]
pub enum RunError {
    InputExhausted,
    OutOfFuel,
}

/// Everything the whole pipeline can report: a structural error found
/// by the parser — execution never starts — or a fatal condition met
/// while running.
#[derive(Eq, PartialEq, Debug, Clone, Copy)]
pub enum InterpretError {
    Parse(ParserError),
    Runtime(RunError),
}

/// Owns the tape, the pointer, the not-yet-read input and the output
/// written so far. One instance lives for one program run.
pub struct Interpreter {
    cells: Vec<u8>,
    pointer: usize,
    input: Vec<u8>,
    input_pos: usize,
    out: Vec<u8>,
}

impl View for Interpreter {
    type V = State;

    closed spec fn view(&self) -> State {
        State {
            tape: self.cells@,
            ptr: self.pointer as int,
            input: self.input@.subrange(self.input_pos as int, self.input@.len() as int),
            output: self.out@,
        }
    }
}

impl Interpreter {
    /// The interpreter's internal soundness: the fixed tape, a pointer
    /// on it, and an input cursor within the buffer.
    pub closed spec fn wf(&self) -> bool {
        &&& self.cells@.len() == MEM_SIZE
        &&& self.pointer < MEM_SIZE
        &&& self.input_pos <= self.input@.len()
    }

    /// A well-formed interpreter is a well-formed machine state.
    pub proof fn lemma_wf_state(&self)
        requires
            self.wf(),
        ensures
            state_wf(self@),
    {
    }

    /// A fresh machine: every cell zero, the pointer at cell 0, no
    /// input, no output.
    pub fn new() -> (r: Self)
        ensures
            r.wf(),
            r@.tape == Seq::new(MEM_SIZE as nat, |i: int| 0u8),
            r@.ptr == 0,
            r@.input == Seq::<u8>::empty(),
            r@.output == Seq::<u8>::empty(),
    {
        let mut cells: Vec<u8> = Vec::new();
        let mut i: usize = 0;
        while i < MEM_SIZE
            invariant
                cells@.len() == i,
                i <= MEM_SIZE,
                forall|j: int| 0 <= j < i ==> cells@[j] == 0,
            decreases MEM_SIZE - i,
        {
            cells.push(0);
            i = i + 1;
        }
        let r = Interpreter { cells, pointer: 0, input: Vec::new(), input_pos: 0, out: Vec::new() };
        proof {
            assert(r@.tape =~= Seq::new(MEM_SIZE as nat, |i: int| 0u8));
            assert(r@.input =~= Seq::<u8>::empty());
        }
        r
    }

    /// Supplies the bytes that `Input` instructions will read, replacing
    /// any input given before.
    pub fn set_input(&mut self, input: Vec<u8>) -> (r: ())
        requires
            old(self).wf(),
        ensures
            final(self).wf(),
            final(self)@ == (State { input: input@, ..old(self)@ }),
    {
        self.input = input;
        self.input_pos = 0;
        proof {
            assert(self@.input =~= self.input@);
        }
    }

    /// The bytes written so far.
    pub fn output(&self) -> (r: &Vec<u8>)
        ensures
            r@ == self@.output,
    {
        &self.out
    }

    /// Runs the instructions in order against the machine, exactly as
    /// [`eval_seq`] says, with `fuel` iterations available to each loop
    /// entered.
    pub fn interpret_ins(&mut self, instructions: &Vec<Instruction>, fuel: u64) -> (r: Result<
        (),
        RunError,
    >)
        requires
            old(self).wf(),
        ensures
            final(self).wf(),
            match eval_seq(view_seq(instructions@), old(self)@, fuel as nat) {
                Outcome::Halted(s) => r is Ok && final(self)@ == s,
                Outcome::NoInput(s) => r == Result::<(), RunError>::Err(RunError::InputExhausted)
                    && final(self)@ == s,
                Outcome::Cutoff(s) => r == Result::<(), RunError>::Err(RunError::OutOfFuel)
                    && final(self)@ == s,
            },
        decreases fuel, seq_size(view_seq(instructions@)), 0nat,
    {
        let ghost full = view_seq(instructions@);
        proof {
            lemma_view_seq(instructions@);
        }
        let n = instructions.len();
        proof {
            assert(full.subrange(0, n as int) =~= full);
        }
        let mut i: usize = 0;
        while i < n
            invariant
                self.wf(),
                n == instructions@.len(),
                i <= n,
                full == view_seq(instructions@),
                full.len() == n,
                forall|j: int| 0 <= j < n ==> full[j] == view_ins(instructions@[j]),
                eval_seq(full.subrange(i as int, n as int), self@, fuel as nat) == eval_seq(
                    full,
                    old(self)@,
                    fuel as nat,
                ),
            decreases n - i,
        {
            let ghost pre = self@;
            let ghost suffix = full.subrange(i as int, n as int);
            proof {
                assert(suffix[0] == full[i as int]);
                assert(suffix.subrange(1, suffix.len() as int) =~= full.subrange(
                    i as int + 1,
                    n as int,
                ));
            }
            match &instructions[i] {
                Instruction::Left(amount) => {
                    proof {
                        lemma_mod_bound(*amount as int, MEM_SIZE as int);
                    }
                    let m = amount.checked_rem_euclid(MEM_SIZE as isize).unwrap();
                    self.offset_to_pointer(MEM_SIZE as isize - m);
                    proof {
                        lemma_sub_mod_noop_right(
                            pre.ptr + MEM_SIZE as int,
                            *amount as int,
                            MEM_SIZE as int,
                        );
                        lemma_mod_add_multiples_vanish(
                            pre.ptr - *amount as int,
                            MEM_SIZE as int,
                        );
                        assert(self@.ptr == wrap_ptr(pre.ptr - *amount as int));
                        assert(self@ =~= (State { ptr: wrap_ptr(pre.ptr - *amount), ..pre }));
                    }
                },
                Instruction::Right(amount) => {
                    self.offset_to_pointer(*amount);
                    proof {
                        assert(self@ =~= (State { ptr: wrap_ptr(pre.ptr + *amount), ..pre }));
                    }
                },
                Instruction::Add(amount) => {
                    let p = self.pointer;
                    let c = self.cells[p];
                    let v = add_to_u8(c, *amount);
                    self.cells[p] = v;
                    proof {
                        assert(self@.tape =~= pre.tape.update(
                            pre.ptr,
                            byte_add(pre.tape[pre.ptr], *amount as int),
                        ));
                        assert(self@ =~= (State {
                            tape: pre.tape.update(
                                pre.ptr,
                                byte_add(pre.tape[pre.ptr], *amount as int),
                            ),
                            ..pre
                        }));
                    }
                },
                Instruction::Subtract(amount) => {
                    let p = self.pointer;
                    let c = self.cells[p];
                    proof {
                        lemma_mod_bound(*amount as int, CELL_MOD as int);
                        lemma_sub_mod_noop_right(c as int, *amount as int, CELL_MOD as int);
                    }
                    let m = amount.checked_rem_euclid(CELL_MOD as isize).unwrap() as u8;
                    let v = c.wrapping_sub(m);
                    proof {
                        if c >= m {
                            lemma_small_mod((c - m) as nat, CELL_MOD as nat);
                        } else {
                            lemma_mod_add_multiples_vanish(c as int - m as int, CELL_MOD as int);
                            lemma_small_mod((c - m + CELL_MOD) as nat, CELL_MOD as nat);
                        }
                        assert(v == byte_add(c, -(*amount as int)));
                    }
                    self.cells[p] = v;
                    proof {
                        assert(self@.tape =~= pre.tape.update(
                            pre.ptr,
                            byte_add(pre.tape[pre.ptr], -(*amount as int)),
                        ));
                        assert(self@ =~= (State {
                            tape: pre.tape.update(
                                pre.ptr,
                                byte_add(pre.tape[pre.ptr], -(*amount as int)),
                            ),
                            ..pre
                        }));
                    }
                },
                Instruction::Clear => {
                    let p = self.pointer;
                    self.cells[p] = 0;
                    proof {
                        assert(self@.tape =~= pre.tape.update(pre.ptr, 0u8));
                        assert(self@ =~= (State { tape: pre.tape.update(pre.ptr, 0u8), ..pre }));
                    }
                },
                Instruction::Output => {
                    let p = self.pointer;
                    let c = self.cells[p];
                    self.out.push(c);
                    proof {
                        assert(self@ =~= (State {
                            output: pre.output.push(pre.tape[pre.ptr]),
                            ..pre
                        }));
                    }
                },
                Instruction::Input => {
                    if self.input_pos < self.input.len() {
                        let b = self.input[self.input_pos];
                        let p = self.pointer;
                        self.cells[p] = b;
                        self.input_pos = self.input_pos + 1;
                        proof {
                            assert(pre.input[0] == b);
                            assert(self@.input =~= pre.input.subrange(
                                1,
                                pre.input.len() as int,
                            ));
                            assert(self@ =~= (State {
                                tape: pre.tape.update(pre.ptr, pre.input[0]),
                                input: pre.input.subrange(1, pre.input.len() as int),
                                ..pre
                            }));
                        }
                    } else {
                        proof {
                            assert(pre.input.len() == 0);
                            assert(suffix[0] == SpecIns::Input);
                            assert(eval_ins(SpecIns::Input, pre, fuel as nat)
                                == Outcome::NoInput(pre));
                            assert(eval_seq(suffix, pre, fuel as nat) == Outcome::NoInput(pre));
                        }
                        return Err(RunError::InputExhausted);
                    }
                },
                Instruction::Multiply { multiplicand, offset } => {
                    let old_pointer = self.pointer;
                    let src = self.cells[old_pointer];
                    self.offset_to_pointer(*offset);
                    let t = self.pointer;
                    let dst = self.cells[t];
                    let addend = multiply_to_u8(src, *multiplicand);
                    proof {
                        lemma_add_mod_noop_right(
                            dst as int,
                            src as int * *multiplicand as int,
                            CELL_MOD as int,
                        );
                        lemma_mod_bound(
                            dst as int + addend as int,
                            CELL_MOD as int,
                        );
                    }
                    let v = dst.wrapping_add(addend);
                    proof {
                        assert(v == byte_mul_add(dst, src, *multiplicand as int));
                    }
                    self.cells[t] = v;
                    self.pointer = old_pointer;
                    self.cells[old_pointer] = 0;
                    proof {
                        assert(t as int == wrap_ptr(pre.ptr + *offset as int));
                        assert(self@.tape =~= pre.tape.update(
                            t as int,
                            byte_mul_add(pre.tape[t as int], pre.tape[pre.ptr], *multiplicand as int),
                        ).update(pre.ptr, 0u8));
                        assert(self@ =~= multiply_effect(
                            pre,
                            *multiplicand as int,
                            *offset as int,
                        ));
                    }
                },
                Instruction::Loop(loop_instructions) => {
                    proof {
                        lemma_seq_size_element(full, i as int);
                        assert(ins_size(full[i as int]) == 1 + seq_size(
                            view_seq(loop_instructions@),
                        ));
                    }
                    match self.interpret_loop(loop_instructions, fuel) {
                        Ok(()) => {},
                        Err(e) => {
                            proof {
                                assert(suffix[0] == SpecIns::Loop(view_seq(loop_instructions@)));
                                assert(eval_ins(suffix[0], pre, fuel as nat) == eval_loop(
                                    view_seq(loop_instructions@),
                                    pre,
                                    fuel as nat,
                                ));
                                assert(eval_seq(suffix, pre, fuel as nat) == eval_loop(
                                    view_seq(loop_instructions@),
                                    pre,
                                    fuel as nat,
                                ));
                            }
                            return Err(e);
                        },
                    }
                },
            }
            proof {
                assert(eval_seq(suffix, pre, fuel as nat) == eval_seq(
                    full.subrange(i as int + 1, n as int),
                    self@,
                    fuel as nat,
                ));
            }
            i = i + 1;
        }
        proof {
            assert(full.subrange(n as int, n as int) =~= Seq::<SpecIns>::empty());
        }
        Ok(())
    }

    /// The whole pipeline on one source text: tokenize, parse,
    /// optionally optimize, and run against this machine. A structural
    /// error in the source is returned before execution starts and
    /// leaves the machine untouched; otherwise the machine ends exactly
    /// as [`eval_seq`] says of the (optimized) program.
    pub fn interpret(&mut self, src: &str, opt: bool, fuel: u64) -> (r: Result<
        (),
        InterpretError,
    >)
        requires
            old(self).wf(),
        ensures
            final(self).wf(),
            match spec_parse(spec_lex(src.spec_bytes(), 0)) {
                SpecParse::Failed(e) => r == Result::<(), InterpretError>::Err(
                    InterpretError::Parse(e),
                ) && final(self)@ == old(self)@,
                SpecParse::Parsed(ins) => {
                    let prog = if opt {
                        opt_seq(ins)
                    } else {
                        ins
                    };
                    match eval_seq(prog, old(self)@, fuel as nat) {
                        Outcome::Halted(s) => r is Ok && final(self)@ == s,
                        Outcome::NoInput(s) => r == Result::<(), InterpretError>::Err(
                            InterpretError::Runtime(RunError::InputExhausted),
                        ) && final(self)@ == s,
                        Outcome::Cutoff(s) => r == Result::<(), InterpretError>::Err(
                            InterpretError::Runtime(RunError::OutOfFuel),
                        ) && final(self)@ == s,
                    }
                },
            },
    {
        let tokens = lex(src);
        match Parser::new(tokens).parse() {
            Ok(instructions) => {
                let run = if opt {
                    let optimized = Optimizer::new(&instructions).optimize();
                    self.interpret_ins(&optimized, fuel)
                } else {
                    self.interpret_ins(&instructions, fuel)
                };
                match run {
                    Ok(()) => Ok(()),
                    Err(e) => Err(InterpretError::Runtime(e)),
                }
            },
            Err(e) => Err(InterpretError::Parse(e)),
        }
    }

    /// Runs one loop: while the current cell is nonzero, runs the body
    /// once and pays one fuel, exactly as [`eval_loop`] says.
    fn interpret_loop(&mut self, instructions: &Vec<Instruction>, fuel: u64) -> (r: Result<
        (),
        RunError,
    >)
        requires
            old(self).wf(),
        ensures
            final(self).wf(),
            match eval_loop(view_seq(instructions@), old(self)@, fuel as nat) {
                Outcome::Halted(s) => r is Ok && final(self)@ == s,
                Outcome::NoInput(s) => r == Result::<(), RunError>::Err(RunError::InputExhausted)
                    && final(self)@ == s,
                Outcome::Cutoff(s) => r == Result::<(), RunError>::Err(RunError::OutOfFuel)
                    && final(self)@ == s,
            },
        decreases fuel, seq_size(view_seq(instructions@)), 1nat,
    {
        let mut fuel_left = fuel;
        loop
            invariant
                self.wf(),
                fuel_left <= fuel,
                eval_loop(view_seq(instructions@), self@, fuel_left as nat) == eval_loop(
                    view_seq(instructions@),
                    old(self)@,
                    fuel as nat,
                ),
            decreases fuel_left,
        {
            let p = self.pointer;
            let c = self.cells[p];
            if c == 0 {
                return Ok(());
            }
            if fuel_left == 0 {
                return Err(RunError::OutOfFuel);
            }
            let ghost pre = self@;
            match self.interpret_ins(instructions, fuel_left) {
                Ok(()) => {
                    proof {
                        assert(eval_loop(view_seq(instructions@), pre, fuel_left as nat)
                            == eval_loop(
                            view_seq(instructions@),
                            self@,
                            (fuel_left - 1) as nat,
                        ));
                    }
                    fuel_left = fuel_left - 1;
                },
                Err(e) => {
                    proof {
                        assert(pre.tape[pre.ptr] != 0);
                        assert(eval_loop(view_seq(instructions@), pre, fuel_left as nat)
                            == eval_seq(view_seq(instructions@), pre, fuel_left as nat));
                    }
                    return Err(e);
                },
            }
        }
    }

    /// Moves the pointer by `offset` cells to the right (negative:
    /// left), wrapping on the tape in either direction.
    fn offset_to_pointer(&mut self, offset: isize) -> (r: ())
        requires
            old(self).wf(),
        ensures
            final(self).wf(),
            final(self)@ == (State { ptr: wrap_ptr(old(self)@.ptr + offset), ..old(self)@ }),
    {
        proof {
            lemma_mod_bound(offset as int, MEM_SIZE as int);
        }
        let m = offset.checked_rem_euclid(MEM_SIZE as isize).unwrap() as usize;
        proof {
            lemma_add_mod_noop_right(self.pointer as int, offset as int, MEM_SIZE as int);
            lemma_mod_bound(self.pointer as int + m as int, MEM_SIZE as int);
        }
        self.pointer = (self.pointer + m) % MEM_SIZE;
    }
}

/// Adds `addition` to a byte, wrapping modulo 256: the executable form
/// of [`byte_add`].
pub fn add_to_u8(cell: u8, addition: isize) -> (r: u8)
    ensures
        r == byte_add(cell, addition as int),
{
    proof {
        lemma_mod_bound(addition as int, CELL_MOD as int);
        lemma_add_mod_noop_right(cell as int, addition as int, CELL_MOD as int);
    }
    let m = addition.checked_rem_euclid(CELL_MOD as isize).unwrap() as u8;
    cell.wrapping_add(m)
}

/// Multiplies a byte by `multiplier`, wrapping modulo 256: the product
/// term of [`byte_mul_add`].
pub fn multiply_to_u8(cell: u8, multiplier: isize) -> (r: u8)
    ensures
        r as int == (cell * multiplier) % (CELL_MOD as int),
{
    proof {
        lemma_mod_bound(multiplier as int, CELL_MOD as int);
        lemma_mul_mod_noop_right(cell as int, multiplier as int, CELL_MOD as int);
    }
    let m = multiplier.checked_rem_euclid(CELL_MOD as isize).unwrap() as u16;
    proof {
        assert((cell as int) * (m as int) < 65536) by (nonlinear_arith)
            requires
                0 <= cell as int <= 255,
                0 <= (m as int) && (m as int) < 256,
        ;
    }
    let prod = (cell as u16) * m;
    (prod % (CELL_MOD as u16)) as u8
}

} // verus!
