//! The execution model: what running an instruction tree means.
//!
//! Execution is defined as a total function over a machine state and a
//! fuel budget. Fuel is consumed only when a loop starts an iteration, so
//! a run that never exhausts its fuel is a faithful account of an
//! unbounded run, and the result is monotone in the fuel: granting more
//! fuel never changes an outcome that was already decided.

use vstd::prelude::*;
use crate::ast::{SpecIns, ins_size, seq_size};

verus! {

/// Number of byte cells on the tape.
pub const MEM_SIZE: usize = 32_000;

/// Number of values a byte cell can hold; cell arithmetic wraps at this
/// modulus.
pub const CELL_MOD: usize = 256;

/// A snapshot of the machine: the tape, the cell pointer, the input
/// bytes not yet read, and the output bytes written so far.
#[verifier::ext_equal]
pub ghost struct State {
    pub tape: Seq<u8>,
    pub ptr: int,
    pub input: Seq<u8>,
    pub output: Seq<u8>,
}

/// The tape has its fixed length and the pointer addresses a cell.
pub open spec fn state_wf(s: State) -> bool {
    &&& s.tape.len() == MEM_SIZE
    &&& 0 <= s.ptr < MEM_SIZE
}

/// What a bounded run ended as: `Halted` when the instructions were
/// exhausted, `NoInput` when a read found the input empty (a fatal
/// error), `Cutoff` when a loop iteration found the fuel spent. Each
/// carries the state at that moment.
#[verifier::ext_equal]
pub ghost enum Outcome {
    Halted(State),
    NoInput(State),
    Cutoff(State),
}

/// Wraps a pointer displacement onto the tape: always lands on a cell.
pub open spec fn wrap_ptr(p: int) -> int {
    p % (MEM_SIZE as int)
}

/// A cell after adding `n` (any integer), wrapping modulo 256.
pub open spec fn byte_add(cell: u8, n: int) -> u8 {
    (((cell + n) % (CELL_MOD as int))) as u8
}

/// A cell after adding `k` times `src`, wrapping modulo 256.
pub open spec fn byte_mul_add(cell: u8, src: u8, k: int) -> u8 {
    (((cell + src * k) % (CELL_MOD as int))) as u8
}

/// The state after one non-looping instruction. `Loop` is handled by
/// [`eval_loop`].
pub open spec fn eval_ins(i: SpecIns, s: State, fuel: nat) -> Outcome
    decreases fuel, ins_size(i), 0nat, 0nat,
{
    match i {
        SpecIns::Loop(body) => eval_loop(body, s, fuel),
        SpecIns::Add(n) => Outcome::Halted(
            State { tape: s.tape.update(s.ptr, byte_add(s.tape[s.ptr], n)), ..s },
        ),
        SpecIns::Subtract(n) => Outcome::Halted(
            State { tape: s.tape.update(s.ptr, byte_add(s.tape[s.ptr], -n)), ..s },
        ),
        SpecIns::Left(n) => Outcome::Halted(State { ptr: wrap_ptr(s.ptr - n), ..s }),
        SpecIns::Right(n) => Outcome::Halted(State { ptr: wrap_ptr(s.ptr + n), ..s }),
        SpecIns::Clear => Outcome::Halted(State { tape: s.tape.update(s.ptr, 0), ..s }),
        SpecIns::Output => Outcome::Halted(
            State { output: s.output.push(s.tape[s.ptr]), ..s },
        ),
        SpecIns::Input => if s.input.len() == 0 {
            Outcome::NoInput(s)
        } else {
            Outcome::Halted(
                State {
                    tape: s.tape.update(s.ptr, s.input[0]),
                    input: s.input.subrange(1, s.input.len() as int),
                    ..s
                },
            )
        },
        SpecIns::Multiply { multiplicand, offset } => Outcome::Halted(
            multiply_effect(s, multiplicand, offset),
        ),
    }
}

/// The state after a `Multiply`: the cell `offset` away gains
/// `multiplicand` times the current cell (wrapping), then the current
/// cell is zeroed; the pointer does not move.
pub open spec fn multiply_effect(s: State, multiplicand: int, offset: int) -> State {
    let target = wrap_ptr(s.ptr + offset);
    let grown = s.tape.update(target, byte_mul_add(s.tape[target], s.tape[s.ptr], multiplicand));
    State { tape: grown.update(s.ptr, 0), ..s }
}

/// Runs a sequence of instructions in order, stopping at the first
/// non-`Halted` outcome.
pub open spec fn eval_seq(list: Seq<SpecIns>, s: State, fuel: nat) -> Outcome
    decreases fuel, seq_size(list), list.len(), 1nat,
{
    if list.len() == 0 {
        Outcome::Halted(s)
    } else {
        match eval_ins(list[0], s, fuel) {
            Outcome::Halted(s1) => eval_seq(list.subrange(1, list.len() as int), s1, fuel),
            o => o,
        }
    }
}

/// Runs a loop: while the current cell is nonzero, one iteration of the
/// body, paying one fuel per iteration started.
pub open spec fn eval_loop(body: Seq<SpecIns>, s: State, fuel: nat) -> Outcome
    decreases fuel, seq_size(body), body.len(), 2nat,
{
    if s.tape[s.ptr] == 0 {
        Outcome::Halted(s)
    } else if fuel == 0 {
        Outcome::Cutoff(s)
    } else {
        match eval_seq(body, s, fuel) {
            Outcome::Halted(s1) => eval_loop(body, s1, (fuel - 1) as nat),
            o => o,
        }
    }
}

/// Fuel monotonicity: granting more fuel never changes an outcome that
/// was already decided.
pub proof fn lemma_eval_ins_mono(i: SpecIns, s: State, f1: nat, f2: nat)
    requires
        f1 <= f2,
        !(eval_ins(i, s, f1) is Cutoff),
    ensures
        eval_ins(i, s, f2) == eval_ins(i, s, f1),
    decreases f1, ins_size(i), 0nat, 0nat,
{
    match i {
        SpecIns::Loop(body) => {
            lemma_eval_loop_mono(body, s, f1, f2);
        },
        _ => {},
    }
}

/// Fuel monotonicity: granting more fuel never changes an outcome that
/// was already decided.
pub proof fn lemma_eval_seq_mono(list: Seq<SpecIns>, s: State, f1: nat, f2: nat)
    requires
        f1 <= f2,
        !(eval_seq(list, s, f1) is Cutoff),
    ensures
        eval_seq(list, s, f2) == eval_seq(list, s, f1),
    decreases f1, seq_size(list), list.len(), 1nat,
{
    if list.len() > 0 {
        lemma_eval_ins_mono(list[0], s, f1, f2);
        match eval_ins(list[0], s, f1) {
            Outcome::Halted(s1) => {
                lemma_eval_seq_mono(list.subrange(1, list.len() as int), s1, f1, f2);
            },
            _ => {},
        }
    }
}

/// Fuel monotonicity: granting more fuel never changes an outcome that
/// was already decided.
pub proof fn lemma_eval_loop_mono(body: Seq<SpecIns>, s: State, f1: nat, f2: nat)
    requires
        f1 <= f2,
        !(eval_loop(body, s, f1) is Cutoff),
    ensures
        eval_loop(body, s, f2) == eval_loop(body, s, f1),
    decreases f1, seq_size(body), body.len(), 2nat,
{
    if s.tape[s.ptr] != 0 {
        lemma_eval_seq_mono(body, s, f1, f2);
        match eval_seq(body, s, f1) {
            Outcome::Halted(s1) => {
                lemma_eval_loop_mono(body, s1, (f1 - 1) as nat, (f2 - 1) as nat);
            },
            _ => {},
        }
    }
}

/// Pointer wrap-around: one step left from cell 0 lands on the last
/// cell, and one step right from the last cell lands on cell 0 — never
/// an underflow or an out-of-range index.
pub proof fn lemma_pointer_wraparound(s: State, fuel: nat)
    requires
        state_wf(s),
    ensures
        s.ptr == 0 ==> eval_ins(SpecIns::Left(1), s, fuel) == Outcome::Halted(
            State { ptr: MEM_SIZE - 1, ..s },
        ),
        s.ptr == MEM_SIZE - 1 ==> eval_ins(SpecIns::Right(1), s, fuel) == Outcome::Halted(
            State { ptr: 0, ..s },
        ),
{
    assert((-1int) % (MEM_SIZE as int) == MEM_SIZE - 1);
    assert((MEM_SIZE as int) % (MEM_SIZE as int) == 0);
}

/// Byte wrap-around: incrementing a cell holding 255 yields 0, and
/// decrementing a cell holding 0 yields 255.
pub proof fn lemma_byte_wraparound()
    ensures
        byte_add(255, 1) == 0,
        byte_add(0, -1) == 255,
{
    assert(256int % 256 == 0);
    assert((-1int) % 256 == 255);
}

} // verus!
