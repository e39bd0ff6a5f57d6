//! The optimizer's soundness. The main results: running an optimized
//! tree is indistinguishable from running the original
//! ([`lemma_optimizer_equivalence`] — any outcome the original reaches
//! within its fuel, the optimized tree reaches with the same fuel), a
//! second optimizer run changes nothing
//! ([`lemma_optimize_idempotent`]), and the two idiom rewrites both
//! fire ([`lemma_clear_classified`], [`lemma_multiply_classified`])
//! and run right ([`lemma_clear_loop`], [`lemma_mult_loop`]).

use vstd::prelude::*;
use vstd::arithmetic::div_mod::{
    lemma_add_mod_noop, lemma_add_mod_noop_right, lemma_mod_bound, lemma_small_mod,
};
use crate::ast::{SpecIns, ins_size, seq_size};
use crate::semantics::{
    State, Outcome, state_wf, wrap_ptr, byte_add, byte_mul_add, multiply_effect, eval_ins,
    eval_seq, eval_loop, MEM_SIZE, CELL_MOD,
};
use crate::optimizer::{
    count_max, is_arith, is_move, mergeable, merge2, merge_push, merge_go, merge_pass,
    combinable, combine2, cancel_push, cancel_go, cancel_pass, classify_loop, opt_ins,
    idiom_pass, opt_seq, lemma_merge_pass_size,
};

verus! {

/// Adding twice is adding the sum, modulo 256.
pub proof fn lemma_byte_add_twice(c: u8, a: int, b: int)
    ensures
        byte_add(byte_add(c, a), b) == byte_add(c, a + b),
{
    let m = CELL_MOD as int;
    lemma_mod_bound(c + a, m);
    lemma_add_mod_noop(c + a, b, m);
    lemma_add_mod_noop_right((c + a) % m, b, m);
}

/// Adding zero changes no byte.
pub proof fn lemma_byte_add_zero(c: u8)
    ensures
        byte_add(c, 0) == c,
{
    lemma_small_mod(c as nat, CELL_MOD as nat);
}

/// Wrapping twice is wrapping the sum.
pub proof fn lemma_wrap_twice(p: int, a: int, b: int)
    ensures
        wrap_ptr(wrap_ptr(p + a) + b) == wrap_ptr(p + a + b),
{
    let m = MEM_SIZE as int;
    lemma_mod_bound(p + a, m);
    lemma_add_mod_noop(p + a, b, m);
    lemma_add_mod_noop_right((p + a) % m, b, m);
}

/// Wrapping a pointer already on the tape changes nothing.
pub proof fn lemma_wrap_id(p: int)
    requires
        0 <= p < MEM_SIZE,
    ensures
        wrap_ptr(p) == p,
{
    lemma_small_mod(p as nat, MEM_SIZE as nat);
}

/// Execution keeps the state well-formed, whatever the outcome.
pub proof fn lemma_eval_ins_wf(i: SpecIns, s: State, fuel: nat)
    requires
        state_wf(s),
    ensures
        match eval_ins(i, s, fuel) {
            Outcome::Halted(s1) => state_wf(s1),
            Outcome::NoInput(s1) => state_wf(s1),
            Outcome::Cutoff(s1) => state_wf(s1),
        },
    decreases fuel, ins_size(i), 0nat, 0nat,
{
    match i {
        SpecIns::Loop(body) => {
            lemma_eval_loop_wf(body, s, fuel);
        },
        SpecIns::Left(n) => {
            lemma_mod_bound(s.ptr - n, MEM_SIZE as int);
        },
        SpecIns::Right(n) => {
            lemma_mod_bound(s.ptr + n, MEM_SIZE as int);
        },
        _ => {},
    }
}

/// Execution keeps the state well-formed, whatever the outcome.
pub proof fn lemma_eval_seq_wf(list: Seq<SpecIns>, s: State, fuel: nat)
    requires
        state_wf(s),
    ensures
        match eval_seq(list, s, fuel) {
            Outcome::Halted(s1) => state_wf(s1),
            Outcome::NoInput(s1) => state_wf(s1),
            Outcome::Cutoff(s1) => state_wf(s1),
        },
    decreases fuel, seq_size(list), list.len(), 1nat,
{
    if list.len() > 0 {
        lemma_eval_ins_wf(list[0], s, fuel);
        match eval_ins(list[0], s, fuel) {
            Outcome::Halted(s1) => {
                lemma_eval_seq_wf(list.subrange(1, list.len() as int), s1, fuel);
            },
            _ => {},
        }
    }
}

/// Execution keeps the state well-formed, whatever the outcome.
pub proof fn lemma_eval_loop_wf(body: Seq<SpecIns>, s: State, fuel: nat)
    requires
        state_wf(s),
    ensures
        match eval_loop(body, s, fuel) {
            Outcome::Halted(s1) => state_wf(s1),
            Outcome::NoInput(s1) => state_wf(s1),
            Outcome::Cutoff(s1) => state_wf(s1),
        },
    decreases fuel, seq_size(body), body.len(), 2nat,
{
    if s.tape[s.ptr] != 0 && fuel > 0 {
        lemma_eval_seq_wf(body, s, fuel);
        match eval_seq(body, s, fuel) {
            Outcome::Halted(s1) => {
                lemma_eval_loop_wf(body, s1, (fuel - 1) as nat);
            },
            _ => {},
        }
    }
}

/// Running a concatenation is running the parts in order.
pub proof fn lemma_eval_seq_concat(a: Seq<SpecIns>, b: Seq<SpecIns>, s: State, fuel: nat)
    ensures
        eval_seq(a + b, s, fuel) == (match eval_seq(a, s, fuel) {
            Outcome::Halted(s1) => eval_seq(b, s1, fuel),
            o => o,
        }),
    decreases a.len(),
{
    if a.len() == 0 {
        assert(a + b =~= b);
    } else {
        assert((a + b)[0] == a[0]);
        assert((a + b).subrange(1, (a + b).len() as int) =~= a.subrange(1, a.len() as int) + b);
        match eval_ins(a[0], s, fuel) {
            Outcome::Halted(s1) => {
                lemma_eval_seq_concat(a.subrange(1, a.len() as int), b, s1, fuel);
            },
            _ => {},
        }
    }
}

/// A cell-arithmetic instruction adds its signed count to the current
/// cell, modulo 256, and touches nothing else.
pub proof fn lemma_eval_arith(i: SpecIns, s: State, fuel: nat)
    requires
        is_arith(i),
    ensures
        eval_ins(i, s, fuel) == Outcome::Halted(
            State {
                tape: s.tape.update(s.ptr, byte_add(s.tape[s.ptr], i.signed_count())),
                ..s
            },
        ),
{
}

/// A pointer move adds its signed count to the pointer, wrapping, and
/// touches nothing else.
pub proof fn lemma_eval_move(i: SpecIns, s: State, fuel: nat)
    requires
        is_move(i),
    ensures
        eval_ins(i, s, fuel) == Outcome::Halted(
            State { ptr: wrap_ptr(s.ptr + i.signed_count()), ..s },
        ),
{
}

/// Two adjacent cell-arithmetic instructions add the sum of their
/// signed counts.
pub proof fn lemma_pair_arith(x: SpecIns, y: SpecIns, s: State, fuel: nat)
    requires
        state_wf(s),
        is_arith(x),
        is_arith(y),
    ensures
        eval_seq(seq![x, y], s, fuel) == Outcome::Halted(
            State {
                tape: s.tape.update(
                    s.ptr,
                    byte_add(s.tape[s.ptr], x.signed_count() + y.signed_count()),
                ),
                ..s
            },
        ),
{
    reveal_with_fuel(eval_seq, 4);
    let pair = seq![x, y];
    assert(pair.subrange(1, 2) =~= seq![y]);
    assert(seq![y].subrange(1, 1) =~= Seq::<SpecIns>::empty());
    lemma_eval_arith(x, s, fuel);
    let s1 = State { tape: s.tape.update(s.ptr, byte_add(s.tape[s.ptr], x.signed_count())), ..s };
    lemma_eval_arith(y, s1, fuel);
    lemma_byte_add_twice(s.tape[s.ptr], x.signed_count(), y.signed_count());
    assert(s1.tape.update(s1.ptr, byte_add(s1.tape[s1.ptr], y.signed_count())) =~= s.tape.update(
        s.ptr,
        byte_add(s.tape[s.ptr], x.signed_count() + y.signed_count()),
    ));
}

/// Two adjacent pointer moves add the sum of their signed counts.
pub proof fn lemma_pair_move(x: SpecIns, y: SpecIns, s: State, fuel: nat)
    requires
        state_wf(s),
        is_move(x),
        is_move(y),
    ensures
        eval_seq(seq![x, y], s, fuel) == Outcome::Halted(
            State { ptr: wrap_ptr(s.ptr + x.signed_count() + y.signed_count()), ..s },
        ),
{
    reveal_with_fuel(eval_seq, 4);
    let pair = seq![x, y];
    assert(pair[0] == x && pair[1] == y && pair.len() == 2);
    assert(pair.subrange(1, 2) =~= seq![y]);
    assert(seq![y].subrange(1, 1) =~= Seq::<SpecIns>::empty());
    lemma_eval_move(x, s, fuel);
    let s1 = State { ptr: wrap_ptr(s.ptr + x.signed_count()), ..s };
    assert(eval_ins(x, s, fuel) == Outcome::Halted(s1));
    assert(eval_seq(pair, s, fuel) == eval_seq(seq![y], s1, fuel));
    lemma_eval_move(y, s1, fuel);
    let s2 = State { ptr: wrap_ptr(s1.ptr + y.signed_count()), ..s1 };
    assert(eval_seq(seq![y], s1, fuel) == eval_seq(Seq::<SpecIns>::empty(), s2, fuel));
    assert(eval_seq(Seq::<SpecIns>::empty(), s2, fuel) == Outcome::Halted(s2));
    lemma_wrap_twice(s.ptr, x.signed_count(), y.signed_count());
    assert(s2.ptr == wrap_ptr(s.ptr + x.signed_count() + y.signed_count()));
    assert(s2 == (State { ptr: wrap_ptr(s.ptr + x.signed_count() + y.signed_count()), ..s }));
}

/// A merged pair runs as the pair does.
pub proof fn lemma_merge2_eval(x: SpecIns, y: SpecIns, s: State, fuel: nat)
    requires
        state_wf(s),
        mergeable(x, y),
    ensures
        eval_seq(seq![merge2(x, y)], s, fuel) == eval_seq(seq![x, y], s, fuel),
{
    reveal_with_fuel(eval_seq, 4);
    let z = merge2(x, y);
    assert(seq![z].subrange(1, 1) =~= Seq::<SpecIns>::empty());
    if is_arith(x) {
        lemma_pair_arith(x, y, s, fuel);
        lemma_eval_arith(z, s, fuel);
        assert(z.signed_count() == x.signed_count() + y.signed_count());
    } else {
        lemma_pair_move(x, y, s, fuel);
        lemma_eval_move(z, s, fuel);
        assert(z.signed_count() == x.signed_count() + y.signed_count());
    }
}

/// A combined pair runs as the pair does; an exact cancellation runs as
/// nothing at all.
pub proof fn lemma_combine2_eval(x: SpecIns, y: SpecIns, s: State, fuel: nat)
    requires
        state_wf(s),
        combinable(x, y),
    ensures
        eval_seq(
            match combine2(x, y) {
                Option::None => Seq::<SpecIns>::empty(),
                Option::Some(z) => seq![z],
            },
            s,
            fuel,
        ) == eval_seq(seq![x, y], s, fuel),
{
    reveal_with_fuel(eval_seq, 4);
    let net = x.signed_count() + y.signed_count();
    if is_arith(x) {
        lemma_pair_arith(x, y, s, fuel);
        match combine2(x, y) {
            Option::None => {
                lemma_byte_add_zero(s.tape[s.ptr]);
                assert(s.tape.update(s.ptr, byte_add(s.tape[s.ptr], 0)) =~= s.tape);
                assert((State {
                    tape: s.tape.update(s.ptr, byte_add(s.tape[s.ptr], 0)),
                    ..s
                }) =~= s);
            },
            Option::Some(z) => {
                assert(seq![z].subrange(1, 1) =~= Seq::<SpecIns>::empty());
                lemma_eval_arith(z, s, fuel);
                assert(z.signed_count() == net);
            },
        }
    } else {
        lemma_pair_move(x, y, s, fuel);
        match combine2(x, y) {
            Option::None => {
                lemma_wrap_id(s.ptr);
                assert((State { ptr: wrap_ptr(s.ptr + 0), ..s }) =~= s);
            },
            Option::Some(z) => {
                assert(seq![z].subrange(1, 1) =~= Seq::<SpecIns>::empty());
                lemma_eval_move(z, s, fuel);
                assert(z.signed_count() == net);
            },
        }
    }
}

/// The run-length merge preserves execution, step by step.
proof fn lemma_merge_go_equiv(rest: Seq<SpecIns>, acc: Seq<SpecIns>, s: State, fuel: nat)
    requires
        state_wf(s),
    ensures
        eval_seq(merge_go(rest, acc), s, fuel) == eval_seq(acc + rest, s, fuel),
    decreases rest.len(),
{
    if rest.len() == 0 {
        assert(acc + rest =~= acc);
    } else {
        let x = rest[0];
        let tail = rest.subrange(1, rest.len() as int);
        lemma_merge_go_equiv(tail, merge_push(acc, x), s, fuel);
        assert(acc + rest =~= acc.push(x) + tail);
        if acc.len() > 0 && mergeable(acc.last(), x) {
            let l = acc.last();
            let body = acc.drop_last();
            let m2 = merge2(l, x);
            assert(merge_push(acc, x) + tail =~= body + (seq![m2] + tail));
            assert(acc.push(x) + tail =~= body + (seq![l, x] + tail));
            lemma_eval_seq_concat(body, seq![m2] + tail, s, fuel);
            lemma_eval_seq_concat(body, seq![l, x] + tail, s, fuel);
            lemma_eval_seq_wf(body, s, fuel);
            match eval_seq(body, s, fuel) {
                Outcome::Halted(s1) => {
                    lemma_eval_seq_concat(seq![m2], tail, s1, fuel);
                    lemma_eval_seq_concat(seq![l, x], tail, s1, fuel);
                    lemma_merge2_eval(l, x, s1, fuel);
                },
                _ => {},
            }
        } else {
            assert(merge_push(acc, x) == acc.push(x));
        }
    }
}

/// Pass 1 preserves execution.
pub proof fn lemma_merge_pass_equiv(sq: Seq<SpecIns>, s: State, fuel: nat)
    requires
        state_wf(s),
    ensures
        eval_seq(merge_pass(sq), s, fuel) == eval_seq(sq, s, fuel),
{
    lemma_merge_go_equiv(sq, Seq::empty(), s, fuel);
    assert(Seq::<SpecIns>::empty() + sq =~= sq);
}

/// One cancellation step preserves execution.
proof fn lemma_cancel_push_equiv(acc: Seq<SpecIns>, x: SpecIns, s: State, fuel: nat)
    requires
        state_wf(s),
    ensures
        eval_seq(cancel_push(acc, x), s, fuel) == eval_seq(acc.push(x), s, fuel),
    decreases acc.len(),
{
    if acc.len() > 0 && combinable(acc.last(), x) {
        let l = acc.last();
        let body = acc.drop_last();
        assert(acc.push(x) =~= body + seq![l, x]);
        lemma_eval_seq_concat(body, seq![l, x], s, fuel);
        lemma_eval_seq_wf(body, s, fuel);
        match combine2(l, x) {
            Option::None => {
                match eval_seq(body, s, fuel) {
                    Outcome::Halted(s1) => {
                        lemma_combine2_eval(l, x, s1, fuel);
                    },
                    _ => {},
                }
                assert(eval_seq(body + seq![l, x], s, fuel) == eval_seq(body, s, fuel));
            },
            Option::Some(z) => {
                lemma_cancel_push_equiv(body, z, s, fuel);
                assert(body.push(z) =~= body + seq![z]);
                lemma_eval_seq_concat(body, seq![z], s, fuel);
                match eval_seq(body, s, fuel) {
                    Outcome::Halted(s1) => {
                        lemma_combine2_eval(l, x, s1, fuel);
                    },
                    _ => {},
                }
            },
        }
    }
}

/// The re-merge preserves execution, step by step.
proof fn lemma_cancel_go_equiv(rest: Seq<SpecIns>, acc: Seq<SpecIns>, s: State, fuel: nat)
    requires
        state_wf(s),
    ensures
        eval_seq(cancel_go(rest, acc), s, fuel) == eval_seq(acc + rest, s, fuel),
    decreases rest.len(),
{
    if rest.len() == 0 {
        assert(acc + rest =~= acc);
    } else {
        let x = rest[0];
        let tail = rest.subrange(1, rest.len() as int);
        lemma_cancel_go_equiv(tail, cancel_push(acc, x), s, fuel);
        assert(acc + rest =~= acc.push(x) + tail);
        assert(cancel_push(acc, x) + tail =~= cancel_push(acc, x) + tail);
        lemma_eval_seq_concat(cancel_push(acc, x), tail, s, fuel);
        lemma_eval_seq_concat(acc.push(x), tail, s, fuel);
        lemma_cancel_push_equiv(acc, x, s, fuel);
    }
}

/// One instruction runs alone as it runs in a sequence.
proof fn lemma_eval_single(z: SpecIns, s: State, fuel: nat)
    ensures
        eval_seq(seq![z], s, fuel) == (match eval_ins(z, s, fuel) {
            Outcome::Halted(s1) => Outcome::Halted(s1),
            o => o,
        }),
{
    reveal_with_fuel(eval_seq, 3);
    assert(seq![z].subrange(1, 1) =~= Seq::<SpecIns>::empty());
}

/// A loop whose body is exactly one `Subtract(1)` or `Add(1)` zeroes
/// the current cell and changes nothing else — whenever it finishes
/// within its fuel.
pub proof fn lemma_clear_loop(b: Seq<SpecIns>, s: State, fuel: nat)
    requires
        state_wf(s),
        b == seq![SpecIns::Subtract(1)] || b == seq![SpecIns::Add(1)],
    ensures
        !(eval_loop(b, s, fuel) is Cutoff) ==> eval_loop(b, s, fuel) == Outcome::Halted(
            State { tape: s.tape.update(s.ptr, 0), ..s },
        ),
    decreases fuel,
{
    if s.tape[s.ptr] == 0 {
        assert(s.tape.update(s.ptr, 0) =~= s.tape);
        assert((State { tape: s.tape.update(s.ptr, 0), ..s }) =~= s);
    } else if fuel > 0 {
        let step = b[0];
        lemma_eval_arith(step, s, fuel);
        lemma_eval_single(step, s, fuel);
        assert(seq![step] =~= b);
        let s1 = State {
            tape: s.tape.update(s.ptr, byte_add(s.tape[s.ptr], step.signed_count())),
            ..s
        };
        assert(eval_seq(b, s, fuel) == Outcome::Halted(s1));
        lemma_clear_loop(b, s1, (fuel - 1) as nat);
        assert(s1.tape.update(s1.ptr, 0) =~= s.tape.update(s.ptr, 0));
        assert((State { tape: s1.tape.update(s1.ptr, 0), ..s1 }) =~= (State {
            tape: s.tape.update(s.ptr, 0),
            ..s
        }));
    }
}

/// The effect of one multiply-add loop body `x1, Add(k), x3,
/// Subtract(1)`, where `x3` undoes the move `x1`: the cell at the
/// moved-to spot gains `k`, the current cell loses one, the pointer is
/// back where it was.
proof fn lemma_mult_body(x1: SpecIns, x3: SpecIns, k: int, s: State, fuel: nat)
    requires
        state_wf(s),
        is_move(x1),
        is_move(x3),
        x3.signed_count() == -x1.signed_count(),
    ensures
        ({
            let target = wrap_ptr(s.ptr + x1.signed_count());
            let t1 = s.tape.update(target, byte_add(s.tape[target], k));
            eval_seq(seq![x1, SpecIns::Add(k), x3, SpecIns::Subtract(1)], s, fuel)
                == Outcome::Halted(
                State { tape: t1.update(s.ptr, byte_add(t1[s.ptr], -1)), ..s },
            )
        }),
{
    reveal_with_fuel(eval_seq, 6);
    let body = seq![x1, SpecIns::Add(k), x3, SpecIns::Subtract(1)];
    let a = x1.signed_count();
    let target = wrap_ptr(s.ptr + a);
    lemma_mod_bound(s.ptr + a, MEM_SIZE as int);
    lemma_eval_move(x1, s, fuel);
    let s1 = State { ptr: target, ..s };
    assert(body.subrange(1, 4) =~= seq![SpecIns::Add(k), x3, SpecIns::Subtract(1)]);
    lemma_eval_arith(SpecIns::Add(k), s1, fuel);
    let t1 = s.tape.update(target, byte_add(s.tape[target], k));
    let s2 = State { ptr: target, tape: t1, ..s };
    assert(seq![SpecIns::Add(k), x3, SpecIns::Subtract(1)].subrange(1, 3) =~= seq![
        x3,
        SpecIns::Subtract(1),
    ]);
    lemma_eval_move(x3, s2, fuel);
    lemma_wrap_twice(s.ptr, a, -a);
    lemma_wrap_id(s.ptr);
    let s3 = State { ptr: s.ptr, tape: t1, ..s };
    assert(wrap_ptr(s2.ptr + x3.signed_count()) == s.ptr);
    assert(eval_ins(x3, s2, fuel) == Outcome::Halted(s3));
    assert(seq![x3, SpecIns::Subtract(1)].subrange(1, 2) =~= seq![SpecIns::Subtract(1)]);
    lemma_eval_arith(SpecIns::Subtract(1), s3, fuel);
    assert(seq![SpecIns::Subtract(1)].subrange(1, 1) =~= Seq::<SpecIns>::empty());
    let s4 = State { tape: t1.update(s.ptr, byte_add(t1[s.ptr], -1)), ..s };
    assert((State {
        tape: s3.tape.update(s3.ptr, byte_add(s3.tape[s3.ptr], (SpecIns::Subtract(1)).signed_count())),
        ..s3
    }) =~= s4);
}

/// A loop whose body is one multiply-add shape acts as the `Multiply`
/// instruction with the matching offset — whenever it finishes within
/// its fuel.
pub proof fn lemma_mult_loop(x1: SpecIns, x3: SpecIns, k: int, s: State, fuel: nat)
    requires
        state_wf(s),
        is_move(x1),
        is_move(x3),
        x3.signed_count() == -x1.signed_count(),
    ensures
        ({
            let b = seq![x1, SpecIns::Add(k), x3, SpecIns::Subtract(1)];
            !(eval_loop(b, s, fuel) is Cutoff) ==> eval_loop(b, s, fuel) == Outcome::Halted(
                multiply_effect(s, k, x1.signed_count()),
            )
        }),
    decreases fuel,
{
    let b = seq![x1, SpecIns::Add(k), x3, SpecIns::Subtract(1)];
    let off = x1.signed_count();
    let target = wrap_ptr(s.ptr + off);
    lemma_mod_bound(s.ptr + off, MEM_SIZE as int);
    let c = s.tape[s.ptr];
    if c == 0 {
        assert(s.tape[target] + (c as int) * k == s.tape[target] + 0) by (nonlinear_arith)
            requires
                c == 0,
        ;
        lemma_small_mod(s.tape[target] as nat, CELL_MOD as nat);
        assert(byte_mul_add(s.tape[target], c, k) == s.tape[target]);
        assert(s.tape.update(target, s.tape[target]) =~= s.tape);
        assert(s.tape.update(target, s.tape[target]).update(s.ptr, 0) =~= s.tape);
        assert(multiply_effect(s, k, off) =~= s);
    } else if fuel > 0 {
        lemma_mult_body(x1, x3, k, s, fuel);
        let t1 = s.tape.update(target, byte_add(s.tape[target], k));
        let sb = State { tape: t1.update(s.ptr, byte_add(t1[s.ptr], -1)), ..s };
        lemma_mult_loop(x1, x3, k, sb, (fuel - 1) as nat);
        if !(eval_loop(b, s, fuel) is Cutoff) {
            assert(eval_loop(b, s, fuel) == eval_loop(b, sb, (fuel - 1) as nat));
            assert(eval_loop(b, sb, (fuel - 1) as nat) == Outcome::Halted(
                multiply_effect(sb, k, off),
            ));
            lemma_small_mod((c - 1) as nat, CELL_MOD as nat);
            if target == s.ptr {
                assert(multiply_effect(sb, k, off).tape =~= multiply_effect(s, k, off).tape);
                assert(multiply_effect(sb, k, off) =~= multiply_effect(s, k, off));
            } else {
                assert(t1[s.ptr] == c);
                assert(sb.tape[s.ptr] == byte_add(c, -1));
                assert(byte_add(c, -1) == c - 1);
                assert(sb.tape[target] == byte_add(s.tape[target], k));
                let tt = s.tape[target];
                lemma_byte_add_twice(tt, k, (c - 1) * k);
                assert(k + (c - 1) * k == (c as int) * k) by (nonlinear_arith);
                assert(byte_add(byte_add(tt, k), (c - 1) * k) == byte_add(tt, (c as int) * k));
                assert(byte_mul_add(sb.tape[target], sb.tape[s.ptr], k) == byte_add(
                    byte_add(tt, k),
                    (c - 1) * k,
                ));
                assert(byte_mul_add(s.tape[target], c, k) == byte_add(tt, (c as int) * k));
                assert(multiply_effect(sb, k, off).tape =~= multiply_effect(s, k, off).tape);
                assert(multiply_effect(sb, k, off) =~= multiply_effect(s, k, off));
            }
        }
    }
}

/// Pass 3 preserves execution.
pub proof fn lemma_cancel_pass_equiv(sq: Seq<SpecIns>, s: State, fuel: nat)
    requires
        state_wf(s),
    ensures
        eval_seq(cancel_pass(sq), s, fuel) == eval_seq(sq, s, fuel),
{
    lemma_cancel_go_equiv(sq, Seq::empty(), s, fuel);
    assert(Seq::<SpecIns>::empty() + sq =~= sq);
}

/// Optimizing one instruction preserves any outcome it reaches within
/// its fuel.
proof fn lemma_opt_ins_equiv(i: SpecIns, s: State, fuel: nat)
    requires
        state_wf(s),
    ensures
        !(eval_ins(i, s, fuel) is Cutoff) ==> eval_ins(opt_ins(i), s, fuel) == eval_ins(
            i,
            s,
            fuel,
        ),
    decreases ins_size(i), 0nat, fuel, 1nat,
{
    match i {
        SpecIns::Loop(b) => {
            if !(eval_ins(i, s, fuel) is Cutoff) {
                lemma_loop_equiv(b, s, fuel);
                let ob = opt_seq(b);
                assert(eval_loop(ob, s, fuel) == eval_loop(b, s, fuel));
                if ob.len() == 1 && (ob[0] == SpecIns::Subtract(1) || ob[0] == SpecIns::Add(1)) {
                    assert(ob =~= seq![ob[0]]);
                    lemma_clear_loop(ob, s, fuel);
                    assert(classify_loop(ob) == SpecIns::Clear);
                } else if ob.len() == 4 {
                    match (ob[0], ob[1], ob[2], ob[3]) {
                        (
                            SpecIns::Left(d),
                            SpecIns::Add(k),
                            SpecIns::Right(d2),
                            SpecIns::Subtract(one),
                        ) => {
                            if d2 == d && one == 1 && -count_max() <= d {
                                assert(ob =~= seq![
                                    SpecIns::Left(d),
                                    SpecIns::Add(k),
                                    SpecIns::Right(d),
                                    SpecIns::Subtract(1),
                                ]);
                                lemma_mult_loop(SpecIns::Left(d), SpecIns::Right(d), k, s, fuel);
                                assert(classify_loop(ob) == (SpecIns::Multiply {
                                    multiplicand: k,
                                    offset: -d,
                                }));
                            }
                        },
                        (
                            SpecIns::Right(d),
                            SpecIns::Add(k),
                            SpecIns::Left(d2),
                            SpecIns::Subtract(one),
                        ) => {
                            if d2 == d && one == 1 {
                                assert(ob =~= seq![
                                    SpecIns::Right(d),
                                    SpecIns::Add(k),
                                    SpecIns::Left(d),
                                    SpecIns::Subtract(1),
                                ]);
                                lemma_mult_loop(SpecIns::Right(d), SpecIns::Left(d), k, s, fuel);
                                assert(classify_loop(ob) == (SpecIns::Multiply {
                                    multiplicand: k,
                                    offset: d,
                                }));
                            }
                        },
                        _ => {},
                    }
                }
            }
        },
        _ => {
            assert(opt_ins(i) == i);
        },
    }
}

/// Optimizing every instruction of a sequence preserves any outcome it
/// reaches within its fuel.
proof fn lemma_idiom_equiv(m: Seq<SpecIns>, s: State, fuel: nat)
    requires
        state_wf(s),
    ensures
        !(eval_seq(m, s, fuel) is Cutoff) ==> eval_seq(idiom_pass(m), s, fuel) == eval_seq(
            m,
            s,
            fuel,
        ),
    decreases seq_size(m), m.len(), fuel, 2nat,
{
    if m.len() > 0 && !(eval_seq(m, s, fuel) is Cutoff) {
        let rest = m.subrange(1, m.len() as int);
        assert(idiom_pass(m) == seq![opt_ins(m[0])] + idiom_pass(rest));
        lemma_eval_seq_concat(seq![opt_ins(m[0])], idiom_pass(rest), s, fuel);
        lemma_eval_single(opt_ins(m[0]), s, fuel);
        lemma_opt_ins_equiv(m[0], s, fuel);
        match eval_ins(m[0], s, fuel) {
            Outcome::Halted(s1) => {
                lemma_eval_ins_wf(m[0], s, fuel);
                lemma_idiom_equiv(rest, s1, fuel);
            },
            _ => {},
        }
    }
}

/// The whole optimizer preserves any outcome a sequence reaches within
/// its fuel.
proof fn lemma_opt_seq_equiv(sq: Seq<SpecIns>, s: State, fuel: nat)
    requires
        state_wf(s),
    ensures
        !(eval_seq(sq, s, fuel) is Cutoff) ==> eval_seq(opt_seq(sq), s, fuel) == eval_seq(
            sq,
            s,
            fuel,
        ),
    decreases seq_size(sq), sq.len(), fuel, 3nat,
{
    if !(eval_seq(sq, s, fuel) is Cutoff) {
        let m = merge_pass(sq);
        lemma_merge_pass_size(sq);
        lemma_merge_pass_equiv(sq, s, fuel);
        lemma_idiom_equiv(m, s, fuel);
        lemma_cancel_pass_equiv(idiom_pass(m), s, fuel);
    }
}

/// An optimized loop body drives the loop to the same outcome, fuel
/// step by fuel step.
proof fn lemma_loop_equiv(b: Seq<SpecIns>, s: State, fuel: nat)
    requires
        state_wf(s),
    ensures
        !(eval_loop(b, s, fuel) is Cutoff) ==> eval_loop(opt_seq(b), s, fuel) == eval_loop(
            b,
            s,
            fuel,
        ),
    decreases seq_size(b), b.len(), fuel, 4nat,
{
    if s.tape[s.ptr] != 0 && fuel > 0 && !(eval_loop(b, s, fuel) is Cutoff) {
        lemma_opt_seq_equiv(b, s, fuel);
        match eval_seq(b, s, fuel) {
            Outcome::Halted(s1) => {
                lemma_eval_seq_wf(b, s, fuel);
                lemma_loop_equiv(b, s1, (fuel - 1) as nat);
            },
            _ => {},
        }
    }
}

/// Optimizer equivalence: on any instruction sequence and any
/// well-formed starting state, the optimized sequence reaches exactly
/// the outcome — same final tape, pointer, remaining input and output,
/// and the same success or input failure — that the original reaches,
/// whenever the original's run is decided within the given fuel.
pub proof fn lemma_optimizer_equivalence(sq: Seq<SpecIns>, s: State, fuel: nat)
    requires
        state_wf(s),
    ensures
        !(eval_seq(sq, s, fuel) is Cutoff) ==> eval_seq(opt_seq(sq), s, fuel) == eval_seq(
            sq,
            s,
            fuel,
        ),
{
    lemma_opt_seq_equiv(sq, s, fuel);
}

/// A merge of two same-kind instructions is also a cancellation-style
/// combination.
proof fn lemma_mergeable_combinable(x: SpecIns, y: SpecIns)
    ensures
        mergeable(x, y) ==> combinable(x, y),
{
}

/// Normal form of one instruction: a surviving loop has a normal-form
/// body that matches no idiom.
pub open spec fn nf_ins(i: SpecIns) -> bool
    decreases ins_size(i), 0nat, 1nat,
{
    match i {
        SpecIns::Loop(b) => nf_seq(b) && classify_loop(b) == SpecIns::Loop(b),
        _ => true,
    }
}

/// Normal form of a sequence: every instruction in normal form, and no
/// adjacent pair that any pass would still merge or cancel.
pub open spec fn nf_seq(s: Seq<SpecIns>) -> bool
    decreases seq_size(s), s.len(), 2nat,
{
    if s.len() == 0 {
        true
    } else {
        &&& nf_ins(s[0])
        &&& (s.len() > 1 ==> !combinable(s[0], s[1]) && !mergeable(s[0], s[1]))
        &&& nf_seq(s.subrange(1, s.len() as int))
    }
}

/// Every instruction of a sequence is in normal form.
pub open spec fn all_nf(s: Seq<SpecIns>) -> bool {
    forall|j: int| 0 <= j < s.len() ==> nf_ins(#[trigger] s[j])
}

/// A normal-form sequence stays normal without its last instruction.
proof fn lemma_nf_seq_drop_last(s: Seq<SpecIns>)
    requires
        nf_seq(s),
        s.len() > 0,
    ensures
        nf_seq(s.drop_last()),
    decreases s.len(),
{
    if s.len() > 1 {
        lemma_nf_seq_drop_last(s.subrange(1, s.len() as int));
        assert(s.drop_last().subrange(1, s.len() - 1) =~= s.subrange(
            1,
            s.len() as int,
        ).drop_last());
        assert(s.drop_last()[0] == s[0]);
        if s.len() > 2 {
            assert(s.drop_last()[1] == s[1]);
        }
    } else {
        assert(s.drop_last() =~= Seq::<SpecIns>::empty());
    }
}

/// A normal-form sequence stays normal when an instruction that cannot
/// interact with its last one is appended.
proof fn lemma_nf_seq_push(s: Seq<SpecIns>, x: SpecIns)
    requires
        nf_seq(s),
        nf_ins(x),
        s.len() > 0 ==> !combinable(s.last(), x) && !mergeable(s.last(), x),
    ensures
        nf_seq(s.push(x)),
    decreases s.len(),
{
    reveal_with_fuel(nf_seq, 3);
    if s.len() == 0 {
        assert(s.push(x)[0] == x);
        assert(s.push(x).subrange(1, 1) =~= Seq::<SpecIns>::empty());
    } else {
        let tail = s.subrange(1, s.len() as int);
        if tail.len() > 0 {
            assert(tail.last() == s.last());
        }
        lemma_nf_seq_push(tail, x);
        assert(s.push(x).subrange(1, s.len() as int + 1) =~= tail.push(x));
        assert(s.push(x)[0] == s[0]);
        assert(s.push(x)[1] == (if s.len() == 1 {
            x
        } else {
            s[1]
        }));
    }
}

/// One cancellation step keeps the output in normal form.
proof fn lemma_cancel_push_nf(acc: Seq<SpecIns>, x: SpecIns)
    requires
        nf_seq(acc),
        nf_ins(x),
    ensures
        nf_seq(cancel_push(acc, x)),
    decreases acc.len(),
{
    if acc.len() > 0 && combinable(acc.last(), x) {
        lemma_nf_seq_drop_last(acc);
        match combine2(acc.last(), x) {
            Option::None => {},
            Option::Some(z) => {
                lemma_cancel_push_nf(acc.drop_last(), z);
            },
        }
    } else {
        lemma_mergeable_combinable(if acc.len() > 0 {
            acc.last()
        } else {
            x
        }, x);
        lemma_nf_seq_push(acc, x);
    }
}

/// The re-merge leaves its whole output in normal form.
proof fn lemma_cancel_go_nf(rest: Seq<SpecIns>, acc: Seq<SpecIns>)
    requires
        nf_seq(acc),
        all_nf(rest),
    ensures
        nf_seq(cancel_go(rest, acc)),
    decreases rest.len(),
{
    if rest.len() > 0 {
        lemma_cancel_push_nf(acc, rest[0]);
        let tail = rest.subrange(1, rest.len() as int);
        assert(all_nf(tail));
        lemma_cancel_go_nf(tail, cancel_push(acc, rest[0]));
    }
}

/// The optimized form of one instruction is in normal form.
proof fn lemma_opt_ins_nf(i: SpecIns)
    ensures
        nf_ins(opt_ins(i)),
    decreases ins_size(i), 0nat, 1nat,
{
    match i {
        SpecIns::Loop(b) => {
            lemma_opt_seq_nf(b);
            let ob = opt_seq(b);
            match classify_loop(ob) {
                SpecIns::Loop(_) => {
                    assert(opt_ins(i) == SpecIns::Loop(ob));
                },
                _ => {},
            }
        },
        _ => {},
    }
}

/// Every instruction pass 2 emits is in normal form.
proof fn lemma_idiom_all_nf(m: Seq<SpecIns>)
    ensures
        all_nf(idiom_pass(m)),
    decreases seq_size(m), m.len(), 2nat,
{
    if m.len() > 0 {
        let rest = m.subrange(1, m.len() as int);
        lemma_opt_ins_nf(m[0]);
        lemma_idiom_all_nf(rest);
        assert forall|j: int| 0 <= j < idiom_pass(m).len() implies nf_ins(
            #[trigger] idiom_pass(m)[j],
        ) by {
            if j > 0 {
                assert(idiom_pass(m)[j] == idiom_pass(rest)[j - 1]);
            }
        }
    }
}

/// The optimizer's output is in normal form.
proof fn lemma_opt_seq_nf(sq: Seq<SpecIns>)
    ensures
        nf_seq(opt_seq(sq)),
    decreases seq_size(sq), sq.len(), 3nat,
{
    lemma_merge_pass_size(sq);
    let m = merge_pass(sq);
    lemma_idiom_all_nf(m);
    lemma_cancel_go_nf(idiom_pass(m), Seq::empty());
}

/// On a normal-form sequence the run-length merge changes nothing.
proof fn lemma_merge_go_id(s: Seq<SpecIns>, acc: Seq<SpecIns>)
    requires
        nf_seq(s),
        acc.len() > 0 && s.len() > 0 ==> !mergeable(acc.last(), s[0]),
    ensures
        merge_go(s, acc) == acc + s,
    decreases s.len(),
{
    if s.len() == 0 {
        assert(acc + s =~= acc);
    } else {
        let tail = s.subrange(1, s.len() as int);
        assert(merge_push(acc, s[0]) == acc.push(s[0]));
        lemma_merge_go_id(tail, acc.push(s[0]));
        assert(acc.push(s[0]) + tail =~= acc + s);
    }
}

/// On a normal-form sequence the re-merge changes nothing.
proof fn lemma_cancel_go_id(s: Seq<SpecIns>, acc: Seq<SpecIns>)
    requires
        nf_seq(s),
        acc.len() > 0 && s.len() > 0 ==> !combinable(acc.last(), s[0]),
    ensures
        cancel_go(s, acc) == acc + s,
    decreases s.len(),
{
    if s.len() == 0 {
        assert(acc + s =~= acc);
    } else {
        let tail = s.subrange(1, s.len() as int);
        assert(cancel_push(acc, s[0]) == acc.push(s[0]));
        lemma_cancel_go_id(tail, acc.push(s[0]));
        assert(acc.push(s[0]) + tail =~= acc + s);
    }
}

/// On a normal-form instruction the optimizer changes nothing.
proof fn lemma_opt_ins_id(i: SpecIns)
    requires
        nf_ins(i),
    ensures
        opt_ins(i) == i,
    decreases ins_size(i), 0nat, 1nat,
{
    match i {
        SpecIns::Loop(b) => {
            lemma_opt_seq_id(b);
        },
        _ => {},
    }
}

/// On a normal-form sequence pass 2 changes nothing.
proof fn lemma_idiom_pass_id(s: Seq<SpecIns>)
    requires
        nf_seq(s),
    ensures
        idiom_pass(s) == s,
    decreases seq_size(s), s.len(), 2nat,
{
    if s.len() > 0 {
        let tail = s.subrange(1, s.len() as int);
        lemma_opt_ins_id(s[0]);
        lemma_idiom_pass_id(tail);
        assert(seq![s[0]] + tail =~= s);
    }
}

/// On a normal-form sequence the whole optimizer changes nothing.
proof fn lemma_opt_seq_id(sq: Seq<SpecIns>)
    requires
        nf_seq(sq),
    ensures
        opt_seq(sq) == sq,
    decreases seq_size(sq), sq.len(), 3nat,
{
    lemma_merge_go_id(sq, Seq::empty());
    assert(Seq::<SpecIns>::empty() + sq =~= sq);
    assert(merge_pass(sq) == sq);
    lemma_idiom_pass_id(sq);
    lemma_cancel_go_id(sq, Seq::empty());
    assert(cancel_pass(sq) == sq);
}

/// Run-length idempotence: optimizing twice is optimizing once — the
/// second run changes nothing, so in particular it removes no
/// instruction.
pub proof fn lemma_optimize_idempotent(sq: Seq<SpecIns>)
    ensures
        opt_seq(opt_seq(sq)) == opt_seq(sq),
        seq_size(opt_seq(opt_seq(sq))) >= seq_size(opt_seq(sq)),
{
    lemma_opt_seq_nf(sq);
    lemma_opt_seq_id(opt_seq(sq));
}

/// Clear idiom, classification half: the optimizer rewrites a loop
/// whose body is one single-count decrement (or increment) to `Clear`.
pub proof fn lemma_clear_classified(step: SpecIns)
    requires
        step == SpecIns::Subtract(1) || step == SpecIns::Add(1),
    ensures
        opt_ins(SpecIns::Loop(seq![step])) == SpecIns::Clear,
{
    reveal_with_fuel(nf_seq, 3);
    let b = seq![step];
    assert(b.subrange(1, 1) =~= Seq::<SpecIns>::empty());
    assert(nf_seq(b));
    lemma_opt_seq_id(b);
}

/// Multiply-add idiom, classification half: the optimizer rewrites a
/// loop whose body is the four-instruction shape to `Multiply`, the
/// offset's sign following the first move.
pub proof fn lemma_multiply_classified(d: int, k: int)
    requires
        1 <= d <= count_max(),
        1 <= k <= count_max(),
    ensures
        opt_ins(
            SpecIns::Loop(
                seq![SpecIns::Right(d), SpecIns::Add(k), SpecIns::Left(d), SpecIns::Subtract(1)],
            ),
        ) == (SpecIns::Multiply { multiplicand: k, offset: d }),
        opt_ins(
            SpecIns::Loop(
                seq![SpecIns::Left(d), SpecIns::Add(k), SpecIns::Right(d), SpecIns::Subtract(1)],
            ),
        ) == (SpecIns::Multiply { multiplicand: k, offset: -d }),
{
    reveal_with_fuel(nf_seq, 6);
    let b1 = seq![SpecIns::Right(d), SpecIns::Add(k), SpecIns::Left(d), SpecIns::Subtract(1)];
    assert(b1.subrange(1, 4).subrange(1, 3) =~= b1.subrange(2, 4));
    assert(b1.subrange(2, 4).subrange(1, 2) =~= b1.subrange(3, 4));
    assert(b1.subrange(3, 4).subrange(1, 1) =~= Seq::<SpecIns>::empty());
    assert(nf_seq(b1));
    lemma_opt_seq_id(b1);
    let b2 = seq![SpecIns::Left(d), SpecIns::Add(k), SpecIns::Right(d), SpecIns::Subtract(1)];
    assert(b2.subrange(1, 4).subrange(1, 3) =~= b2.subrange(2, 4));
    assert(b2.subrange(2, 4).subrange(1, 2) =~= b2.subrange(3, 4));
    assert(b2.subrange(3, 4).subrange(1, 1) =~= Seq::<SpecIns>::empty());
    assert(nf_seq(b2));
    lemma_opt_seq_id(b2);
}

/// The twice-optimized tree still runs as the original does, whenever
/// the original's run is decided within the given fuel.
pub proof fn lemma_reoptimize_equivalence(sq: Seq<SpecIns>, s: State, fuel: nat)
    requires
        state_wf(s),
    ensures
        !(eval_seq(sq, s, fuel) is Cutoff) ==> eval_seq(opt_seq(opt_seq(sq)), s, fuel)
            == eval_seq(sq, s, fuel),
{
    lemma_optimize_idempotent(sq);
    lemma_optimizer_equivalence(sq, s, fuel);
}

} // verus!
