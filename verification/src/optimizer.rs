//! The optimizer: rewrites an instruction tree into a behaviorally
//! equivalent, coarser one. Three passes, applied bottom-up: a
//! run-length merge of adjacent same-kind instructions, the recognition
//! of the clear and multiply-add loop idioms (each loop body is fully
//! optimized before its loop is classified), and a re-merge that also
//! cancels adjacent opposite-kind pairs. The optimizer never fails and
//! never grows the tree; what it does not recognize passes through
//! unchanged.
//!
//! Every pass has a specification-level twin here; the executable
//! passes are proved to compute exactly what the twins say, and the
//! twins are proved semantics-preserving in [`crate::opt_proofs`].

use vstd::prelude::*;
use crate::ast::{
    Instruction, SpecIns, view_ins, view_seq, lemma_view_seq, ins_size, seq_size,
    lemma_seq_size_element, lemma_seq_size_push, lemma_seq_size_drop_last,
};

verus! {

/// The largest count an instruction can carry.
pub open spec fn count_max() -> int {
    isize::MAX as int
}

/// Whether this instruction changes the current cell (`Add`,
/// `Subtract`).
pub open spec fn is_arith(i: SpecIns) -> bool {
    i matches SpecIns::Add(_) || i matches SpecIns::Subtract(_)
}

/// Whether this instruction moves the pointer (`Left`, `Right`).
pub open spec fn is_move(i: SpecIns) -> bool {
    i matches SpecIns::Left(_) || i matches SpecIns::Right(_)
}

/// The run-length merge combines two adjacent instructions exactly when
/// they are the same primitive kind and the summed count is
/// representable and nonzero (a zero-count instruction is never built).
pub open spec fn mergeable(x: SpecIns, y: SpecIns) -> bool {
    match (x, y) {
        (SpecIns::Add(a), SpecIns::Add(b)) => -count_max() <= a + b <= count_max() && a + b != 0,
        (SpecIns::Subtract(a), SpecIns::Subtract(b)) => -count_max() <= a + b <= count_max() && a
            + b != 0,
        (SpecIns::Left(a), SpecIns::Left(b)) => -count_max() <= a + b <= count_max() && a + b
            != 0,
        (SpecIns::Right(a), SpecIns::Right(b)) => -count_max() <= a + b <= count_max() && a + b
            != 0,
        _ => false,
    }
}

/// The one instruction a mergeable pair becomes: same kind, summed
/// count.
pub open spec fn merge2(x: SpecIns, y: SpecIns) -> SpecIns {
    match (x, y) {
        (SpecIns::Add(a), SpecIns::Add(b)) => SpecIns::Add(a + b),
        (SpecIns::Subtract(a), SpecIns::Subtract(b)) => SpecIns::Subtract(a + b),
        (SpecIns::Left(a), SpecIns::Left(b)) => SpecIns::Left(a + b),
        (SpecIns::Right(a), SpecIns::Right(b)) => SpecIns::Right(a + b),
        _ => x,
    }
}

/// One step of the run-length merge: the incoming instruction either
/// merges into the last one emitted or is emitted itself.
pub open spec fn merge_push(acc: Seq<SpecIns>, x: SpecIns) -> Seq<SpecIns> {
    if acc.len() > 0 && mergeable(acc.last(), x) {
        acc.drop_last().push(merge2(acc.last(), x))
    } else {
        acc.push(x)
    }
}

/// The run-length merge, scanning left to right.
pub open spec fn merge_go(s: Seq<SpecIns>, acc: Seq<SpecIns>) -> Seq<SpecIns>
    decreases s.len(),
{
    if s.len() == 0 {
        acc
    } else {
        merge_go(s.subrange(1, s.len() as int), merge_push(acc, s[0]))
    }
}

/// Pass 1: adjacent instructions of the same primitive kind are merged
/// by summing their counts.
pub open spec fn merge_pass(s: Seq<SpecIns>) -> Seq<SpecIns> {
    merge_go(s, Seq::empty())
}

/// The re-merge pass also cancels across opposite kinds: two adjacent
/// cell-arithmetic instructions, or two adjacent pointer moves, combine
/// whenever their net effect is representable.
pub open spec fn combinable(x: SpecIns, y: SpecIns) -> bool {
    &&& (is_arith(x) && is_arith(y)) || (is_move(x) && is_move(y))
    &&& -count_max() <= x.signed_count() + y.signed_count() <= count_max()
}

/// What a combinable pair becomes: nothing when the counts cancel
/// exactly, else one instruction of the stronger kind with the net
/// count.
pub open spec fn combine2(x: SpecIns, y: SpecIns) -> Option<SpecIns> {
    let net = x.signed_count() + y.signed_count();
    if net == 0 {
        None
    } else if is_arith(x) {
        if net > 0 {
            Some(SpecIns::Add(net))
        } else {
            Some(SpecIns::Subtract(-net))
        }
    } else {
        if net > 0 {
            Some(SpecIns::Right(net))
        } else {
            Some(SpecIns::Left(-net))
        }
    }
}

/// One step of the re-merge: the incoming instruction combines with the
/// last emitted one as long as it can, cascading when a combination
/// uncovers a new combinable neighbor.
pub open spec fn cancel_push(acc: Seq<SpecIns>, x: SpecIns) -> Seq<SpecIns>
    decreases acc.len(),
{
    if acc.len() > 0 && combinable(acc.last(), x) {
        match combine2(acc.last(), x) {
            Option::None => acc.drop_last(),
            Option::Some(z) => cancel_push(acc.drop_last(), z),
        }
    } else {
        acc.push(x)
    }
}

/// The re-merge, scanning left to right.
pub open spec fn cancel_go(s: Seq<SpecIns>, acc: Seq<SpecIns>) -> Seq<SpecIns>
    decreases s.len(),
{
    if s.len() == 0 {
        acc
    } else {
        cancel_go(s.subrange(1, s.len() as int), cancel_push(acc, s[0]))
    }
}

/// Pass 3: re-merge with cancellation.
pub open spec fn cancel_pass(s: Seq<SpecIns>) -> Seq<SpecIns> {
    cancel_go(s, Seq::empty())
}

/// Pass 2's judgment of one fully optimized loop body: a body that is a
/// single `Subtract(1)` or `Add(1)` is the clear idiom; a body of shape
/// `Left(d), Add(k), Right(d), Subtract(1)` (or mirrored) is the
/// multiply-add idiom, the offset's sign following the first move; any
/// other body stays a loop.
pub open spec fn classify_loop(b: Seq<SpecIns>) -> SpecIns {
    if b.len() == 1 && (b[0] == SpecIns::Subtract(1) || b[0] == SpecIns::Add(1)) {
        SpecIns::Clear
    } else if b.len() == 4 {
        match (b[0], b[1], b[2], b[3]) {
            (SpecIns::Left(d), SpecIns::Add(k), SpecIns::Right(d2), SpecIns::Subtract(one)) => if d2
                == d && one == 1 && -count_max() <= d {
                SpecIns::Multiply { multiplicand: k, offset: -d }
            } else {
                SpecIns::Loop(b)
            },
            (SpecIns::Right(d), SpecIns::Add(k), SpecIns::Left(d2), SpecIns::Subtract(one)) => if d2
                == d && one == 1 {
                SpecIns::Multiply { multiplicand: k, offset: d }
            } else {
                SpecIns::Loop(b)
            },
            _ => SpecIns::Loop(b),
        }
    } else {
        SpecIns::Loop(b)
    }
}

/// The whole optimizer on one instruction: a loop's body is optimized
/// bottom-up, then the loop is classified; everything else passes
/// through.
pub open spec fn opt_ins(i: SpecIns) -> SpecIns
    decreases ins_size(i), 0nat, 0nat,
{
    match i {
        SpecIns::Loop(b) => classify_loop(opt_seq(b)),
        x => x,
    }
}

/// Pass 2 over a sequence: each instruction optimized by [`opt_ins`].
pub open spec fn idiom_pass(s: Seq<SpecIns>) -> Seq<SpecIns>
    decreases seq_size(s), s.len(), 1nat,
{
    if s.len() == 0 {
        Seq::empty()
    } else {
        seq![opt_ins(s[0])] + idiom_pass(s.subrange(1, s.len() as int))
    }
}

/// The whole optimizer on a sequence: merge, recognize idioms
/// bottom-up, re-merge with cancellation.
pub open spec fn opt_seq(s: Seq<SpecIns>) -> Seq<SpecIns>
    decreases seq_size(s), s.len(), 2nat,
    via opt_seq_decreases
{
    cancel_pass(idiom_pass(merge_pass(s)))
}

#[via_fn]
proof fn opt_seq_decreases(s: Seq<SpecIns>) {
    lemma_merge_pass_size(s);
}

/// The run-length merge never grows a sequence, in nodes or in length.
pub proof fn lemma_merge_pass_size(s: Seq<SpecIns>)
    ensures
        seq_size(merge_pass(s)) <= seq_size(s),
        merge_pass(s).len() <= s.len(),
{
    lemma_merge_go_size(s, Seq::empty());
}

/// [`lemma_merge_pass_size`], generalized over the accumulator.
proof fn lemma_merge_go_size(s: Seq<SpecIns>, acc: Seq<SpecIns>)
    ensures
        seq_size(merge_go(s, acc)) <= seq_size(acc) + seq_size(s),
        merge_go(s, acc).len() <= acc.len() + s.len(),
    decreases s.len(),
{
    if s.len() > 0 {
        let rest = s.subrange(1, s.len() as int);
        lemma_merge_go_size(rest, merge_push(acc, s[0]));
        lemma_merge_push_size(acc, s[0]);
    }
}

/// One merge step adds at most the incoming instruction's size.
proof fn lemma_merge_push_size(acc: Seq<SpecIns>, x: SpecIns)
    ensures
        seq_size(merge_push(acc, x)) <= seq_size(acc) + ins_size(x),
        merge_push(acc, x).len() <= acc.len() + 1,
{
    if acc.len() > 0 && mergeable(acc.last(), x) {
        lemma_seq_size_drop_last(acc);
        lemma_seq_size_push(acc.drop_last(), merge2(acc.last(), x));
    } else {
        lemma_seq_size_push(acc, x);
    }
}

/// [`idiom_pass`] is the elementwise application of [`opt_ins`].
pub proof fn lemma_idiom_pass(s: Seq<SpecIns>)
    ensures
        idiom_pass(s).len() == s.len(),
        forall|j: int| 0 <= j < s.len() ==> idiom_pass(s)[j] == opt_ins(s[j]),
    decreases s.len(),
{
    if s.len() > 0 {
        lemma_idiom_pass(s.subrange(1, s.len() as int));
    }
}

/// The signed count of one instruction, wide enough never to overflow.
fn disp128(i: &Instruction) -> (r: i128)
    ensures
        r as int == view_ins(*i).signed_count(),
{
    match i {
        Instruction::Add(n) => *n as i128,
        Instruction::Subtract(n) => -(*n as i128),
        Instruction::Left(n) => -(*n as i128),
        Instruction::Right(n) => *n as i128,
        _ => 0,
    }
}

/// Decides [`mergeable`] on two instructions and builds [`merge2`] when
/// it holds.
fn try_merge(a: &Instruction, b: &Instruction) -> (r: Option<Instruction>)
    ensures
        r is Some <==> mergeable(view_ins(*a), view_ins(*b)),
        r matches Some(z) ==> view_ins(z) == merge2(view_ins(*a), view_ins(*b)),
{
    let sum: Option<isize> = match (a, b) {
        (Instruction::Add(x), Instruction::Add(y)) => x.checked_add(*y),
        (Instruction::Subtract(x), Instruction::Subtract(y)) => x.checked_add(*y),
        (Instruction::Left(x), Instruction::Left(y)) => x.checked_add(*y),
        (Instruction::Right(x), Instruction::Right(y)) => x.checked_add(*y),
        _ => None,
    };
    match sum {
        Some(s) => {
            if s != 0 && s > isize::MIN {
                match (a, b) {
                    (Instruction::Add(_), Instruction::Add(_)) => Some(Instruction::Add(s)),
                    (Instruction::Subtract(_), Instruction::Subtract(_)) => Some(
                        Instruction::Subtract(s),
                    ),
                    (Instruction::Left(_), Instruction::Left(_)) => Some(Instruction::Left(s)),
                    _ => Some(Instruction::Right(s)),
                }
            } else {
                None
            }
        },
        None => None,
    }
}

/// Decides [`combinable`] on two instructions; when it holds, hands
/// back [`combine2`]: `None` inside for an exact cancellation, else the
/// combined instruction.
fn try_combine(a: &Instruction, b: &Instruction) -> (r: Option<Option<Instruction>>)
    ensures
        r is Some <==> combinable(view_ins(*a), view_ins(*b)),
        r matches Some(o) ==> match combine2(view_ins(*a), view_ins(*b)) {
            Option::None => o is None,
            Option::Some(z) => o matches Some(zi) && view_ins(zi) == z,
        },
{
    let arith_a = matches!(a, Instruction::Add(_) | Instruction::Subtract(_));
    let arith_b = matches!(b, Instruction::Add(_) | Instruction::Subtract(_));
    let move_a = matches!(a, Instruction::Left(_) | Instruction::Right(_));
    let move_b = matches!(b, Instruction::Left(_) | Instruction::Right(_));
    if !((arith_a && arith_b) || (move_a && move_b)) {
        return None;
    }
    let net = disp128(a) + disp128(b);
    if net < -(isize::MAX as i128) || net > isize::MAX as i128 {
        return None;
    }
    if net == 0 {
        return Some(None);
    }
    let n = net as isize;
    if arith_a {
        if n > 0 {
            Some(Some(Instruction::Add(n)))
        } else {
            Some(Some(Instruction::Subtract(-n)))
        }
    } else {
        if n > 0 {
            Some(Some(Instruction::Right(n)))
        } else {
            Some(Some(Instruction::Left(-n)))
        }
    }
}

/// One executable step of pass 1, as [`merge_push`] says.
fn merge_push_exec(out: &mut Vec<Instruction>, x: Instruction) -> (r: ())
    ensures
        view_seq(final(out)@) == merge_push(view_seq(old(out)@), view_ins(x)),
{
    let ghost acc = view_seq(out@);
    let ghost xv = view_ins(x);
    proof {
        lemma_view_seq(out@);
    }
    let l = out.len();
    if l > 0 {
        proof {
            assert(acc.last() == view_ins(out@[l - 1]));
        }
        match try_merge(&out[l - 1], &x) {
            Some(z) => {
                out.pop();
                out.push(z);
                proof {
                    lemma_view_seq(out@);
                    assert(view_seq(out@) =~= acc.drop_last().push(merge2(acc.last(), xv)));
                }
            },
            None => {
                out.push(x);
                proof {
                    lemma_view_seq(out@);
                    assert(view_seq(out@) =~= acc.push(xv));
                }
            },
        }
    } else {
        out.push(x);
        proof {
            lemma_view_seq(out@);
            assert(view_seq(out@) =~= acc.push(xv));
        }
    }
}

/// Pass 1, executable: as [`merge_pass`] says.
fn merge_exec(v: &Vec<Instruction>) -> (r: Vec<Instruction>)
    ensures
        view_seq(r@) == merge_pass(view_seq(v@)),
{
    let ghost full = view_seq(v@);
    proof {
        lemma_view_seq(v@);
        assert(full.subrange(0, full.len() as int) =~= full);
    }
    let mut out: Vec<Instruction> = Vec::new();
    proof {
        assert(view_seq(out@) =~= Seq::<SpecIns>::empty());
    }
    let n = v.len();
    let mut i: usize = 0;
    while i < n
        invariant
            i <= n,
            n == v@.len(),
            full == view_seq(v@),
            full.len() == n,
            forall|j: int| 0 <= j < n ==> full[j] == view_ins(v@[j]),
            merge_go(full.subrange(i as int, n as int), view_seq(out@)) == merge_pass(full),
        decreases n - i,
    {
        let ghost suffix = full.subrange(i as int, n as int);
        proof {
            assert(suffix[0] == full[i as int]);
            assert(suffix.subrange(1, suffix.len() as int) =~= full.subrange(
                i as int + 1,
                n as int,
            ));
        }
        let x = v[i].clone();
        merge_push_exec(&mut out, x);
        i = i + 1;
    }
    proof {
        assert(full.subrange(n as int, n as int) =~= Seq::<SpecIns>::empty());
    }
    out
}

/// One executable step of pass 3, as [`cancel_push`] says: combines the
/// incoming instruction into the accumulated output as long as it can.
fn cancel_push_exec(out: &mut Vec<Instruction>, x: Instruction) -> (r: ())
    ensures
        view_seq(final(out)@) == cancel_push(view_seq(old(out)@), view_ins(x)),
    decreases old(out)@.len(),
{
    let ghost acc = view_seq(out@);
    let ghost xv = view_ins(x);
    proof {
        lemma_view_seq(out@);
    }
    let l = out.len();
    if l == 0 {
        out.push(x);
        proof {
            lemma_view_seq(out@);
            assert(view_seq(out@) =~= acc.push(xv));
        }
        return;
    }
    proof {
        assert(acc.last() == view_ins(out@[l - 1]));
    }
    match try_combine(&out[l - 1], &x) {
        None => {
            out.push(x);
            proof {
                lemma_view_seq(out@);
                assert(view_seq(out@) =~= acc.push(xv));
            }
        },
        Some(None) => {
            out.pop();
            proof {
                lemma_view_seq(out@);
                assert(view_seq(out@) =~= acc.drop_last());
            }
        },
        Some(Some(z)) => {
            out.pop();
            proof {
                lemma_view_seq(out@);
                assert(view_seq(out@) =~= acc.drop_last());
            }
            cancel_push_exec(out, z);
        },
    }
}

/// Pass 3, executable: as [`cancel_pass`] says.
fn cancel_exec(v: &Vec<Instruction>) -> (r: Vec<Instruction>)
    ensures
        view_seq(r@) == cancel_pass(view_seq(v@)),
{
    let ghost full = view_seq(v@);
    proof {
        lemma_view_seq(v@);
        assert(full.subrange(0, full.len() as int) =~= full);
    }
    let mut out: Vec<Instruction> = Vec::new();
    proof {
        assert(view_seq(out@) =~= Seq::<SpecIns>::empty());
    }
    let n = v.len();
    let mut i: usize = 0;
    while i < n
        invariant
            i <= n,
            n == v@.len(),
            full == view_seq(v@),
            full.len() == n,
            forall|j: int| 0 <= j < n ==> full[j] == view_ins(v@[j]),
            cancel_go(full.subrange(i as int, n as int), view_seq(out@)) == cancel_pass(full),
        decreases n - i,
    {
        let ghost suffix = full.subrange(i as int, n as int);
        proof {
            assert(suffix[0] == full[i as int]);
            assert(suffix.subrange(1, suffix.len() as int) =~= full.subrange(
                i as int + 1,
                n as int,
            ));
        }
        let x = v[i].clone();
        cancel_push_exec(&mut out, x);
        i = i + 1;
    }
    proof {
        assert(full.subrange(n as int, n as int) =~= Seq::<SpecIns>::empty());
    }
    out
}

/// Judges one fully optimized loop body, as [`classify_loop`] says.
fn classify_exec(body: Vec<Instruction>) -> (r: Instruction)
    ensures
        view_ins(r) == classify_loop(view_seq(body@)),
{
    proof {
        lemma_view_seq(body@);
    }
    let l = body.len();
    if l == 1 {
        let is_clear = match &body[0] {
            Instruction::Subtract(n) => *n == 1,
            Instruction::Add(n) => *n == 1,
            _ => false,
        };
        if is_clear {
            return Instruction::Clear;
        }
    } else if l == 4 {
        match (&body[0], &body[1], &body[2], &body[3]) {
            (
                Instruction::Left(d),
                Instruction::Add(k),
                Instruction::Right(d2),
                Instruction::Subtract(one),
            ) => {
                if *d2 == *d && *one == 1 && *d > isize::MIN {
                    return Instruction::Multiply { multiplicand: *k, offset: -*d };
                }
            },
            (
                Instruction::Right(d),
                Instruction::Add(k),
                Instruction::Left(d2),
                Instruction::Subtract(one),
            ) => {
                if *d2 == *d && *one == 1 {
                    return Instruction::Multiply { multiplicand: *k, offset: *d };
                }
            },
            _ => {},
        }
    }
    Instruction::Loop(body)
}

/// The whole optimizer on a vector, as [`opt_seq`] says.
fn optimize_vec(v: &Vec<Instruction>) -> (r: Vec<Instruction>)
    ensures
        view_seq(r@) == opt_seq(view_seq(v@)),
    decreases seq_size(view_seq(v@)),
{
    let ghost full = view_seq(v@);
    let merged = merge_exec(v);
    let ghost mv = view_seq(merged@);
    proof {
        lemma_view_seq(merged@);
        lemma_merge_pass_size(full);
    }
    let mut out: Vec<Instruction> = Vec::new();
    let n = merged.len();
    let mut i: usize = 0;
    while i < n
        invariant
            i <= n,
            n == merged@.len(),
            full == view_seq(v@),
            mv == view_seq(merged@),
            mv == merge_pass(full),
            seq_size(mv) <= seq_size(full),
            mv.len() == n,
            forall|j: int| 0 <= j < n ==> mv[j] == view_ins(merged@[j]),
            out@.len() == i,
            forall|j: int| 0 <= j < i ==> view_ins(#[trigger] out@[j]) == opt_ins(mv[j]),
        decreases n - i,
    {
        match &merged[i] {
            Instruction::Loop(b) => {
                proof {
                    lemma_seq_size_element(mv, i as int);
                    assert(mv[i as int] == SpecIns::Loop(view_seq(b@)));
                    assert(ins_size(mv[i as int]) == 1 + seq_size(view_seq(b@)));
                }
                let ob = optimize_vec(b);
                let c = classify_exec(ob);
                proof {
                    assert(view_ins(c) == opt_ins(mv[i as int]));
                }
                out.push(c);
            },
            _ => {
                let c = merged[i].clone();
                proof {
                    assert(view_ins(c) == mv[i as int]);
                    assert(opt_ins(mv[i as int]) == mv[i as int]);
                }
                out.push(c);
            },
        }
        i = i + 1;
    }
    proof {
        lemma_idiom_pass(mv);
        lemma_view_seq(out@);
        assert(view_seq(out@) =~= idiom_pass(mv));
    }
    let result = cancel_exec(&out);
    proof {
        assert(view_seq(result@) == opt_seq(full));
    }
    result
}

/// Rewrites an instruction sequence into an equivalent, coarser one.
pub struct Optimizer<'a> {
    instructions: &'a Vec<Instruction>,
}

impl<'a> View for Optimizer<'a> {
    type V = Seq<SpecIns>;

    closed spec fn view(&self) -> Seq<SpecIns> {
        view_seq(self.instructions@)
    }
}

impl<'a> Optimizer<'a> {
    /// An optimizer over the given instructions.
    pub fn new(instructions: &'a Vec<Instruction>) -> (r: Self)
        ensures
            r@ == view_seq(instructions@),
    {
        Optimizer { instructions }
    }

    /// The optimized form of the instructions: exactly [`opt_seq`] of
    /// their model.
    pub fn optimize(&mut self) -> (r: Vec<Instruction>)
        ensures
            view_seq(r@) == opt_seq(old(self)@),
            final(self)@ == old(self)@,
    {
        optimize_vec(self.instructions)
    }
}

} // verus!
