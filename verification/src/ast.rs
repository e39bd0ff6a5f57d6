//! The instruction tree: the data model shared by the parser, the
//! optimizer and the interpreter, together with its mathematical model.

use vstd::prelude::*;

verus! {

broadcast use vstd::seq::axiom_seq_index_decreases, vstd::seq::axiom_seq_subrange_decreases,
    vstd::std_specs::vec::group_vec_axioms;

/// One node of the instruction tree. `Loop` exclusively owns its body;
/// the tree has no sharing and no cycles. The `Clear` and `Multiply`
/// variants are produced only by the optimizer, as O(1) replacements for
/// loops of a recognized shape.
#[derive(PartialEq, Eq, Debug)]
pub enum Instruction {
    Loop(Vec<Instruction>),
    Add(isize),
    Subtract(isize),
    Left(isize),
    Right(isize),
    Clear,
    Output,
    Input,
    /// Adds `multiplicand` times the current cell to the cell `offset`
    /// positions away (byte-wrapping), then zeroes the current cell.
    Multiply { multiplicand: isize, offset: isize },
}

/// The mathematical model of an [`Instruction`]: the same tree over
/// unbounded integers and `Seq`. All semantic definitions and proofs are
/// stated over this type.
#[verifier::ext_equal]
pub ghost enum SpecIns {
    Loop(Seq<SpecIns>),
    Add(int),
    Subtract(int),
    Left(int),
    Right(int),
    Clear,
    Output,
    Input,
    Multiply { multiplicand: int, offset: int },
}

/// The model of one instruction; the model of a loop body is built by
/// [`view_seq`].
pub open spec fn view_ins(i: Instruction) -> SpecIns
    decreases i,
{
    match i {
        Instruction::Loop(body) => SpecIns::Loop(view_seq(body@)),
        Instruction::Add(n) => SpecIns::Add(n as int),
        Instruction::Subtract(n) => SpecIns::Subtract(n as int),
        Instruction::Left(n) => SpecIns::Left(n as int),
        Instruction::Right(n) => SpecIns::Right(n as int),
        Instruction::Clear => SpecIns::Clear,
        Instruction::Output => SpecIns::Output,
        Instruction::Input => SpecIns::Input,
        Instruction::Multiply { multiplicand, offset } => SpecIns::Multiply {
            multiplicand: multiplicand as int,
            offset: offset as int,
        },
    }
}

/// The models of a sequence of instructions, elementwise.
pub open spec fn view_seq(s: Seq<Instruction>) -> Seq<SpecIns>
    decreases s,
{
    if s.len() == 0 {
        Seq::empty()
    } else {
        seq![view_ins(s[0])] + view_seq(s.subrange(1, s.len() as int))
    }
}

/// `view_seq` is the elementwise model.
pub broadcast proof fn lemma_view_seq(s: Seq<Instruction>)
    ensures
        #[trigger] view_seq(s).len() == s.len(),
        forall|i: int| 0 <= i < s.len() ==> view_seq(s)[i] == view_ins(s[i]),
    decreases s.len(),
{
    if s.len() > 0 {
        lemma_view_seq(s.subrange(1, s.len() as int));
    }
}

impl DeepView for Instruction {
    type V = SpecIns;

    open spec fn deep_view(&self) -> SpecIns {
        view_ins(*self)
    }
}

/// Node count of a single instruction, counting a loop's body.
pub open spec fn ins_size(i: SpecIns) -> nat
    decreases i,
{
    match i {
        SpecIns::Loop(body) => 1 + seq_size(body),
        _ => 1,
    }
}

/// Node count of an instruction sequence.
pub open spec fn seq_size(s: Seq<SpecIns>) -> nat
    decreases s,
{
    if s.len() == 0 {
        0
    } else {
        ins_size(s[0]) + seq_size(s.subrange(1, s.len() as int))
    }
}

impl Instruction {
    /// The signed contribution of this instruction: positive for `Add`
    /// and `Right`, negative for `Subtract` and `Left`, zero otherwise.
    pub fn to_number(&self) -> (r: isize)
        requires
            -(isize::MAX as int) <= self.deep_view().signed_count() <= isize::MAX as int,
        ensures
            r as int == self.deep_view().signed_count(),
    {
        match self {
            Instruction::Add(plus) => *plus,
            Instruction::Subtract(minus) => -*minus,
            Instruction::Left(left) => -*left,
            Instruction::Right(right) => *right,
            _ => 0,
        }
    }

    /// Whether this instruction came from a loop construct: a `Loop`
    /// node, or the `Clear` idiom a loop collapses to.
    pub fn is_loop(&self) -> (r: bool)
        ensures
            r == (self.deep_view() matches SpecIns::Loop(_)
                || self.deep_view() matches SpecIns::Clear),
    {
        matches!(self, Instruction::Loop(_) | Instruction::Clear)
    }
}

impl Clone for Instruction {
    /// A clone is the same tree: it has the same model.
    fn clone(&self) -> (r: Self)
        ensures
            r.deep_view() == self.deep_view(),
        decreases *self,
    {
        match self {
            Instruction::Loop(body) => {
                proof {
                    assert(decreases_to!(*self => *body));
                    assert(decreases_to!(*body => body@));
                }
                let cloned_body = clone_ins_vec(body);
                proof {
                    lemma_view_seq(cloned_body@);
                    lemma_view_seq(body@);
                    assert(view_seq(cloned_body@) =~= view_seq(body@));
                }
                Instruction::Loop(cloned_body)
            },
            Instruction::Add(n) => Instruction::Add(*n),
            Instruction::Subtract(n) => Instruction::Subtract(*n),
            Instruction::Left(n) => Instruction::Left(*n),
            Instruction::Right(n) => Instruction::Right(*n),
            Instruction::Clear => Instruction::Clear,
            Instruction::Output => Instruction::Output,
            Instruction::Input => Instruction::Input,
            Instruction::Multiply { multiplicand, offset } => Instruction::Multiply {
                multiplicand: *multiplicand,
                offset: *offset,
            },
        }
    }
}

/// Clones every instruction of a sequence; each clone has the model of
/// its original.
fn clone_ins_vec(v: &Vec<Instruction>) -> (r: Vec<Instruction>)
    ensures
        r@.len() == v@.len(),
        forall|j: int| 0 <= j < v@.len() ==> view_ins(#[trigger] r@[j]) == view_ins(v@[j]),
    decreases v@,
{
    let mut r: Vec<Instruction> = Vec::new();
    let mut i: usize = 0;
    while i < v.len()
        invariant
            i <= v.len(),
            r@.len() == i,
            forall|j: int| 0 <= j < i ==> view_ins(#[trigger] r@[j]) == view_ins(v@[j]),
        decreases v.len() - i,
    {
        proof {
            assert(decreases_to!(v@ => v@[i as int]));
        }
        r.push(v[i].clone());
        i = i + 1;
    }
    r
}

/// Appending an instruction adds its size.
pub proof fn lemma_seq_size_push(s: Seq<SpecIns>, x: SpecIns)
    ensures
        seq_size(s.push(x)) == seq_size(s) + ins_size(x),
    decreases s.len(),
{
    if s.len() == 0 {
        assert(s.push(x)[0] == x);
        assert(s.push(x).subrange(1, 1) =~= Seq::<SpecIns>::empty());
        assert(seq_size(s.push(x).subrange(1, 1)) == 0);
    } else {
        assert(s.push(x)[0] == s[0]);
        assert(s.push(x).subrange(1, s.len() as int + 1) =~= s.subrange(1, s.len() as int).push(
            x,
        ));
        lemma_seq_size_push(s.subrange(1, s.len() as int), x);
    }
}

/// Removing the last instruction removes its size.
pub proof fn lemma_seq_size_drop_last(s: Seq<SpecIns>)
    requires
        s.len() > 0,
    ensures
        seq_size(s) == seq_size(s.drop_last()) + ins_size(s.last()),
{
    assert(s.drop_last().push(s.last()) =~= s);
    lemma_seq_size_push(s.drop_last(), s.last());
}

/// An element never outweighs its sequence.
pub proof fn lemma_seq_size_element(s: Seq<SpecIns>, i: int)
    requires
        0 <= i < s.len(),
    ensures
        ins_size(s[i]) <= seq_size(s),
    decreases i,
{
    if i > 0 {
        lemma_seq_size_element(s.subrange(1, s.len() as int), i - 1);
    }
}

impl SpecIns {
    /// The signed count [`Instruction::to_number`] reports.
    pub open spec fn signed_count(self) -> int {
        match self {
            SpecIns::Add(n) => n,
            SpecIns::Subtract(n) => -n,
            SpecIns::Left(n) => -n,
            SpecIns::Right(n) => n,
            _ => 0,
        }
    }
}

} // verus!
