//! The program representations: the flat opcode sequence, the loop tree, and
//! the mathematical model of the tree that the contracts speak of.

use vstd::prelude::*;

verus! {

/// One of the eight commands of the language.
#[derive(Clone, Copy, Debug, PartialEq, Eq, Structural)]
pub enum BaseOp {
    IncrementData,
    DecrementData,
    IncrementPointer,
    DecrementPointer,
    StartLoop,
    EndLoop,
    Read,
    Write,
}

/// A batched operation of the tree representation. `ChangeData` and
/// `ChangePointer` carry a signed delta, `Read` and `Write` a byte count.
#[derive(Clone, Copy, Debug, PartialEq, Eq, Structural)]
pub enum Op {
    ChangeData(i8),
    ChangePointer(i16),
    Read(usize),
    Write(usize),
}

/// An element of the loop tree: an operation, or a loop with its body and an
/// optional fixed trip count.
#[derive(Debug, PartialEq, Eq)]
pub enum Expression {
    Loop(Vec<Expression>, Option<usize>),
    Op(Op),
}

/// A program in one of its two representations.
#[derive(Debug, PartialEq, Eq)]
pub enum Program {
    Base(Vec<BaseOp>),
    Native(Vec<Expression>),
}

/// The mathematical model of an [`Expression`]: the same tree, with sequences
/// in place of vectors.
pub enum Node {
    Loop(Seq<Node>, Option<usize>),
    Op(Op),
}

/// The model of one tree element.
pub open spec fn node_of(e: Expression) -> Node
    decreases e,
{
    match e {
        Expression::Loop(body, trips) => Node::Loop(nodes_of(body@), trips),
        Expression::Op(op) => Node::Op(op),
    }
}

/// The model of a sequence of tree elements, element by element.
pub open spec fn nodes_of(s: Seq<Expression>) -> Seq<Node>
    decreases s,
{
    if s.len() == 0 {
        Seq::empty()
    } else {
        nodes_of(s.drop_last()).push(node_of(s.last()))
    }
}

impl View for Expression {
    type V = Node;

    open spec fn view(&self) -> Node {
        node_of(*self)
    }
}

/// The model of a sequence has the length of the sequence and holds, at each
/// index, the model of the element there.
pub proof fn lemma_nodes_of_index(s: Seq<Expression>)
    ensures
        nodes_of(s).len() == s.len(),
        forall|i: int| 0 <= i < s.len() ==> #[trigger] nodes_of(s)[i] == node_of(s[i]),
    decreases s.len(),
{
    if s.len() > 0 {
        lemma_nodes_of_index(s.drop_last());
    }
}

/// Why parsing or running a program stopped short.
#[derive(Clone, Copy, Debug, PartialEq, Eq, Structural)]
pub enum Diagnostic {
    /// The `StartLoop` at this index has no matching `EndLoop`.
    UnterminatedOpen(usize),
    /// The `EndLoop` at this index has no matching `StartLoop`.
    UnexpectedClose(usize),
    /// The data pointer was about to leave the tape.
    PointerOutOfRange,
    /// An `EndLoop` was executed while no loop was open.
    MismatchedLoopStack,
}

/// What a machine reports after a transition.
#[derive(Clone, Copy, Debug, PartialEq, Eq, Structural)]
pub enum Status {
    /// The transition was made; there may be more to do.
    Running,
    /// The end of the program has been reached; nothing was changed.
    Halted,
    /// The next instruction cannot be executed; nothing was changed.
    Faulted(Diagnostic),
}

} // verus!
