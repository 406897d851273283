//! The tree interpreter: a machine that walks the loop tree with an explicit
//! stack of frames, one per loop it is inside of.

use vstd::prelude::*;
use crate::structure::{
    Diagnostic, Expression, Node, Op, Status, lemma_nodes_of_index, node_of, nodes_of,
};
use crate::stream::{yield_bytes, yielded};
use crate::tape::{
    blank, emit_block, grow, grown, received, store_block, tape_limit, wrapped, wrapping_change,
    zeros,
};

verus! {

/// The place of the machine in one sequence of nodes: the sequence, the index
/// of the node to execute next, and how many fixed trips of the loop at that
/// index have been started.
pub struct Frame {
    pub nodes: Seq<Node>,
    pub index: nat,
    pub trips: nat,
}

/// The state of the tree machine. The first frame is that of the program; each
/// further frame is that of a loop body being executed, inside the loop that
/// the frame before it stands at.
pub struct TreeState {
    pub frames: Seq<Frame>,
    pub pointer: nat,
    pub tape: Seq<u8>,
}

/// One transition of the tree machine: the state it leads to, the bytes it
/// writes, and whether the machine can go on.
pub struct TreeTransition {
    pub next: TreeState,
    pub emitted: Seq<u8>,
    pub status: Status,
}

impl TreeState {
    /// The state in which a program starts on a given tape.
    pub open spec fn initial(program: Seq<Node>, tape: Seq<u8>) -> TreeState {
        TreeState {
            frames: seq![Frame { nodes: program, index: 0, trips: 0 }],
            pointer: 0,
            tape,
        }
    }

    /// The frames are in order, the pointer is on the tape, and the tape is no
    /// longer than a tape can be.
    pub open spec fn wf(self) -> bool {
        &&& self.frames.len() >= 1
        &&& forall|k: int|
            0 <= k < self.frames.len() ==> (#[trigger] self.frames[k]).index
                <= self.frames[k].nodes.len()
        &&& self.pointer < self.tape.len() <= tape_limit()
    }

    /// The innermost frame.
    pub open spec fn top(self) -> Frame {
        self.frames.last()
    }

    /// The machine has run through the whole program.
    pub open spec fn finished(self) -> bool {
        self.frames.len() <= 1 && self.top().index >= self.top().nodes.len()
    }

    /// The state after the innermost frame has moved on to its next node.
    pub open spec fn advanced(self) -> TreeState {
        TreeState {
            frames: self.frames.update(
                self.frames.len() - 1,
                Frame { index: self.top().index + 1, trips: 0, ..self.top() },
            ),
            ..self
        }
    }

    /// The state after the loop body `body` has been entered; `counted` says
    /// that the loop has a fixed trip count, of which one more is now started.
    pub open spec fn entered(self, body: Seq<Node>, counted: bool) -> TreeState {
        let trips = if counted {
            self.top().trips + 1
        } else {
            self.top().trips
        };
        TreeState {
            frames: self.frames.update(
                self.frames.len() - 1,
                Frame { trips, ..self.top() },
            ).push(Frame { nodes: body, index: 0, trips: 0 }),
            ..self
        }
    }

    /// The state after the end of a loop body has been reached: control is
    /// back at the loop, which decides on the next trip.
    pub open spec fn left(self) -> TreeState {
        TreeState { frames: self.frames.drop_last(), ..self }
    }
}

/// The address at which the pointer stands after a block of `count` cells
/// from the pointer on has been read or written: the last cell of the block.
pub open spec fn block_end(pointer: nat, count: usize) -> int {
    pointer + count - 1
}

/// A block of `count` cells from the pointer on can be read or written: its
/// last cell has an address, and the tape can grow to hold it.
pub open spec fn block_in_range(pointer: nat, count: usize) -> bool {
    0 <= block_end(pointer, count) && pointer + count <= tape_limit()
}

/// The address the pointer moves to by `delta` is one that a tape can hold.
pub open spec fn move_in_range(pointer: nat, delta: i16) -> bool {
    0 <= pointer + delta < tape_limit()
}

/// The transition that executes `op` in state `s`, given what the input
/// stream supplied.
pub open spec fn tree_apply(s: TreeState, op: Op, supplied: Seq<u8>) -> TreeTransition {
    let fault = TreeTransition {
        next: s,
        emitted: Seq::empty(),
        status: Status::Faulted(Diagnostic::PointerOutOfRange),
    };
    match op {
        Op::ChangeData(delta) => TreeTransition {
            next: TreeState {
                tape: s.tape.update(
                    s.pointer as int,
                    wrapped(s.tape[s.pointer as int], delta as int),
                ),
                ..s
            }.advanced(),
            emitted: Seq::empty(),
            status: Status::Running,
        },
        Op::ChangePointer(delta) => if move_in_range(s.pointer, delta) {
            TreeTransition {
                next: TreeState {
                    pointer: (s.pointer + delta) as nat,
                    tape: grown(s.tape, s.pointer + delta + 1),
                    ..s
                }.advanced(),
                emitted: Seq::empty(),
                status: Status::Running,
            }
        } else {
            fault
        },
        Op::Read(count) => if block_in_range(s.pointer, count) {
            TreeTransition {
                next: TreeState {
                    pointer: block_end(s.pointer, count) as nat,
                    tape: received(
                        grown(s.tape, s.pointer + count),
                        s.pointer as int,
                        count as int,
                        supplied,
                    ),
                    ..s
                }.advanced(),
                emitted: Seq::empty(),
                status: Status::Running,
            }
        } else {
            fault
        },
        Op::Write(count) => if block_in_range(s.pointer, count) {
            TreeTransition {
                next: TreeState {
                    pointer: block_end(s.pointer, count) as nat,
                    tape: grown(s.tape, s.pointer + count),
                    ..s
                }.advanced(),
                emitted: grown(s.tape, s.pointer + count).subrange(
                    s.pointer as int,
                    s.pointer + count,
                ),
                status: Status::Running,
            }
        } else {
            fault
        },
    }
}

/// Whether the loop that the innermost frame stands at starts another trip:
/// one without a trip count while the current cell is not zero, one with a
/// trip count until that many trips have been started.
pub open spec fn takes_trip(s: TreeState, limit: Option<usize>) -> bool {
    match limit {
        None => s.tape[s.pointer as int] != 0,
        Some(n) => s.top().trips < n,
    }
}

/// One transition of the tree machine from state `s`, given what the input
/// stream supplied.
pub open spec fn tree_step(s: TreeState, supplied: Seq<u8>) -> TreeTransition {
    if s.top().index >= s.top().nodes.len() {
        if s.frames.len() <= 1 {
            TreeTransition { next: s, emitted: Seq::empty(), status: Status::Halted }
        } else {
            TreeTransition { next: s.left(), emitted: Seq::empty(), status: Status::Running }
        }
    } else {
        match s.top().nodes[s.top().index as int] {
            Node::Op(op) => tree_apply(s, op, supplied),
            Node::Loop(body, limit) => TreeTransition {
                next: if takes_trip(s, limit) {
                    s.entered(body, limit is Some)
                } else {
                    s.advanced()
                },
                emitted: Seq::empty(),
                status: Status::Running,
            },
        }
    }
}

/// The number of bytes that the next transition asks of the input stream:
/// the length of the block where the transition reads one, none where it
/// faults or does anything else.
pub open spec fn tree_demand(s: TreeState) -> nat {
    if s.top().index < s.top().nodes.len() {
        match s.top().nodes[s.top().index as int] {
            Node::Op(Op::Read(count)) => if block_in_range(s.pointer, count) {
                count as nat
            } else {
                0
            },
            _ => 0,
        }
    } else {
        0
    }
}

/// A run of the machine against an input stream held in memory: the state
/// reached, how many bytes of the input were consumed, the bytes written, and
/// the status after the last transition made.
pub struct TreeRun {
    pub state: TreeState,
    pub consumed: nat,
    pub output: Seq<u8>,
    pub status: Status,
}

/// The run of at most `steps` transitions from state `s`. It ends early with
/// the first transition that halts or faults.
pub open spec fn tree_run(s: TreeState, input: Seq<u8>, steps: nat) -> TreeRun
    decreases steps,
{
    if steps == 0 {
        TreeRun { state: s, consumed: 0, output: Seq::empty(), status: Status::Running }
    } else {
        let before = tree_run(s, input, (steps - 1) as nat);
        if before.status != Status::Running {
            before
        } else {
            let supplied = yielded(input, before.consumed, tree_demand(before.state));
            let t = tree_step(before.state, supplied);
            TreeRun {
                state: t.next,
                consumed: before.consumed + supplied.len(),
                output: before.output + t.emitted,
                status: t.status,
            }
        }
    }
}

/// A run that has halted or faulted stays as it is, however many more
/// transitions it is allowed.
pub proof fn lemma_tree_run_ended(s: TreeState, input: Seq<u8>, steps: nat, more: nat)
    requires
        tree_run(s, input, steps).status != Status::Running,
        steps <= more,
    ensures
        tree_run(s, input, more) == tree_run(s, input, steps),
    decreases more,
{
    if steps < more {
        lemma_tree_run_ended(s, input, steps, (more - 1) as nat);
    }
}

/// Every transition leads from a well-formed state to a well-formed state,
/// and never shortens the tape.
pub proof fn lemma_tree_step_wf(s: TreeState, supplied: Seq<u8>)
    requires
        s.wf(),
    ensures
        tree_step(s, supplied).next.wf(),
        tree_step(s, supplied).next.tape.len() >= s.tape.len(),
{
}

/// A transition that halts or faults changes nothing and writes nothing.
pub proof fn lemma_tree_stop_is_inert(s: TreeState, supplied: Seq<u8>)
    requires
        tree_step(s, supplied).status != Status::Running,
    ensures
        tree_step(s, supplied).next == s,
        tree_step(s, supplied).emitted == Seq::<u8>::empty(),
{
}

/// The number of cells of the tape a machine is made with by default.
pub const INITIAL_CELLS: usize = 2048;

struct Level<'a> {
    nodes: &'a Vec<Expression>,
    index: usize,
    trips: usize,
}

impl<'a> Level<'a> {
    spec fn frame(self) -> Frame {
        Frame { nodes: nodes_of(self.nodes@), index: self.index as nat, trips: self.trips as nat }
    }
}

/// The tree interpreter for one program. Its tape grows when the pointer
/// moves beyond it.
pub struct TreeMachine<'a> {
    levels: Vec<Level<'a>>,
    dptr: usize,
    tape: Vec<u8>,
}

impl<'a> View for TreeMachine<'a> {
    type V = TreeState;

    closed spec fn view(&self) -> TreeState {
        TreeState {
            frames: Seq::new(self.levels@.len(), |k: int| self.levels@[k].frame()),
            pointer: self.dptr as nat,
            tape: self.tape@,
        }
    }
}

impl<'a> TreeMachine<'a> {
    /// A machine at the start of `program`, on a blank tape of
    /// [`INITIAL_CELLS`] cells.
    pub fn new(program: &'a Vec<Expression>) -> (machine: Self)
        ensures
            machine@ == TreeState::initial(nodes_of(program@), zeros(INITIAL_CELLS as nat)),
            machine@.wf(),
    {
        let mut levels: Vec<Level<'a>> = Vec::new();
        levels.push(Level { nodes: program, index: 0, trips: 0 });
        let machine = TreeMachine { levels, dptr: 0, tape: blank(INITIAL_CELLS) };
        assert(machine@.frames =~= seq![Frame { nodes: nodes_of(program@), index: 0, trips: 0 }]);
        machine
    }

    /// A machine at the start of `program`, on the given tape. There is none
    /// on an empty tape, which has no cell for the pointer to stand on, nor on
    /// one longer than a tape can be.
    pub fn with_tape(program: &'a Vec<Expression>, tape: Vec<u8>) -> (made: Option<Self>)
        ensures
            made is Some <==> 1 <= tape@.len() <= tape_limit(),
            made matches Some(machine) ==> machine@ == TreeState::initial(
                nodes_of(program@),
                tape@,
            ) && machine@.wf(),
    {
        if tape.len() == 0 || tape.len() > isize::MAX as usize {
            return None;
        }
        let mut levels: Vec<Level<'a>> = Vec::new();
        levels.push(Level { nodes: program, index: 0, trips: 0 });
        let machine = TreeMachine { levels, dptr: 0, tape };
        assert(machine@.frames =~= seq![Frame { nodes: nodes_of(program@), index: 0, trips: 0 }]);
        Some(machine)
    }

    /// The address the data pointer stands at.
    pub fn pointer(&self) -> (address: usize)
        ensures
            address == self@.pointer,
    {
        self.dptr
    }

    /// The cells of the tape.
    pub fn tape(&self) -> (cells: &Vec<u8>)
        ensures
            cells@ == self@.tape,
    {
        &self.tape
    }

    /// The number of loop bodies the machine is inside of.
    pub fn depth(&self) -> (depth: usize)
        requires
            self@.wf(),
        ensures
            depth == self@.frames.len() - 1,
    {
        self.levels.len() - 1
    }

    /// Whether the machine has run through the whole program.
    pub fn finished(&self) -> (done: bool)
        requires
            self@.wf(),
        ensures
            done == self@.finished(),
    {
        let depth = self.levels.len();
        proof {
            lemma_nodes_of_index(self.levels@[0].nodes@);
        }
        depth == 1 && self.levels[0].index >= self.levels[0].nodes.len()
    }

    /// The node that the next transition executes; none where it leaves a loop
    /// body whose end has been reached, or where the machine has run through
    /// the program.
    pub fn next_node(&self) -> (node: Option<&'a Expression>)
        requires
            self@.wf(),
        ensures
            match node {
                Some(e) => self@.top().index < self@.top().nodes.len() && node_of(*e)
                    == self@.top().nodes[self@.top().index as int],
                None => self@.top().index >= self@.top().nodes.len(),
            },
    {
        let depth = self.levels.len();
        let nodes = self.levels[depth - 1].nodes;
        let index = self.levels[depth - 1].index;
        proof {
            lemma_nodes_of_index(nodes@);
        }
        if index < nodes.len() {
            Some(&nodes[index])
        } else {
            None
        }
    }

    /// The number of bytes that the next transition asks of the input stream.
    pub fn input_demand(&self) -> (count: usize)
        requires
            self@.wf(),
        ensures
            count == tree_demand(self@),
    {
        let depth = self.levels.len();
        let nodes = self.levels[depth - 1].nodes;
        let index = self.levels[depth - 1].index;
        proof {
            lemma_nodes_of_index(nodes@);
        }
        if index < nodes.len() {
            match &nodes[index] {
                Expression::Op(Op::Read(count)) => {
                    if Self::block_fits(self.dptr, *count) {
                        *count
                    } else {
                        0
                    }
                },
                _ => 0,
            }
        } else {
            0
        }
    }

    fn block_fits(dptr: usize, count: usize) -> (fits: bool)
        ensures
            fits == block_in_range(dptr as nat, count),
    {
        match dptr.checked_add(count) {
            Some(end) => 1 <= end && end <= isize::MAX as usize,
            None => false,
        }
    }

    fn advance(&mut self)
        requires
            old(self)@.wf(),
            old(self)@.top().index < old(self)@.top().nodes.len(),
        ensures
            final(self)@ == old(self)@.advanced(),
    {
        let depth = self.levels.len();
        let nodes = self.levels[depth - 1].nodes;
        let index = self.levels[depth - 1].index;
        proof {
            lemma_nodes_of_index(nodes@);
            assert(index < nodes.len());
        }
        self.levels.set(depth - 1, Level { nodes, index: index + 1, trips: 0 });
        assert(self@.frames =~= old(self)@.advanced().frames);
    }

    fn enter(&mut self, body: &'a Vec<Expression>, counted: bool)
        requires
            old(self)@.wf(),
            counted ==> old(self)@.top().trips < usize::MAX,
        ensures
            final(self)@ == old(self)@.entered(nodes_of(body@), counted),
    {
        let depth = self.levels.len();
        if counted {
            let nodes = self.levels[depth - 1].nodes;
            let index = self.levels[depth - 1].index;
            let trips = self.levels[depth - 1].trips;
            self.levels.set(depth - 1, Level { nodes, index, trips: trips + 1 });
        }
        self.levels.push(Level { nodes: body, index: 0, trips: 0 });
        assert(self@.frames =~= old(self)@.entered(nodes_of(body@), counted).frames);
    }

    /// Makes one transition: executes the next node, or leaves a loop body
    /// whose end has been reached. `supplied` is what the input stream yielded
    /// for this transition; the bytes it writes are appended to `output`.
    pub fn step(&mut self, supplied: &[u8], output: &mut Vec<u8>) -> (status: Status)
        requires
            old(self)@.wf(),
        ensures
            final(self)@.wf(),
            final(self)@ == tree_step(old(self)@, supplied@).next,
            final(output)@ == old(output)@ + tree_step(old(self)@, supplied@).emitted,
            status == tree_step(old(self)@, supplied@).status,
    {
        let depth = self.levels.len();
        let nodes = self.levels[depth - 1].nodes;
        let index = self.levels[depth - 1].index;
        let trips = self.levels[depth - 1].trips;
        proof {
            lemma_nodes_of_index(nodes@);
        }
        if index >= nodes.len() {
            if depth <= 1 {
                return Status::Halted;
            }
            self.levels.pop();
            assert(self@.frames =~= old(self)@.left().frames);
            return Status::Running;
        }
        match &nodes[index] {
            Expression::Loop(body, limit) => {
                let again = match limit {
                    None => self.tape[self.dptr] != 0,
                    Some(n) => trips < *n,
                };
                if again {
                    self.enter(body, limit.is_some());
                } else {
                    self.advance();
                }
                Status::Running
            },
            Expression::Op(Op::ChangeData(delta)) => {
                let cell = self.tape[self.dptr];
                self.tape.set(self.dptr, wrapping_change(cell, *delta));
                self.advance();
                Status::Running
            },
            Expression::Op(Op::ChangePointer(delta)) => {
                let target = Self::moved(self.dptr, *delta);
                match target {
                    Some(address) => {
                        grow(&mut self.tape, address + 1);
                        self.dptr = address;
                        self.advance();
                        Status::Running
                    },
                    None => Status::Faulted(Diagnostic::PointerOutOfRange),
                }
            },
            Expression::Op(Op::Read(count)) => {
                if Self::block_fits(self.dptr, *count) {
                    let start = self.dptr;
                    grow(&mut self.tape, start + *count);
                    store_block(&mut self.tape, start, *count, supplied);
                    self.dptr = start + *count - 1;
                    self.advance();
                    Status::Running
                } else {
                    Status::Faulted(Diagnostic::PointerOutOfRange)
                }
            },
            Expression::Op(Op::Write(count)) => {
                if Self::block_fits(self.dptr, *count) {
                    let start = self.dptr;
                    grow(&mut self.tape, start + *count);
                    emit_block(&self.tape, start, *count, output);
                    self.dptr = start + *count - 1;
                    self.advance();
                    Status::Running
                } else {
                    Status::Faulted(Diagnostic::PointerOutOfRange)
                }
            },
        }
    }

    /// Runs the machine against an input stream held in memory, for at most
    /// `max_steps` transitions, and appends what it writes to `output`.
    /// Returns the status after the last transition and the number of input
    /// bytes consumed. A status of `Running` says that the transitions
    /// allowed were used up.
    pub fn run(&mut self, input: &[u8], output: &mut Vec<u8>, max_steps: usize) -> (report: (
        Status,
        usize,
    ))
        requires
            old(self)@.wf(),
        ensures
            final(self)@.wf(),
            final(self)@ == tree_run(old(self)@, input@, max_steps as nat).state,
            final(output)@ == old(output)@ + tree_run(old(self)@, input@, max_steps as nat).output,
            report.0 == tree_run(old(self)@, input@, max_steps as nat).status,
            report.1 == tree_run(old(self)@, input@, max_steps as nat).consumed,
    {
        let mut steps: usize = 0;
        let mut consumed: usize = 0;
        let mut status = Status::Running;
        while steps < max_steps && status == Status::Running
            invariant
                steps <= max_steps,
                self@.wf(),
                consumed <= input.len(),
                self@ == tree_run(old(self)@, input@, steps as nat).state,
                output@ == old(output)@ + tree_run(old(self)@, input@, steps as nat).output,
                status == tree_run(old(self)@, input@, steps as nat).status,
                consumed == tree_run(old(self)@, input@, steps as nat).consumed,
            decreases max_steps - steps,
        {
            let supplied = yield_bytes(input, consumed, self.input_demand());
            status = self.step(supplied, output);
            consumed = consumed + supplied.len();
            steps = steps + 1;
        }
        proof {
            if steps < max_steps {
                lemma_tree_run_ended(old(self)@, input@, steps as nat, max_steps as nat);
            }
        }
        (status, consumed)
    }

    fn moved(dptr: usize, delta: i16) -> (target: Option<usize>)
        ensures
            target is Some <==> move_in_range(dptr as nat, delta),
            target matches Some(address) ==> address == dptr + delta,
    {
        if delta >= 0 {
            match dptr.checked_add(delta as usize) {
                Some(address) => if address < isize::MAX as usize {
                    Some(address)
                } else {
                    None
                },
                None => None,
            }
        } else {
            let back = (-(delta as i32)) as usize;
            if back <= dptr && dptr - back < isize::MAX as usize {
                Some(dptr - back)
            } else {
                None
            }
        }
    }
}

} // verus!
