//! The flat interpreter: a machine that executes the opcode sequence as it
//! is, with a stack of the loops it has entered.

use vstd::prelude::*;
use crate::nesting::{
    balanced, lemma_balanced_match, lemma_nesting_first, lemma_nesting_split, nesting,
};
use crate::parse::{find_matching_end_loop, matching_end};
use crate::stream::{yield_bytes, yielded};
use crate::structure::{BaseOp, Diagnostic, Status};
use crate::tape::{blank, wrapped, wrapping_change, zeros};

verus! {

/// The state of the flat machine: the index of the next instruction, the
/// address the data pointer stands at, the tape, and the indices of the
/// `StartLoop` instructions of the loops that have been entered and not left.
pub struct FlatState {
    pub ip: nat,
    pub pointer: nat,
    pub tape: Seq<u8>,
    pub stack: Seq<nat>,
}

/// One transition of the flat machine: the state it leads to, the bytes it
/// writes, and whether the machine can go on.
pub struct FlatTransition {
    pub next: FlatState,
    pub emitted: Seq<u8>,
    pub status: Status,
}

impl FlatState {
    /// The state in which a program starts on a given tape.
    pub open spec fn initial(tape: Seq<u8>) -> FlatState {
        FlatState { ip: 0, pointer: 0, tape, stack: Seq::empty() }
    }

    /// The pointer is on the tape.
    pub open spec fn wf(self) -> bool {
        self.pointer < self.tape.len()
    }

    /// The cell the pointer stands at.
    pub open spec fn cell(self) -> u8 {
        self.tape[self.pointer as int]
    }

    /// The state after the current cell has been set and the instruction
    /// pointer has moved on by one.
    pub open spec fn stored(self, value: u8) -> FlatState {
        FlatState { ip: self.ip + 1, tape: self.tape.update(self.pointer as int, value), ..self }
    }
}

/// The byte that a `Read` stores: the first that the stream supplied, or zero
/// at the end of the stream.
pub open spec fn first_or_zero(supplied: Seq<u8>) -> u8 {
    if supplied.len() > 0 {
        supplied[0]
    } else {
        0
    }
}

/// One transition of the flat machine on `ops` from state `s`, given what the
/// input stream supplied.
pub open spec fn flat_step(ops: Seq<BaseOp>, s: FlatState, supplied: Seq<u8>) -> FlatTransition {
    let go = |next: FlatState|
        FlatTransition { next, emitted: Seq::empty(), status: Status::Running };
    let stop = |status: Status| FlatTransition { next: s, emitted: Seq::empty(), status };
    if s.ip >= ops.len() {
        stop(Status::Halted)
    } else {
        match ops[s.ip as int] {
            BaseOp::IncrementPointer => if s.pointer + 1 < s.tape.len() {
                go(FlatState { ip: s.ip + 1, pointer: s.pointer + 1, ..s })
            } else {
                stop(Status::Faulted(Diagnostic::PointerOutOfRange))
            },
            BaseOp::DecrementPointer => if s.pointer >= 1 {
                go(FlatState { ip: s.ip + 1, pointer: (s.pointer - 1) as nat, ..s })
            } else {
                stop(Status::Faulted(Diagnostic::PointerOutOfRange))
            },
            BaseOp::IncrementData => go(s.stored(wrapped(s.cell(), 1))),
            BaseOp::DecrementData => go(s.stored(wrapped(s.cell(), -1))),
            BaseOp::Write => FlatTransition {
                next: FlatState { ip: s.ip + 1, ..s },
                emitted: seq![s.cell()],
                status: Status::Running,
            },
            BaseOp::Read => go(s.stored(first_or_zero(supplied))),
            BaseOp::StartLoop => if s.cell() == 0 {
                match matching_end(ops, s.ip as int) {
                    Some(end) => go(FlatState { ip: (end + 1) as nat, ..s }),
                    None => stop(Status::Faulted(Diagnostic::UnterminatedOpen(s.ip as usize))),
                }
            } else {
                go(FlatState { ip: s.ip + 1, stack: s.stack.push(s.ip), ..s })
            },
            BaseOp::EndLoop => if s.stack.len() == 0 {
                stop(Status::Faulted(Diagnostic::MismatchedLoopStack))
            } else {
                go(FlatState { ip: s.stack.last(), stack: s.stack.drop_last(), ..s })
            },
        }
    }
}

/// The number of bytes that the next transition asks of the input stream.
pub open spec fn flat_demand(ops: Seq<BaseOp>, s: FlatState) -> nat {
    if s.ip < ops.len() && ops[s.ip as int] == BaseOp::Read {
        1
    } else {
        0
    }
}

/// A run of the machine against an input stream held in memory: the state
/// reached, how many bytes of the input were consumed, the bytes written, and
/// the status after the last transition made.
pub struct FlatRun {
    pub state: FlatState,
    pub consumed: nat,
    pub output: Seq<u8>,
    pub status: Status,
}

/// The run of at most `steps` transitions on `ops` from state `s`. It ends
/// early with the first transition that halts or faults.
pub open spec fn flat_run(ops: Seq<BaseOp>, s: FlatState, input: Seq<u8>, steps: nat) -> FlatRun
    decreases steps,
{
    if steps == 0 {
        FlatRun { state: s, consumed: 0, output: Seq::empty(), status: Status::Running }
    } else {
        let before = flat_run(ops, s, input, (steps - 1) as nat);
        if before.status != Status::Running {
            before
        } else {
            let supplied = yielded(input, before.consumed, flat_demand(ops, before.state));
            let t = flat_step(ops, before.state, supplied);
            FlatRun {
                state: t.next,
                consumed: before.consumed + supplied.len(),
                output: before.output + t.emitted,
                status: t.status,
            }
        }
    }
}

/// A run that has halted or faulted stays as it is, however many more
/// transitions it is allowed.
pub proof fn lemma_flat_run_ended(
    ops: Seq<BaseOp>,
    s: FlatState,
    input: Seq<u8>,
    steps: nat,
    more: nat,
)
    requires
        flat_run(ops, s, input, steps).status != Status::Running,
        steps <= more,
    ensures
        flat_run(ops, s, input, more) == flat_run(ops, s, input, steps),
    decreases more,
{
    if steps < more {
        lemma_flat_run_ended(ops, s, input, steps, (more - 1) as nat);
    }
}

/// Every transition leads from a well-formed state to a well-formed state,
/// and leaves the tape at its length.
pub proof fn lemma_flat_step_wf(ops: Seq<BaseOp>, s: FlatState, supplied: Seq<u8>)
    requires
        s.wf(),
    ensures
        flat_step(ops, s, supplied).next.wf(),
        flat_step(ops, s, supplied).next.tape.len() == s.tape.len(),
{
}

/// A transition that halts or faults changes nothing and writes nothing.
pub proof fn lemma_flat_stop_is_inert(ops: Seq<BaseOp>, s: FlatState, supplied: Seq<u8>)
    requires
        flat_step(ops, s, supplied).status != Status::Running,
    ensures
        flat_step(ops, s, supplied).next == s,
        flat_step(ops, s, supplied).emitted == Seq::<u8>::empty(),
{
}

/// The loop stack records the nesting: it is as deep as the instruction
/// pointer is nested in loops, and its entry for each level is the
/// `StartLoop` that opened that level.
pub open spec fn stack_tracks_nesting(ops: Seq<BaseOp>, s: FlatState) -> bool {
    &&& s.ip <= ops.len()
    &&& s.stack.len() == nesting(ops, 0, s.ip as int)
    &&& forall|k: int|
        0 <= k < s.stack.len() ==> {
            &&& (#[trigger] s.stack[k]) < ops.len()
            &&& ops[s.stack[k] as int] == BaseOp::StartLoop
            &&& nesting(ops, 0, s.stack[k] as int) == k
        }
}

/// At the start the loop stack records the nesting: both are empty.
pub proof fn lemma_stack_tracks_nesting_initially(ops: Seq<BaseOp>, tape: Seq<u8>)
    ensures
        stack_tracks_nesting(ops, FlatState::initial(tape)),
{
}

/// On a program with balanced brackets every transition keeps the loop stack
/// recording the nesting, and none finds the stack empty at an `EndLoop`, or a
/// `StartLoop` without its `EndLoop`.
pub proof fn lemma_stack_tracks_nesting(ops: Seq<BaseOp>, s: FlatState, supplied: Seq<u8>)
    requires
        balanced(ops),
        stack_tracks_nesting(ops, s),
    ensures
        stack_tracks_nesting(ops, flat_step(ops, s, supplied).next),
        flat_step(ops, s, supplied).status != Status::Faulted(Diagnostic::MismatchedLoopStack),
        !(flat_step(ops, s, supplied).status matches Status::Faulted(
            Diagnostic::UnterminatedOpen(_),
        )),
{
    let ip = s.ip as int;
    if ip < ops.len() {
        lemma_nesting_split(ops, 0, ip, ip + 1);
        lemma_nesting_first(ops, ip, ip + 1);
        match ops[ip] {
            BaseOp::StartLoop => {
                lemma_balanced_match(ops, ip);
                if s.cell() == 0 {
                    // The loop that is passed by leaves the nesting as it was.
                    let close = matching_end(ops, ip)->0;
                    lemma_nesting_split(ops, 0, ip, close + 1);
                    lemma_nesting_first(ops, ip, close + 1);
                }
            },
            _ => {},
        }
    }
}

/// On a program with balanced brackets the loop stack records the nesting at
/// every point of a run from the start, and the run does not end for want of
/// a loop on the stack or of an `EndLoop` in the program.
pub proof fn lemma_run_tracks_nesting(
    ops: Seq<BaseOp>,
    tape: Seq<u8>,
    input: Seq<u8>,
    steps: nat,
)
    requires
        balanced(ops),
    ensures
        stack_tracks_nesting(ops, flat_run(ops, FlatState::initial(tape), input, steps).state),
        flat_run(ops, FlatState::initial(tape), input, steps).status != Status::Faulted(
            Diagnostic::MismatchedLoopStack,
        ),
        !(flat_run(ops, FlatState::initial(tape), input, steps).status matches Status::Faulted(
            Diagnostic::UnterminatedOpen(_),
        )),
    decreases steps,
{
    if steps == 0 {
        lemma_stack_tracks_nesting_initially(ops, tape);
    } else {
        lemma_run_tracks_nesting(ops, tape, input, (steps - 1) as nat);
        let before = flat_run(ops, FlatState::initial(tape), input, (steps - 1) as nat);
        if before.status == Status::Running {
            let supplied = yielded(input, before.consumed, flat_demand(ops, before.state));
            lemma_stack_tracks_nesting(ops, before.state, supplied);
        }
    }
}

/// The number of cells of the tape a machine is made with by default.
pub const TAPE_CELLS: usize = 1024;

/// The flat interpreter for one program. Its tape has the length it was made
/// with.
pub struct FlatMachine<'a> {
    program: &'a Vec<BaseOp>,
    iptr: usize,
    dptr: usize,
    tape: Vec<u8>,
    loop_points: Vec<usize>,
}

impl<'a> View for FlatMachine<'a> {
    type V = FlatState;

    closed spec fn view(&self) -> FlatState {
        FlatState {
            ip: self.iptr as nat,
            pointer: self.dptr as nat,
            tape: self.tape@,
            stack: Seq::new(self.loop_points@.len(), |k: int| self.loop_points@[k] as nat),
        }
    }
}

impl<'a> FlatMachine<'a> {
    /// The opcode sequence the machine executes.
    pub closed spec fn ops(&self) -> Seq<BaseOp> {
        self.program@
    }

    /// A machine at the start of `program`, on a blank tape of
    /// [`TAPE_CELLS`] cells.
    pub fn new(program: &'a Vec<BaseOp>) -> (machine: Self)
        ensures
            machine.ops() == program@,
            machine@ == FlatState::initial(zeros(TAPE_CELLS as nat)),
            machine@.wf(),
    {
        let machine = FlatMachine {
            program,
            iptr: 0,
            dptr: 0,
            tape: blank(TAPE_CELLS),
            loop_points: Vec::new(),
        };
        assert(machine@.stack =~= Seq::empty());
        machine
    }

    /// A machine at the start of `program`, on the given tape. There is none
    /// on an empty tape, which has no cell for the pointer to stand on.
    pub fn with_tape(program: &'a Vec<BaseOp>, tape: Vec<u8>) -> (made: Option<Self>)
        ensures
            made is Some <==> tape@.len() >= 1,
            made matches Some(machine) ==> machine.ops() == program@ && machine@
                == FlatState::initial(tape@) && machine@.wf(),
    {
        if tape.len() == 0 {
            return None;
        }
        let machine = FlatMachine { program, iptr: 0, dptr: 0, tape, loop_points: Vec::new() };
        assert(machine@.stack =~= Seq::empty());
        Some(machine)
    }

    /// The index of the next instruction.
    pub fn instruction_pointer(&self) -> (index: usize)
        ensures
            index == self@.ip,
    {
        self.iptr
    }

    /// The address the data pointer stands at.
    pub fn pointer(&self) -> (address: usize)
        ensures
            address == self@.pointer,
    {
        self.dptr
    }

    /// The cells of the tape.
    pub fn tape(&self) -> (cells: &Vec<u8>)
        ensures
            cells@ == self@.tape,
    {
        &self.tape
    }

    /// The number of loops that have been entered and not left.
    pub fn depth(&self) -> (depth: usize)
        ensures
            depth == self@.stack.len(),
    {
        self.loop_points.len()
    }

    /// Whether the machine has run through the whole program.
    pub fn finished(&self) -> (done: bool)
        ensures
            done == (self@.ip >= self.ops().len()),
    {
        self.iptr >= self.program.len()
    }

    /// The instruction that the next transition executes, if the machine has
    /// not run through the program.
    pub fn next_op(&self) -> (op: Option<BaseOp>)
        ensures
            op == if self@.ip < self.ops().len() {
                Some(self.ops()[self@.ip as int])
            } else {
                None
            },
    {
        if self.iptr < self.program.len() {
            Some(self.program[self.iptr])
        } else {
            None
        }
    }

    /// The number of bytes that the next transition asks of the input stream.
    pub fn input_demand(&self) -> (count: usize)
        ensures
            count == flat_demand(self.ops(), self@),
    {
        if self.iptr < self.program.len() {
            match self.program[self.iptr] {
                BaseOp::Read => 1,
                _ => 0,
            }
        } else {
            0
        }
    }

    /// Makes one transition: executes the next instruction. `supplied` is
    /// what the input stream yielded for this transition; the byte that a
    /// `Write` writes is appended to `output`.
    pub fn step(&mut self, supplied: &[u8], output: &mut Vec<u8>) -> (status: Status)
        requires
            old(self)@.wf(),
        ensures
            final(self)@.wf(),
            final(self).ops() == old(self).ops(),
            final(self)@ == flat_step(old(self).ops(), old(self)@, supplied@).next,
            final(output)@ == old(output)@ + flat_step(
                old(self).ops(),
                old(self)@,
                supplied@,
            ).emitted,
            status == flat_step(old(self).ops(), old(self)@, supplied@).status,
    {
        assert(self.dptr < self.tape.len());
        if self.iptr >= self.program.len() {
            return Status::Halted;
        }
        match self.program[self.iptr] {
            BaseOp::IncrementPointer => {
                if self.dptr + 1 >= self.tape.len() {
                    return Status::Faulted(Diagnostic::PointerOutOfRange);
                }
                self.dptr += 1;
                self.iptr += 1;
            },
            BaseOp::DecrementPointer => {
                if self.dptr == 0 {
                    return Status::Faulted(Diagnostic::PointerOutOfRange);
                }
                self.dptr -= 1;
                self.iptr += 1;
            },
            BaseOp::IncrementData => {
                let cell = self.tape[self.dptr];
                self.tape.set(self.dptr, wrapping_change(cell, 1));
                self.iptr += 1;
            },
            BaseOp::DecrementData => {
                let cell = self.tape[self.dptr];
                self.tape.set(self.dptr, wrapping_change(cell, -1));
                self.iptr += 1;
            },
            BaseOp::Write => {
                output.push(self.tape[self.dptr]);
                self.iptr += 1;
            },
            BaseOp::Read => {
                let byte = if supplied.len() > 0 {
                    supplied[0]
                } else {
                    0
                };
                self.tape.set(self.dptr, byte);
                self.iptr += 1;
            },
            BaseOp::StartLoop => {
                if self.tape[self.dptr] == 0 {
                    match find_matching_end_loop(self.program, self.iptr) {
                        Some(end) => {
                            self.iptr = end + 1;
                        },
                        None => {
                            return Status::Faulted(Diagnostic::UnterminatedOpen(self.iptr));
                        },
                    }
                } else {
                    self.loop_points.push(self.iptr);
                    self.iptr += 1;
                }
            },
            BaseOp::EndLoop => {
                match self.loop_points.pop() {
                    Some(start) => {
                        self.iptr = start;
                    },
                    None => {
                        return Status::Faulted(Diagnostic::MismatchedLoopStack);
                    },
                }
            },
        }
        assert(self@.stack =~= flat_step(old(self).ops(), old(self)@, supplied@).next.stack);
        Status::Running
    }

    /// Runs the machine against an input stream held in memory, for at most
    /// `max_steps` transitions, and appends what it writes to `output`.
    /// Returns the status after the last transition and the number of input
    /// bytes consumed. A status of `Running` says that the transitions
    /// allowed were used up.
    pub fn run(&mut self, input: &[u8], output: &mut Vec<u8>, max_steps: usize) -> (report: (
        Status,
        usize,
    ))
        requires
            old(self)@.wf(),
        ensures
            final(self)@.wf(),
            final(self).ops() == old(self).ops(),
            final(self)@ == flat_run(old(self).ops(), old(self)@, input@, max_steps as nat).state,
            final(output)@ == old(output)@ + flat_run(
                old(self).ops(),
                old(self)@,
                input@,
                max_steps as nat,
            ).output,
            report.0 == flat_run(old(self).ops(), old(self)@, input@, max_steps as nat).status,
            report.1 == flat_run(old(self).ops(), old(self)@, input@, max_steps as nat).consumed,
    {
        let mut steps: usize = 0;
        let mut consumed: usize = 0;
        let mut status = Status::Running;
        let ghost ops = self.ops();
        while steps < max_steps && status == Status::Running
            invariant
                steps <= max_steps,
                self@.wf(),
                self.ops() == ops,
                ops == old(self).ops(),
                consumed <= input.len(),
                self@ == flat_run(ops, old(self)@, input@, steps as nat).state,
                output@ == old(output)@ + flat_run(ops, old(self)@, input@, steps as nat).output,
                status == flat_run(ops, old(self)@, input@, steps as nat).status,
                consumed == flat_run(ops, old(self)@, input@, steps as nat).consumed,
            decreases max_steps - steps,
        {
            let supplied = yield_bytes(input, consumed, self.input_demand());
            status = self.step(supplied, output);
            consumed = consumed + supplied.len();
            steps = steps + 1;
        }
        proof {
            if steps < max_steps {
                lemma_flat_run_ended(ops, old(self)@, input@, steps as nat, max_steps as nat);
            }
        }
        (status, consumed)
    }
}

} // verus!
