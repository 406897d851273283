//! Compiling source text to a program in one of its two representations, and
//! running a program on the machine for its representation.

use vstd::prelude::*;
use crate::equivalence::{lemma_interpreters_agree, overran};
use crate::flat::{FlatMachine, FlatState, TAPE_CELLS, flat_demand, flat_run, flat_step};
use crate::parse::{lex, parse, to_base_ops, to_ops};
use crate::structure::{Diagnostic, Node, Program, Status, nodes_of};
use crate::tape::zeros;
use crate::tree::{INITIAL_CELLS, TreeMachine, TreeState, tree_demand, tree_run, tree_step};

verus! {

/// Compiles source text: to its opcode sequence, or, where `native` is set, to
/// the loop tree of that sequence.
pub fn compile(source: &String, native: bool) -> (compiled: Result<Program, Diagnostic>)
    ensures
        match compiled {
            Ok(Program::Base(ops)) => !native && ops@ == lex(source@),
            Ok(Program::Native(tree)) => native && parse(lex(source@)) == Ok::<
                Seq<Node>,
                Diagnostic,
            >(nodes_of(tree@)),
            Err(e) => native && parse(lex(source@)) == Err::<Seq<Node>, Diagnostic>(e),
        },
{
    let base = to_base_ops(source);
    if native {
        match to_ops(&base) {
            Ok(tree) => Ok(Program::Native(tree)),
            Err(e) => Err(e),
        }
    } else {
        Ok(Program::Base(base))
    }
}

/// The two representations of a source text behave alike. Where the text
/// compiles to a tree, the machine loaded with its opcode sequence and the
/// machine loaded with its tree, run against the same input for the same
/// number of transitions, write the same bytes and end with the same status,
/// unless the flat machine moves the pointer off the right end of its tape.
pub proof fn lemma_compiled_programs_agree(
    source: Seq<char>,
    tree: Seq<Node>,
    input: Seq<u8>,
    steps: nat,
)
    requires
        parse(lex(source)) == Ok::<Seq<Node>, Diagnostic>(tree),
        !overran(
            lex(source),
            flat_run(lex(source), FlatState::initial(zeros(TAPE_CELLS as nat)), input, steps),
        ),
    ensures
        flat_run(
            lex(source),
            FlatState::initial(zeros(TAPE_CELLS as nat)),
            input,
            steps,
        ).output == tree_run(
            TreeState::initial(tree, zeros(INITIAL_CELLS as nat)),
            input,
            steps,
        ).output,
        flat_run(
            lex(source),
            FlatState::initial(zeros(TAPE_CELLS as nat)),
            input,
            steps,
        ).status == tree_run(
            TreeState::initial(tree, zeros(INITIAL_CELLS as nat)),
            input,
            steps,
        ).status,
{
    lemma_interpreters_agree(
        lex(source),
        tree,
        TAPE_CELLS as nat,
        INITIAL_CELLS as nat,
        input,
        steps,
    );
}

/// The machine for a program: the flat machine for an opcode sequence, the
/// tree machine for a loop tree.
pub enum Interpreter<'a> {
    Base(FlatMachine<'a>),
    Native(TreeMachine<'a>),
}

impl<'a> Interpreter<'a> {
    /// The state of the machine is well-formed.
    pub open spec fn wf(&self) -> bool {
        match self {
            Interpreter::Base(machine) => machine@.wf(),
            Interpreter::Native(machine) => machine@.wf(),
        }
    }

    /// The machine is at the start of `program`, on the blank tape that a
    /// machine for that representation is made with.
    pub open spec fn loaded(&self, program: &Program) -> bool {
        match (self, program) {
            (Interpreter::Base(machine), Program::Base(ops)) => machine.ops() == ops@ && machine@
                == FlatState::initial(zeros(TAPE_CELLS as nat)),
            (Interpreter::Native(machine), Program::Native(tree)) => machine@
                == TreeState::initial(nodes_of(tree@), zeros(INITIAL_CELLS as nat)),
            _ => false,
        }
    }

    /// The number of bytes that the next transition asks of the input stream.
    pub open spec fn demand(&self) -> nat {
        match self {
            Interpreter::Base(machine) => flat_demand(machine.ops(), machine@),
            Interpreter::Native(machine) => tree_demand(machine@),
        }
    }

    /// The bytes that the next transition writes, given what the input stream
    /// supplied.
    pub open spec fn emitted(&self, supplied: Seq<u8>) -> Seq<u8> {
        match self {
            Interpreter::Base(machine) => flat_step(machine.ops(), machine@, supplied).emitted,
            Interpreter::Native(machine) => tree_step(machine@, supplied).emitted,
        }
    }

    /// The status that the next transition reports, given what the input
    /// stream supplied.
    pub open spec fn status(&self, supplied: Seq<u8>) -> Status {
        match self {
            Interpreter::Base(machine) => flat_step(machine.ops(), machine@, supplied).status,
            Interpreter::Native(machine) => tree_step(machine@, supplied).status,
        }
    }

    /// `after` is the machine that the next transition leads to from this
    /// one, given what the input stream supplied.
    pub open spec fn steps_to(&self, after: &Self, supplied: Seq<u8>) -> bool {
        match (self, after) {
            (Interpreter::Base(old), Interpreter::Base(new)) => new.ops() == old.ops() && new@
                == flat_step(old.ops(), old@, supplied).next,
            (Interpreter::Native(old), Interpreter::Native(new)) => new@ == tree_step(
                old@,
                supplied,
            ).next,
            _ => false,
        }
    }

    /// The bytes that a run of at most `steps` transitions against `input`
    /// writes.
    pub open spec fn run_output(&self, input: Seq<u8>, steps: nat) -> Seq<u8> {
        match self {
            Interpreter::Base(machine) => flat_run(machine.ops(), machine@, input, steps).output,
            Interpreter::Native(machine) => tree_run(machine@, input, steps).output,
        }
    }

    /// The number of bytes of `input` that such a run consumes.
    pub open spec fn run_consumed(&self, input: Seq<u8>, steps: nat) -> nat {
        match self {
            Interpreter::Base(machine) => flat_run(machine.ops(), machine@, input, steps).consumed,
            Interpreter::Native(machine) => tree_run(machine@, input, steps).consumed,
        }
    }

    /// The status with which such a run ends.
    pub open spec fn run_status(&self, input: Seq<u8>, steps: nat) -> Status {
        match self {
            Interpreter::Base(machine) => flat_run(machine.ops(), machine@, input, steps).status,
            Interpreter::Native(machine) => tree_run(machine@, input, steps).status,
        }
    }

    /// `after` is the machine that such a run leads to from this one.
    pub open spec fn runs_to(&self, after: &Self, input: Seq<u8>, steps: nat) -> bool {
        match (self, after) {
            (Interpreter::Base(old), Interpreter::Base(new)) => new.ops() == old.ops() && new@
                == flat_run(old.ops(), old@, input, steps).state,
            (Interpreter::Native(old), Interpreter::Native(new)) => new@ == tree_run(
                old@,
                input,
                steps,
            ).state,
            _ => false,
        }
    }

    /// The machine for `program`, at its start.
    pub fn load(program: &'a Program) -> (machine: Self)
        ensures
            machine.wf(),
            machine.loaded(program),
    {
        match program {
            Program::Base(ops) => Interpreter::Base(FlatMachine::new(ops)),
            Program::Native(tree) => Interpreter::Native(TreeMachine::new(tree)),
        }
    }

    /// The number of bytes that the next transition asks of the input stream.
    pub fn input_demand(&self) -> (count: usize)
        requires
            self.wf(),
        ensures
            count == self.demand(),
    {
        match self {
            Interpreter::Base(machine) => machine.input_demand(),
            Interpreter::Native(machine) => machine.input_demand(),
        }
    }

    /// Makes one transition. `supplied` is what the input stream yielded for
    /// it; the bytes it writes are appended to `output`.
    pub fn step(&mut self, supplied: &[u8], output: &mut Vec<u8>) -> (status: Status)
        requires
            old(self).wf(),
        ensures
            final(self).wf(),
            old(self).steps_to(final(self), supplied@),
            final(output)@ == old(output)@ + old(self).emitted(supplied@),
            status == old(self).status(supplied@),
    {
        match self {
            Interpreter::Base(machine) => machine.step(supplied, output),
            Interpreter::Native(machine) => machine.step(supplied, output),
        }
    }

    /// Runs the machine against an input stream held in memory, for at most
    /// `max_steps` transitions, and appends what it writes to `output`.
    /// Returns the status after the last transition and the number of input
    /// bytes consumed. A status of `Running` says that the transitions
    /// allowed were used up.
    pub fn run(&mut self, input: &[u8], output: &mut Vec<u8>, max_steps: usize) -> (report: (
        Status,
        usize,
    ))
        requires
            old(self).wf(),
        ensures
            final(self).wf(),
            old(self).runs_to(final(self), input@, max_steps as nat),
            final(output)@ == old(output)@ + old(self).run_output(input@, max_steps as nat),
            report.0 == old(self).run_status(input@, max_steps as nat),
            report.1 == old(self).run_consumed(input@, max_steps as nat),
    {
        match self {
            Interpreter::Base(machine) => machine.run(input, output, max_steps),
            Interpreter::Native(machine) => machine.run(input, output, max_steps),
        }
    }
}

} // verus!
