//! The two interpreters agree: on a program and its parse, the flat machine
//! and the tree machine make the same transitions, one for one.

use vstd::prelude::*;
use crate::flat::{FlatRun, FlatState, flat_demand, flat_run, flat_step};
use crate::parse::{lemma_scan_bounds, matching_end, parse, parse_range, unit_op};
use crate::shape::{lemma_parse_range_empty, lemma_parse_range_first};
use crate::stream::yielded;
use crate::structure::{BaseOp, Diagnostic, Node, Status};
use crate::tape::{tape_limit, zeros};
use crate::tree::{TreeState, tree_demand, tree_run, tree_step};

verus! {

/// The cell at an address of a growable tape: blank where the tape has not
/// grown to it.
pub open spec fn cell_at(tape: Seq<u8>, address: int) -> u8 {
    if 0 <= address < tape.len() {
        tape[address]
    } else {
        0
    }
}

/// Every cell of the fixed tape holds what the growable tape holds at its
/// address.
pub open spec fn same_cells(fixed: Seq<u8>, growable: Seq<u8>) -> bool {
    forall|a: int| 0 <= a < fixed.len() ==> fixed[a] == cell_at(growable, a)
}

/// The index in `ops` at which frame `k` of the tree machine stands: that of
/// the next instruction for the innermost frame, that of the loop it has
/// entered for any other.
pub open spec fn frame_position(f: FlatState, k: int) -> int {
    if k < f.stack.len() {
        f.stack[k] as int
    } else {
        f.ip as int
    }
}

/// The index in `ops` at which the nodes of frame `k` end: the end of the
/// program for the first frame, the `EndLoop` of the loop entered from the
/// frame before it for any other.
pub open spec fn frame_limit(ops: Seq<BaseOp>, f: FlatState, k: int) -> int {
    if k <= 0 {
        ops.len() as int
    } else {
        matching_end(ops, f.stack[k - 1] as int)->0
    }
}

/// Frame `k` of the tree machine stands where the flat machine says: the
/// nodes it has yet to execute are the parse of the opcodes from its position
/// up to its limit.
pub open spec fn frame_agrees(ops: Seq<BaseOp>, f: FlatState, t: TreeState, k: int) -> bool {
    let frame = t.frames[k];
    let position = frame_position(f, k);
    let limit = frame_limit(ops, f, k);
    &&& frame.index <= frame.nodes.len()
    &&& frame.trips == 0
    &&& 0 <= position <= limit <= ops.len()
    &&& k >= 1 ==> matching_end(ops, f.stack[k - 1] as int) is Some
    &&& parse_range(ops, position, limit) == Ok::<Seq<Node>, Diagnostic>(
        frame.nodes.skip(frame.index as int),
    )
}

/// A state of the flat machine on `ops` and a state of the tree machine on
/// the parse of `ops` stand for the same point of the same execution.
pub open spec fn corresponds(ops: Seq<BaseOp>, f: FlatState, t: TreeState) -> bool {
    &&& f.wf()
    &&& t.wf()
    &&& f.tape.len() <= tape_limit()
    &&& f.pointer == t.pointer
    &&& same_cells(f.tape, t.tape)
    &&& t.frames.len() == f.stack.len() + 1
    &&& forall|k: int| 0 <= k < t.frames.len() ==> frame_agrees(ops, f, t, k)
}

/// The next instruction of the flat machine moves the pointer off the right
/// end of its tape, to an address that the tape of the tree machine can grow
/// to.
pub open spec fn at_right_end(ops: Seq<BaseOp>, f: FlatState) -> bool {
    &&& f.ip < ops.len()
    &&& ops[f.ip as int] == BaseOp::IncrementPointer
    &&& f.tape.len() <= f.pointer + 1 < tape_limit()
}

/// The two machines start in corresponding states.
pub proof fn lemma_initial_corresponds(
    ops: Seq<BaseOp>,
    tree: Seq<Node>,
    fixed: Seq<u8>,
    growable: Seq<u8>,
)
    requires
        parse(ops) == Ok::<Seq<Node>, Diagnostic>(tree),
        1 <= fixed.len() <= tape_limit(),
        1 <= growable.len() <= tape_limit(),
        same_cells(fixed, growable),
    ensures
        corresponds(ops, FlatState::initial(fixed), TreeState::initial(tree, growable)),
{
    assert(tree.skip(0) =~= tree);
}

/// At the end of a loop body, or of the program, the two machines make the
/// same transition.
proof fn lemma_leave_agrees(ops: Seq<BaseOp>, f: FlatState, t: TreeState, supplied: Seq<u8>)
    requires
        corresponds(ops, f, t),
        t.top().index >= t.top().nodes.len(),
    ensures
        flat_step(ops, f, supplied).emitted == tree_step(t, supplied).emitted,
        flat_step(ops, f, supplied).status == tree_step(t, supplied).status,
        corresponds(ops, flat_step(ops, f, supplied).next, tree_step(t, supplied).next),
{
    let depth = f.stack.len() as int;
    assert(frame_agrees(ops, f, t, depth));
    lemma_parse_range_empty(ops, f.ip as int, frame_limit(ops, f, depth));
    if depth > 0 {
        // The frame ends at the `EndLoop` of the loop it was entered from.
        lemma_scan_bounds(ops, f.stack[depth - 1] as int + 1, 0);
        let f2 = flat_step(ops, f, supplied).next;
        let t2 = tree_step(t, supplied).next;
        assert forall|k: int| 0 <= k < t2.frames.len() implies frame_agrees(ops, f2, t2, k) by {
            assert(frame_agrees(ops, f, t, k));
        }
    }
}

/// On a command other than a loop bracket the two machines make the same
/// transition, unless the flat machine is at the right end of its tape.
proof fn lemma_op_agrees(ops: Seq<BaseOp>, f: FlatState, t: TreeState, supplied: Seq<u8>)
    requires
        corresponds(ops, f, t),
        !at_right_end(ops, f),
        t.top().index < t.top().nodes.len(),
        unit_op(ops[f.ip as int]) is Some,
    ensures
        flat_step(ops, f, supplied).emitted == tree_step(t, supplied).emitted,
        flat_step(ops, f, supplied).status == tree_step(t, supplied).status,
        corresponds(ops, flat_step(ops, f, supplied).next, tree_step(t, supplied).next),
{
    let depth = f.stack.len() as int;
    let top = t.top();
    let rest = top.nodes.skip(top.index as int);
    assert(frame_agrees(ops, f, t, depth));
    // The node at hand is the unit operation of the opcode at hand.
    lemma_parse_range_first(ops, f.ip as int, frame_limit(ops, f, depth));
    assert(rest.skip(1) =~= top.nodes.skip(top.index as int + 1));
    if flat_step(ops, f, supplied).status == Status::Running {
        let f2 = flat_step(ops, f, supplied).next;
        let t2 = tree_step(t, supplied).next;
        assert forall|k: int| 0 <= k < t2.frames.len() implies frame_agrees(ops, f2, t2, k) by {
            assert(frame_agrees(ops, f, t, k));
        }
    }
}

/// On a loop the two machines make the same transition: both enter it, or
/// both pass it by.
proof fn lemma_loop_agrees(ops: Seq<BaseOp>, f: FlatState, t: TreeState, supplied: Seq<u8>)
    requires
        corresponds(ops, f, t),
        t.top().index < t.top().nodes.len(),
        ops[f.ip as int] == BaseOp::StartLoop,
    ensures
        flat_step(ops, f, supplied).emitted == tree_step(t, supplied).emitted,
        flat_step(ops, f, supplied).status == tree_step(t, supplied).status,
        corresponds(ops, flat_step(ops, f, supplied).next, tree_step(t, supplied).next),
{
    let depth = f.stack.len() as int;
    let top = t.top();
    let rest = top.nodes.skip(top.index as int);
    assert(frame_agrees(ops, f, t, depth));
    // The node at hand is the loop over the parse of what stands between the
    // `StartLoop` at hand and its `EndLoop`.
    lemma_parse_range_first(ops, f.ip as int, frame_limit(ops, f, depth));
    assert(rest.skip(1) =~= top.nodes.skip(top.index as int + 1));
    let close = matching_end(ops, f.ip as int)->0;
    let body = parse_range(ops, f.ip as int + 1, close).unwrap();
    assert(body.skip(0) =~= body);
    let f2 = flat_step(ops, f, supplied).next;
    let t2 = tree_step(t, supplied).next;
    assert forall|k: int| 0 <= k < t2.frames.len() implies frame_agrees(ops, f2, t2, k) by {
        if k <= depth {
            assert(frame_agrees(ops, f, t, k));
        }
    }
}

/// From corresponding states the two machines ask the same of the input
/// stream and, given the same bytes, make the same transition: they write the
/// same bytes, report the same status, and reach corresponding states. The one
/// exception is the flat machine at the right end of its tape.
pub proof fn lemma_step_agrees(ops: Seq<BaseOp>, f: FlatState, t: TreeState, supplied: Seq<u8>)
    requires
        corresponds(ops, f, t),
        !at_right_end(ops, f),
    ensures
        flat_demand(ops, f) == tree_demand(t),
        flat_step(ops, f, supplied).emitted == tree_step(t, supplied).emitted,
        flat_step(ops, f, supplied).status == tree_step(t, supplied).status,
        corresponds(ops, flat_step(ops, f, supplied).next, tree_step(t, supplied).next),
{
    let depth = f.stack.len() as int;
    assert(frame_agrees(ops, f, t, depth));
    if t.top().index >= t.top().nodes.len() {
        lemma_parse_range_empty(ops, f.ip as int, frame_limit(ops, f, depth));
        lemma_leave_agrees(ops, f, t, supplied);
    } else {
        lemma_parse_range_first(ops, f.ip as int, frame_limit(ops, f, depth));
        if ops[f.ip as int] == BaseOp::StartLoop {
            lemma_loop_agrees(ops, f, t, supplied);
        } else {
            lemma_op_agrees(ops, f, t, supplied);
        }
    }
}

/// At the right end of the fixed tape the two machines part: the flat machine
/// faults, and the tree machine moves on.
pub proof fn lemma_right_end_parts(
    ops: Seq<BaseOp>,
    f: FlatState,
    t: TreeState,
    supplied: Seq<u8>,
)
    requires
        corresponds(ops, f, t),
        at_right_end(ops, f),
    ensures
        flat_step(ops, f, supplied).status == Status::Faulted(Diagnostic::PointerOutOfRange),
        tree_step(t, supplied).status == Status::Running,
{
    let depth = f.stack.len() as int;
    assert(frame_agrees(ops, f, t, depth));
    if t.top().index >= t.top().nodes.len() {
        lemma_parse_range_empty(ops, f.ip as int, frame_limit(ops, f, depth));
        if depth > 0 {
            lemma_scan_bounds(ops, f.stack[depth - 1] as int + 1, 0);
        }
    } else {
        lemma_parse_range_first(ops, f.ip as int, frame_limit(ops, f, depth));
    }
}

/// The flat run ended because the pointer was to move off the right end of
/// the tape.
pub open spec fn overran(ops: Seq<BaseOp>, run: FlatRun) -> bool {
    run.status == Status::Faulted(Diagnostic::PointerOutOfRange) && at_right_end(ops, run.state)
}

/// A flat run that has not overrun its tape had not done so earlier either.
proof fn lemma_not_overrun_before(
    ops: Seq<BaseOp>,
    s: FlatState,
    input: Seq<u8>,
    steps: nat,
)
    requires
        steps >= 1,
        !overran(ops, flat_run(ops, s, input, steps)),
    ensures
        !overran(ops, flat_run(ops, s, input, (steps - 1) as nat)),
        flat_run(ops, s, input, (steps - 1) as nat).status == Status::Running ==> !at_right_end(
            ops,
            flat_run(ops, s, input, (steps - 1) as nat).state,
        ),
{
}

/// The two interpreters agree. Run on an opcode sequence and on its parse,
/// from corresponding states and against the same input, for the same number
/// of transitions, the flat machine and the tree machine write the same bytes,
/// consume the same input, end with the same status and reach corresponding
/// states. This holds of every run but those in which the flat machine moves
/// the pointer off the right end of its tape, over which the tape of the tree
/// machine grows.
pub proof fn lemma_runs_agree(
    ops: Seq<BaseOp>,
    f: FlatState,
    t: TreeState,
    input: Seq<u8>,
    steps: nat,
)
    requires
        corresponds(ops, f, t),
        !overran(ops, flat_run(ops, f, input, steps)),
    ensures
        flat_run(ops, f, input, steps).output == tree_run(t, input, steps).output,
        flat_run(ops, f, input, steps).consumed == tree_run(t, input, steps).consumed,
        flat_run(ops, f, input, steps).status == tree_run(t, input, steps).status,
        corresponds(
            ops,
            flat_run(ops, f, input, steps).state,
            tree_run(t, input, steps).state,
        ),
    decreases steps,
{
    if steps > 0 {
        let before = (steps - 1) as nat;
        lemma_not_overrun_before(ops, f, input, steps);
        lemma_runs_agree(ops, f, t, input, before);
        let a = flat_run(ops, f, input, before);
        let b = tree_run(t, input, before);
        if a.status == Status::Running {
            let supplied = yielded(input, a.consumed, flat_demand(ops, a.state));
            lemma_step_agrees(ops, a.state, b.state, supplied);
        }
    }
}

/// The two interpreters produce the same output for the same program. Where
/// `ops` parses to `tree`, the flat machine on `ops` and the tree machine on
/// `tree`, each started on a blank tape and run against the same input for the
/// same number of transitions, write the same bytes and end with the same
/// status, unless the flat machine moves the pointer off the right end of its
/// tape.
pub proof fn lemma_interpreters_agree(
    ops: Seq<BaseOp>,
    tree: Seq<Node>,
    fixed_cells: nat,
    growable_cells: nat,
    input: Seq<u8>,
    steps: nat,
)
    requires
        parse(ops) == Ok::<Seq<Node>, Diagnostic>(tree),
        1 <= fixed_cells <= tape_limit(),
        1 <= growable_cells <= tape_limit(),
        !overran(ops, flat_run(ops, FlatState::initial(zeros(fixed_cells)), input, steps)),
    ensures
        flat_run(ops, FlatState::initial(zeros(fixed_cells)), input, steps).output == tree_run(
            TreeState::initial(tree, zeros(growable_cells)),
            input,
            steps,
        ).output,
        flat_run(ops, FlatState::initial(zeros(fixed_cells)), input, steps).status == tree_run(
            TreeState::initial(tree, zeros(growable_cells)),
            input,
            steps,
        ).status,
{
    lemma_initial_corresponds(ops, tree, zeros(fixed_cells), zeros(growable_cells));
    lemma_runs_agree(
        ops,
        FlatState::initial(zeros(fixed_cells)),
        TreeState::initial(tree, zeros(growable_cells)),
        input,
        steps,
    );
}

} // verus!
