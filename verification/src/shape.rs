//! The shape of a parse: what a tree that the parser yields says of the
//! opcodes it was parsed from, and where the parser reports a lone bracket.

use vstd::prelude::*;
use crate::nesting::{lemma_parse_range_ok_iff_balanced, lemma_scan_reaches};
use crate::parse::{
    lemma_scan_bounds, matching_end, parse, parse_range, scan_for_end, unit_op,
};
use crate::structure::{BaseOp, Diagnostic, Node, Op};

verus! {

/// A range that parses to no nodes is empty.
pub proof fn lemma_parse_range_empty(ops: Seq<BaseOp>, start: int, end: int)
    requires
        0 <= start <= end,
        parse_range(ops, start, end) matches Ok(nodes) && nodes.len() == 0,
    ensures
        start == end,
{
    if start < end {
        match ops[start] {
            BaseOp::EndLoop => {},
            BaseOp::StartLoop => {
                lemma_scan_bounds(ops, start + 1, 0);
            },
            _ => {},
        }
    }
}

/// What a successful parse says of the first node it yields. The range is not
/// empty and does not begin with an `EndLoop`. Where it begins with a plain
/// command, the node is the unit operation of that command, and the other
/// nodes are the parse of the rest. Where it begins with a `StartLoop`, the
/// matcher finds its `EndLoop` before the end of the range, the node is the
/// loop over the parse of what stands between the two, and the other nodes are
/// the parse of what follows the `EndLoop`.
pub proof fn lemma_parse_range_first(ops: Seq<BaseOp>, start: int, end: int)
    requires
        0 <= start,
        parse_range(ops, start, end) matches Ok(nodes) && nodes.len() > 0,
    ensures
        start < end,
        ops[start] != BaseOp::EndLoop,
        unit_op(ops[start]) matches Some(op) ==> {
            &&& parse_range(ops, start, end).unwrap()[0] == Node::Op(op)
            &&& parse_range(ops, start + 1, end) == Ok::<Seq<Node>, Diagnostic>(
                parse_range(ops, start, end).unwrap().skip(1),
            )
        },
        ops[start] == BaseOp::StartLoop ==> {
            &&& matching_end(ops, start) matches Some(close)
            &&& start < close < end
            &&& ops[close] == BaseOp::EndLoop
            &&& parse_range(ops, start + 1, close) matches Ok(body)
            &&& parse_range(ops, start, end).unwrap()[0] == Node::Loop(body, None)
            &&& parse_range(ops, close + 1, end) == Ok::<Seq<Node>, Diagnostic>(
                parse_range(ops, start, end).unwrap().skip(1),
            )
        },
{
    let nodes = parse_range(ops, start, end).unwrap();
    match ops[start] {
        BaseOp::EndLoop => {},
        BaseOp::StartLoop => {
            lemma_scan_bounds(ops, start + 1, 0);
            let close = matching_end(ops, start)->0;
            assert(nodes.skip(1) =~= parse_range(ops, close + 1, end).unwrap());
        },
        _ => {
            assert(nodes.skip(1) =~= parse_range(ops, start + 1, end).unwrap());
        },
    }
}

/// The command that an operation of the tree stands for, where it is the unit
/// operation of one.
pub open spec fn base_of(op: Op) -> Option<BaseOp> {
    match op {
        Op::ChangeData(1) => Some(BaseOp::IncrementData),
        Op::ChangeData(-1) => Some(BaseOp::DecrementData),
        Op::ChangePointer(1) => Some(BaseOp::IncrementPointer),
        Op::ChangePointer(-1) => Some(BaseOp::DecrementPointer),
        Op::Read(1) => Some(BaseOp::Read),
        Op::Write(1) => Some(BaseOp::Write),
        _ => None,
    }
}

/// The node is one that the parser yields: a unit operation, or a loop
/// without a trip count over such nodes.
pub open spec fn is_plain(node: Node) -> bool
    decreases node,
{
    match node {
        Node::Op(op) => base_of(op) is Some,
        Node::Loop(body, trips) => trips is None && forall|i: int|
            0 <= i < body.len() ==> is_plain(#[trigger] body[i]),
    }
}

/// Every node of the sequence is one that the parser yields.
pub open spec fn all_plain(nodes: Seq<Node>) -> bool {
    forall|i: int| 0 <= i < nodes.len() ==> is_plain(#[trigger] nodes[i])
}

/// The opcodes that a plain node stands for: the command of an operation, the
/// body of a loop between its two brackets.
pub open spec fn flatten_node(node: Node) -> Seq<BaseOp>
    decreases node,
{
    match node {
        Node::Op(op) => match base_of(op) {
            Some(base) => seq![base],
            None => Seq::empty(),
        },
        Node::Loop(body, _) => seq![BaseOp::StartLoop] + flatten(body) + seq![BaseOp::EndLoop],
    }
}

/// The opcodes that a sequence of plain nodes stands for, node by node.
pub open spec fn flatten(nodes: Seq<Node>) -> Seq<BaseOp>
    decreases nodes,
{
    if nodes.len() == 0 {
        Seq::empty()
    } else {
        flatten_node(nodes[0]) + flatten(nodes.skip(1))
    }
}

/// The tree that a range parses to mirrors the range: its nodes are plain,
/// and read off in order, each loop between its brackets, they are the opcodes
/// of the range.
pub proof fn lemma_parse_range_mirrors(ops: Seq<BaseOp>, start: int, end: int)
    requires
        0 <= start <= end <= ops.len(),
        parse_range(ops, start, end) is Ok,
    ensures
        flatten(parse_range(ops, start, end).unwrap()) == ops.subrange(start, end),
        all_plain(parse_range(ops, start, end).unwrap()),
    decreases end - start,
{
    if start < end {
        let nodes = parse_range(ops, start, end).unwrap();
        lemma_parse_range_first(ops, start, end);
        if ops[start] == BaseOp::StartLoop {
            let close = matching_end(ops, start)->0;
            lemma_parse_range_mirrors(ops, start + 1, close);
            lemma_parse_range_mirrors(ops, close + 1, end);
        } else {
            lemma_parse_range_mirrors(ops, start + 1, end);
        }
        assert(flatten_node(nodes[0]) + flatten(nodes.skip(1)) =~= ops.subrange(start, end));
    }
}

/// The tree that an opcode sequence parses to mirrors the sequence.
pub proof fn lemma_parse_mirrors(ops: Seq<BaseOp>, tree: Seq<Node>)
    requires
        parse(ops) == Ok::<Seq<Node>, Diagnostic>(tree),
    ensures
        flatten(tree) == ops,
        all_plain(tree),
{
    lemma_parse_range_mirrors(ops, 0, ops.len() as int);
}

/// A range that holds two sequences joined holds the first up to where that
/// ends, and the second from there on.
proof fn lemma_range_of_joined(
    ops: Seq<BaseOp>,
    from: int,
    first: Seq<BaseOp>,
    second: Seq<BaseOp>,
)
    requires
        0 <= from,
        from + first.len() + second.len() <= ops.len(),
        ops.subrange(from, from + first.len() + second.len()) == first + second,
    ensures
        ops.subrange(from, from + first.len()) == first,
        ops.subrange(from + first.len(), from + first.len() + second.len()) == second,
{
    let mid = from + first.len();
    let to = mid + second.len();
    assert forall|k: int| 0 <= k < first.len() implies ops[from + k] == first[k] by {
        assert(ops.subrange(from, to)[k] == (first + second)[k]);
    }
    assert forall|k: int| 0 <= k < second.len() implies ops[mid + k] == second[k] by {
        assert(ops.subrange(from, to)[first.len() + k] == (first + second)[first.len() + k]);
    }
}

/// Where a range holds the opcodes that a sequence of plain nodes stands for,
/// it parses to those nodes.
pub proof fn lemma_flatten_parses(ops: Seq<BaseOp>, nodes: Seq<Node>, start: int)
    requires
        all_plain(nodes),
        0 <= start,
        start + flatten(nodes).len() <= ops.len(),
        ops.subrange(start, start + flatten(nodes).len()) == flatten(nodes),
    ensures
        parse_range(ops, start, start + flatten(nodes).len()) == Ok::<Seq<Node>, Diagnostic>(
            nodes,
        ),
    decreases nodes,
{
    if nodes.len() == 0 {
        assert(nodes =~= Seq::empty());
    } else {
        let first = flatten_node(nodes[0]);
        let rest = nodes.skip(1);
        let next = start + first.len();
        assert(all_plain(rest));
        lemma_range_of_joined(ops, start, first, flatten(rest));
        lemma_flatten_parses(ops, rest, next);
        assert(nodes =~= seq![nodes[0]] + rest);
        assert(ops[start] == ops.subrange(start, next)[0]);
        match nodes[0] {
            Node::Op(_) => {},
            Node::Loop(body, _) => {
                let close = next - 1;
                assert(ops[close] == ops.subrange(start, next)[close - start]);
                lemma_range_of_joined(
                    ops,
                    start,
                    seq![BaseOp::StartLoop] + flatten(body),
                    seq![BaseOp::EndLoop],
                );
                lemma_range_of_joined(ops, start, seq![BaseOp::StartLoop], flatten(body));
                lemma_flatten_parses(ops, body, start + 1);
                lemma_parse_range_ok_iff_balanced(ops, start + 1, close);
                lemma_scan_reaches(ops, start + 1, 0, close);
            },
        }
    }
}

/// Parsing undoes flattening: the opcodes that a sequence of plain nodes
/// stands for parse to those nodes.
pub proof fn lemma_parse_flatten(nodes: Seq<Node>)
    requires
        all_plain(nodes),
    ensures
        parse(flatten(nodes)) == Ok::<Seq<Node>, Diagnostic>(nodes),
{
    let ops = flatten(nodes);
    assert(ops.subrange(0, ops.len() as int) =~= ops);
    lemma_flatten_parses(ops, nodes, 0);
}

/// Where no `EndLoop` stands at or after `i`, the scan finds none.
pub proof fn lemma_scan_none(ops: Seq<BaseOp>, i: int, level: nat)
    requires
        forall|k: int| i <= k < ops.len() && 0 <= k ==> ops[k] != BaseOp::EndLoop,
    ensures
        scan_for_end(ops, i, level) is None,
    decreases ops.len() - i,
{
    if 0 <= i < ops.len() {
        if ops[i] == BaseOp::StartLoop {
            lemma_scan_none(ops, i + 1, level + 1);
        } else {
            lemma_scan_none(ops, i + 1, level);
        }
    }
}

/// A sequence whose only loop bracket is one `StartLoop` does not parse: that
/// bracket, at its index, is unterminated.
pub proof fn lemma_lone_open(ops: Seq<BaseOp>, at: int)
    requires
        0 <= at < ops.len(),
        ops[at] == BaseOp::StartLoop,
        forall|k: int| 0 <= k < ops.len() && k != at ==> unit_op(#[trigger] ops[k]) is Some,
    ensures
        parse(ops) == Err::<Seq<Node>, Diagnostic>(Diagnostic::UnterminatedOpen(at as usize)),
{
    lemma_scan_none(ops, at + 1, 0);
    lemma_lone_bracket(ops, 0, at);
}

/// A sequence whose only loop bracket is one `EndLoop` does not parse: that
/// bracket, at its index, is unexpected.
pub proof fn lemma_lone_close(ops: Seq<BaseOp>, at: int)
    requires
        0 <= at < ops.len(),
        ops[at] == BaseOp::EndLoop,
        forall|k: int| 0 <= k < ops.len() && k != at ==> unit_op(#[trigger] ops[k]) is Some,
    ensures
        parse(ops) == Err::<Seq<Node>, Diagnostic>(Diagnostic::UnexpectedClose(at as usize)),
{
    lemma_lone_bracket(ops, 0, at);
}

/// The parse of a range that holds no loop bracket before the index `at`
/// fails as the parse from `at` on does.
proof fn lemma_lone_bracket(ops: Seq<BaseOp>, start: int, at: int)
    requires
        0 <= start <= at < ops.len(),
        forall|k: int| start <= k < at ==> unit_op(#[trigger] ops[k]) is Some,
        parse_range(ops, at, ops.len() as int) is Err,
    ensures
        parse_range(ops, start, ops.len() as int) == parse_range(ops, at, ops.len() as int),
    decreases at - start,
{
    if start < at {
        lemma_lone_bracket(ops, start + 1, at);
    }
}

} // verus!
