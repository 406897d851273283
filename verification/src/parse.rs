//! The lexer, the bracket matcher and the parser.

use vstd::prelude::*;
use crate::nesting::{
    balanced, closes, lemma_matching_end_closes, lemma_nothing_closes, lemma_parse_error,
    lemma_parse_ok_iff_balanced, names_first_stray,
};
use crate::shape::{all_plain, flatten, lemma_parse_mirrors};
use crate::structure::{BaseOp, Diagnostic, Expression, Node, Op, node_of, nodes_of};

verus! {

/// The command that a character of the source text stands for; every other
/// character is commentary.
pub open spec fn command(c: char) -> Option<BaseOp> {
    if c == '+' {
        Some(BaseOp::IncrementData)
    } else if c == '-' {
        Some(BaseOp::DecrementData)
    } else if c == '>' {
        Some(BaseOp::IncrementPointer)
    } else if c == '<' {
        Some(BaseOp::DecrementPointer)
    } else if c == '[' {
        Some(BaseOp::StartLoop)
    } else if c == ']' {
        Some(BaseOp::EndLoop)
    } else if c == ',' {
        Some(BaseOp::Read)
    } else if c == '.' {
        Some(BaseOp::Write)
    } else {
        None
    }
}

/// The opcode sequence of a source text: the commands among its characters,
/// in order.
pub open spec fn lex(text: Seq<char>) -> Seq<BaseOp>
    decreases text.len(),
{
    if text.len() == 0 {
        Seq::empty()
    } else {
        match command(text.last()) {
            Some(op) => lex(text.drop_last()).push(op),
            None => lex(text.drop_last()),
        }
    }
}

/// The opcode sequence of two texts joined is that of the first followed by
/// that of the second.
pub proof fn lemma_lex_concat(first: Seq<char>, second: Seq<char>)
    ensures
        lex(first + second) == lex(first) + lex(second),
    decreases second.len(),
{
    if second.len() > 0 {
        assert((first + second).drop_last() =~= first + second.drop_last());
        lemma_lex_concat(first, second.drop_last());
    }
}

/// Commentary does not change the opcode sequence: a character that is no
/// command can be put in anywhere in the text, or taken out of it.
pub proof fn lemma_lex_ignores_comment(text: Seq<char>, at: int, c: char)
    requires
        0 <= at <= text.len(),
        command(c) is None,
    ensures
        lex(text.insert(at, c)) == lex(text),
{
    let head = text.take(at);
    let tail = text.skip(at);
    assert(text.insert(at, c) =~= (head + seq![c]) + tail);
    assert(text =~= head + tail);
    assert(lex(seq![c]) =~= Seq::<BaseOp>::empty()) by {
        reveal_with_fuel(lex, 2);
    }
    lemma_lex_concat(head, seq![c]);
    lemma_lex_concat(head + seq![c], tail);
    lemma_lex_concat(head, tail);
}

/// Reduces source text to its opcode sequence.
pub fn to_base_ops(input: &String) -> (ops: Vec<BaseOp>)
    ensures
        ops@ == lex(input@),
{
    let mut ops: Vec<BaseOp> = Vec::new();
    for c in it: input.as_str().chars()
        invariant
            it.seq() == input@,
            ops@ == lex(input@.take(it.index())),
    {
        assert(input@.take(it.index() + 1).drop_last() =~= input@.take(it.index()));
        match c {
            '+' => ops.push(BaseOp::IncrementData),
            '-' => ops.push(BaseOp::DecrementData),
            '>' => ops.push(BaseOp::IncrementPointer),
            '<' => ops.push(BaseOp::DecrementPointer),
            '[' => ops.push(BaseOp::StartLoop),
            ']' => ops.push(BaseOp::EndLoop),
            ',' => ops.push(BaseOp::Read),
            '.' => ops.push(BaseOp::Write),
            _ => {},
        }
    }
    assert(input@.take(input@.len() as int) =~= input@);
    ops
}

/// The scan of the bracket matcher from index `i` on, with `level` loops open
/// that the scan has met: each `StartLoop` opens one more, each `EndLoop`
/// closes one, and the `EndLoop` met while none is open is what the scan
/// finds.
pub open spec fn scan_for_end(ops: Seq<BaseOp>, i: int, level: nat) -> Option<int>
    decreases ops.len() - i,
{
    if i < 0 || i >= ops.len() {
        None
    } else {
        match ops[i] {
            BaseOp::EndLoop => if level == 0 {
                Some(i)
            } else {
                scan_for_end(ops, i + 1, (level - 1) as nat)
            },
            BaseOp::StartLoop => scan_for_end(ops, i + 1, level + 1),
            _ => scan_for_end(ops, i + 1, level),
        }
    }
}

/// The index of the `EndLoop` that closes the loop opened at `start`, if there
/// is one.
pub open spec fn matching_end(ops: Seq<BaseOp>, start: int) -> Option<int> {
    scan_for_end(ops, start + 1, 0)
}

/// Finds the `EndLoop` that closes the loop opened at `start_pos`: the one
/// with balanced brackets between the two. There is at most one; where there
/// is none, none is found.
pub fn find_matching_end_loop(input: &Vec<BaseOp>, start_pos: usize) -> (found: Option<usize>)
    ensures
        match found {
            Some(end) => matching_end(input@, start_pos as int) == Some(end as int),
            None => matching_end(input@, start_pos as int) is None,
        },
        match found {
            Some(end) => closes(input@, start_pos as int, end as int),
            None => forall|end: int| !closes(input@, start_pos as int, end),
        },
{
    if start_pos >= input.len() {
        proof {
            lemma_nothing_closes(input@, start_pos as int);
        }
        return None;
    }
    let mut open_loops: usize = 0;
    let mut i: usize = start_pos + 1;
    while i < input.len()
        invariant
            start_pos < i <= input.len(),
            open_loops <= i,
            scan_for_end(input@, i as int, open_loops as nat) == matching_end(
                input@,
                start_pos as int,
            ),
        decreases input.len() - i,
    {
        match input[i] {
            BaseOp::EndLoop => {
                if open_loops == 0 {
                    proof {
                        lemma_matching_end_closes(input@, start_pos as int, i as int);
                    }
                    return Some(i);
                }
                open_loops -= 1;
            },
            BaseOp::StartLoop => {
                open_loops += 1;
            },
            _ => {},
        }
        i += 1;
    }
    proof {
        lemma_nothing_closes(input@, start_pos as int);
    }
    None
}

/// The scan finds nothing before the index it starts at, and what it finds is
/// an `EndLoop`.
pub proof fn lemma_scan_bounds(ops: Seq<BaseOp>, i: int, level: nat)
    requires
        0 <= i,
    ensures
        scan_for_end(ops, i, level) matches Some(end) ==> i <= end < ops.len() && ops[end]
            == BaseOp::EndLoop,
    decreases ops.len() - i,
{
    if i < ops.len() {
        match ops[i] {
            BaseOp::EndLoop => {
                if level > 0 {
                    lemma_scan_bounds(ops, i + 1, (level - 1) as nat);
                }
            },
            BaseOp::StartLoop => {
                lemma_scan_bounds(ops, i + 1, level + 1);
            },
            _ => {
                lemma_scan_bounds(ops, i + 1, level);
            },
        }
    }
}

/// The operation of the tree that a command other than a loop bracket becomes:
/// a change by one, or a block of one byte.
pub open spec fn unit_op(op: BaseOp) -> Option<Op> {
    match op {
        BaseOp::IncrementData => Some(Op::ChangeData(1)),
        BaseOp::DecrementData => Some(Op::ChangeData(-1i8)),
        BaseOp::IncrementPointer => Some(Op::ChangePointer(1)),
        BaseOp::DecrementPointer => Some(Op::ChangePointer(-1i16)),
        BaseOp::Read => Some(Op::Read(1)),
        BaseOp::Write => Some(Op::Write(1)),
        BaseOp::StartLoop => None,
        BaseOp::EndLoop => None,
    }
}

/// The parse that begins with `nodes` and goes on as `rest` does.
pub open spec fn continued(nodes: Seq<Node>, rest: Result<Seq<Node>, Diagnostic>) -> Result<
    Seq<Node>,
    Diagnostic,
> {
    match rest {
        Ok(more) => Ok(nodes + more),
        Err(e) => Err(e),
    }
}

/// The tree of the opcodes from `start` up to `end`, taken as a program of
/// its own, or the first error met from left to right. A `StartLoop` whose
/// `EndLoop` is not before `end` is unterminated.
pub open spec fn parse_range(ops: Seq<BaseOp>, start: int, end: int) -> Result<
    Seq<Node>,
    Diagnostic,
>
    decreases end - start,
{
    if start < 0 || start >= end {
        Ok(Seq::empty())
    } else {
        match ops[start] {
            BaseOp::EndLoop => Err(Diagnostic::UnexpectedClose(start as usize)),
            BaseOp::StartLoop => {
                proof {
                    lemma_scan_bounds(ops, start + 1, 0);
                }
                match matching_end(ops, start) {
                    Some(close) => if close < end {
                        match parse_range(ops, start + 1, close) {
                            Ok(body) => continued(
                                seq![Node::Loop(body, None)],
                                parse_range(ops, close + 1, end),
                            ),
                            Err(e) => Err(e),
                        }
                    } else {
                        Err(Diagnostic::UnterminatedOpen(start as usize))
                    },
                    None => Err(Diagnostic::UnterminatedOpen(start as usize)),
                }
            },
            op => continued(seq![Node::Op(unit_op(op)->0)], parse_range(ops, start + 1, end)),
        }
    }
}

/// The tree of an opcode sequence, or the first error met from left to right.
pub open spec fn parse(ops: Seq<BaseOp>) -> Result<Seq<Node>, Diagnostic> {
    parse_range(ops, 0, ops.len() as int)
}

/// Parses the opcodes from `start_pos` up to `end_pos` as a program of its own.
pub fn to_ops_helper(input: &Vec<BaseOp>, start_pos: usize, end_pos: usize) -> (parsed: Result<
    Vec<Expression>,
    Diagnostic,
>)
    requires
        start_pos <= end_pos <= input.len(),
    ensures
        match parsed {
            Ok(tree) => parse_range(input@, start_pos as int, end_pos as int) == Ok::<
                Seq<Node>,
                Diagnostic,
            >(nodes_of(tree@)),
            Err(e) => parse_range(input@, start_pos as int, end_pos as int) == Err::<
                Seq<Node>,
                Diagnostic,
            >(e),
        },
    decreases end_pos - start_pos,
{
    let mut out: Vec<Expression> = Vec::new();
    let mut i: usize = start_pos;
    let ghost whole = parse_range(input@, start_pos as int, end_pos as int);
    assert(continued(nodes_of(out@), parse_range(input@, i as int, end_pos as int)) == whole) by {
        match parse_range(input@, i as int, end_pos as int) {
            Ok(more) => assert(Seq::<Node>::empty() + more =~= more),
            Err(_) => {},
        }
    }
    while i < end_pos
        invariant
            start_pos <= i <= end_pos <= input.len(),
            whole == parse_range(input@, start_pos as int, end_pos as int),
            continued(nodes_of(out@), parse_range(input@, i as int, end_pos as int)) == whole,
        decreases end_pos - i,
    {
        let ghost before = out@;
        let expr = match input[i] {
            BaseOp::IncrementData => {
                i += 1;
                Expression::Op(Op::ChangeData(1))
            },
            BaseOp::DecrementData => {
                i += 1;
                Expression::Op(Op::ChangeData(-1))
            },
            BaseOp::IncrementPointer => {
                i += 1;
                Expression::Op(Op::ChangePointer(1))
            },
            BaseOp::DecrementPointer => {
                i += 1;
                Expression::Op(Op::ChangePointer(-1))
            },
            BaseOp::Read => {
                i += 1;
                Expression::Op(Op::Read(1))
            },
            BaseOp::Write => {
                i += 1;
                Expression::Op(Op::Write(1))
            },
            BaseOp::EndLoop => {
                return Err(Diagnostic::UnexpectedClose(i));
            },
            BaseOp::StartLoop => {
                let start = i;
                let close = match find_matching_end_loop(input, start) {
                    Some(end) => end,
                    None => {
                        return Err(Diagnostic::UnterminatedOpen(start));
                    },
                };
                if close >= end_pos {
                    return Err(Diagnostic::UnterminatedOpen(start));
                }
                let body = match to_ops_helper(input, start + 1, close) {
                    Ok(body) => body,
                    Err(e) => {
                        return Err(e);
                    },
                };
                i = close + 1;
                Expression::Loop(body, None)
            },
        };
        out.push(expr);
        proof {
            let rest = parse_range(input@, i as int, end_pos as int);
            assert(out@.drop_last() =~= before);
            match rest {
                Ok(more) => {
                    assert(nodes_of(before) + (seq![node_of(expr)] + more) =~= nodes_of(out@)
                        + more);
                },
                Err(_) => {},
            }
        }
    }
    Ok(out)
}

/// Parses an opcode sequence into its loop tree. The parse succeeds exactly
/// when the brackets are balanced; the tree then mirrors the sequence: read
/// off in order, each loop between its brackets, its nodes are the opcodes.
/// Where the brackets are not balanced, the error names the first bracket
/// from the left that has no partner.
pub fn to_ops(input: &Vec<BaseOp>) -> (parsed: Result<Vec<Expression>, Diagnostic>)
    ensures
        parsed is Ok <==> balanced(input@),
        match parsed {
            Ok(tree) => parse(input@) == Ok::<Seq<Node>, Diagnostic>(nodes_of(tree@)),
            Err(e) => parse(input@) == Err::<Seq<Node>, Diagnostic>(e),
        },
        match parsed {
            Ok(tree) => all_plain(nodes_of(tree@)) && flatten(nodes_of(tree@)) == input@,
            Err(e) => names_first_stray(input@, e),
        },
{
    proof {
        assert(input@.len() == input.len());
        lemma_parse_ok_iff_balanced(input@);
        match parse(input@) {
            Ok(tree) => lemma_parse_mirrors(input@, tree),
            Err(_) => lemma_parse_error(input@),
        }
    }
    to_ops_helper(input, 0, input.len())
}

} // verus!
