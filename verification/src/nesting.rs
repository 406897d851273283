//! Loop nesting in an opcode sequence: what it means for the brackets to be
//! balanced, and what the bracket matcher finds when they are.

use vstd::prelude::*;
use crate::parse::{lemma_scan_bounds, matching_end, parse, parse_range, scan_for_end};
use crate::structure::{BaseOp, Diagnostic};

verus! {

/// By how much an opcode changes the number of open loops.
pub open spec fn nesting_change(op: BaseOp) -> int {
    match op {
        BaseOp::StartLoop => 1,
        BaseOp::EndLoop => -1,
        _ => 0,
    }
}

/// The number of loops opened by the opcodes from `from` up to `to`, less the
/// number of loops they close.
pub open spec fn nesting(ops: Seq<BaseOp>, from: int, to: int) -> int
    decreases to - from,
{
    if to <= from {
        0
    } else {
        nesting(ops, from, to - 1) + nesting_change(ops[to - 1])
    }
}

/// The brackets among the opcodes from `from` up to `to` are balanced: every
/// loop opened is closed, and none is closed before it is opened.
pub open spec fn balanced_range(ops: Seq<BaseOp>, from: int, to: int) -> bool {
    &&& nesting(ops, from, to) == 0
    &&& forall|k: int| from <= k <= to ==> nesting(ops, from, k) >= 0
}

/// The brackets of the whole sequence are balanced.
pub open spec fn balanced(ops: Seq<BaseOp>) -> bool {
    balanced_range(ops, 0, ops.len() as int)
}

/// The `EndLoop` at `end` closes the loop opened at `start`: the brackets
/// between the two are balanced.
pub open spec fn closes(ops: Seq<BaseOp>, start: int, end: int) -> bool {
    &&& start < end < ops.len()
    &&& ops[end] == BaseOp::EndLoop
    &&& balanced_range(ops, start + 1, end)
}

/// The error names the first bracket from the left that has no partner: the
/// brackets before it are balanced, and it is an `EndLoop`, or a `StartLoop`
/// that no `EndLoop` closes.
pub open spec fn names_first_stray(ops: Seq<BaseOp>, error: Diagnostic) -> bool {
    match error {
        Diagnostic::UnexpectedClose(at) => {
            &&& at < ops.len()
            &&& ops[at as int] == BaseOp::EndLoop
            &&& balanced_range(ops, 0, at as int)
        },
        Diagnostic::UnterminatedOpen(at) => {
            &&& at < ops.len()
            &&& ops[at as int] == BaseOp::StartLoop
            &&& balanced_range(ops, 0, at as int)
            &&& forall|end: int| !closes(ops, at as int, end)
        },
        _ => false,
    }
}

/// The nesting of a range is the sum of the nestings of its two parts.
pub proof fn lemma_nesting_split(ops: Seq<BaseOp>, from: int, mid: int, to: int)
    requires
        from <= mid <= to,
    ensures
        nesting(ops, from, to) == nesting(ops, from, mid) + nesting(ops, mid, to),
    decreases to - mid,
{
    if mid < to {
        lemma_nesting_split(ops, from, mid, to - 1);
    }
}

/// The nesting of a range is the change its first opcode makes, and the
/// nesting of the rest.
pub proof fn lemma_nesting_first(ops: Seq<BaseOp>, from: int, to: int)
    requires
        from < to,
    ensures
        nesting(ops, from, to) == nesting_change(ops[from]) + nesting(ops, from + 1, to),
{
    lemma_nesting_split(ops, from, from + 1, to);
    assert(nesting(ops, from, from) == 0);
}

/// Two balanced ranges, one after the other, make a balanced range.
pub proof fn lemma_balanced_join(ops: Seq<BaseOp>, from: int, mid: int, to: int)
    requires
        from <= mid <= to,
        balanced_range(ops, from, mid),
        balanced_range(ops, mid, to),
    ensures
        balanced_range(ops, from, to),
{
    lemma_nesting_split(ops, from, mid, to);
    assert forall|k: int| from <= k <= to implies nesting(ops, from, k) >= 0 by {
        if k > mid {
            lemma_nesting_split(ops, from, mid, k);
        }
    }
}

/// Where the opcodes from `i` up to `to` close more loops than `level` and
/// those they open, the scan from `i` at that level finds its `EndLoop` before
/// `to`: the first at which the level is back to zero, with no level below zero
/// on the way.
pub proof fn lemma_scan_finds(ops: Seq<BaseOp>, i: int, level: nat, to: int)
    requires
        0 <= i <= to <= ops.len(),
        level + nesting(ops, i, to) < 0,
    ensures
        scan_for_end(ops, i, level) matches Some(end) && i <= end < to && ops[end]
            == BaseOp::EndLoop && level + nesting(ops, i, end) == 0 && forall|k: int|
            i <= k <= end ==> level + nesting(ops, i, k) >= 0,
    decreases to - i,
{
    lemma_nesting_first(ops, i, to);
    if !(ops[i] == BaseOp::EndLoop && level == 0) {
        let next: nat = (level + nesting_change(ops[i])) as nat;
        lemma_scan_finds(ops, i + 1, next, to);
        let end = scan_for_end(ops, i + 1, next)->0;
        lemma_nesting_first(ops, i, end);
        assert forall|k: int| i <= k <= end implies level + nesting(ops, i, k) >= 0 by {
            if k > i {
                lemma_nesting_first(ops, i, k);
            }
        }
    }
}

/// What the scan finds closes the level the scan began at, and no level is
/// below zero on the way there.
pub proof fn lemma_scan_found(ops: Seq<BaseOp>, i: int, level: nat)
    requires
        0 <= i,
        scan_for_end(ops, i, level) is Some,
    ensures
        level + nesting(ops, i, scan_for_end(ops, i, level)->0) == 0,
        forall|k: int|
            i <= k <= scan_for_end(ops, i, level)->0 ==> level + nesting(ops, i, k) >= 0,
    decreases ops.len() - i,
{
    let end = scan_for_end(ops, i, level)->0;
    if !(ops[i] == BaseOp::EndLoop && level == 0) {
        let next: nat = (level + nesting_change(ops[i])) as nat;
        lemma_scan_bounds(ops, i + 1, next);
        lemma_scan_found(ops, i + 1, next);
        lemma_nesting_first(ops, i, end);
        assert forall|k: int| i <= k <= end implies level + nesting(ops, i, k) >= 0 by {
            if k > i {
                lemma_nesting_first(ops, i, k);
            }
        }
    }
}

/// The scan finds the `EndLoop` at `to` where that closes the level the scan
/// began at and no level is below zero on the way there.
pub proof fn lemma_scan_reaches(ops: Seq<BaseOp>, i: int, level: nat, to: int)
    requires
        0 <= i <= to < ops.len(),
        ops[to] == BaseOp::EndLoop,
        level + nesting(ops, i, to) == 0,
        forall|k: int| i <= k <= to ==> level + nesting(ops, i, k) >= 0,
    ensures
        scan_for_end(ops, i, level) == Some(to),
    decreases to - i,
{
    if i < to {
        lemma_nesting_first(ops, i, to);
        lemma_nesting_first(ops, i, i + 1);
        let next: nat = (level + nesting_change(ops[i])) as nat;
        let after = i + 1;
        assert forall|k: int| after <= k <= to implies next + nesting(ops, after, k) >= 0 by {
            lemma_nesting_first(ops, i, k);
        }
        lemma_scan_reaches(ops, after, next, to);
    }
}

/// What the matcher finds for a loop is the `EndLoop` that closes it, and it
/// finds every such.
pub proof fn lemma_matching_end_closes(ops: Seq<BaseOp>, start: int, end: int)
    requires
        0 <= start,
    ensures
        matching_end(ops, start) == Some(end) <==> closes(ops, start, end),
{
    let inside = start + 1;
    if matching_end(ops, start) == Some(end) {
        lemma_scan_bounds(ops, inside, 0);
        lemma_scan_found(ops, inside, 0);
    }
    if closes(ops, start, end) {
        lemma_scan_reaches(ops, inside, 0, end);
    }
}

/// Where the matcher finds nothing for a loop, no `EndLoop` closes it.
pub proof fn lemma_nothing_closes(ops: Seq<BaseOp>, start: int)
    requires
        0 <= start,
        matching_end(ops, start) is None,
    ensures
        forall|end: int| !closes(ops, start, end),
{
    assert forall|end: int| !closes(ops, start, end) by {
        lemma_matching_end_closes(ops, start, end);
    }
}

/// In a balanced sequence the bracket matcher finds, for every `StartLoop`,
/// its `EndLoop`, and the opcodes between the two are balanced in their turn.
pub proof fn lemma_balanced_match(ops: Seq<BaseOp>, start: int)
    requires
        balanced(ops),
        0 <= start < ops.len(),
        ops[start] == BaseOp::StartLoop,
    ensures
        matching_end(ops, start) matches Some(end) && closes(ops, start, end),
{
    // The opcodes after the `StartLoop` close one loop more than they open.
    lemma_nesting_split(ops, 0, start + 1, ops.len() as int);
    assert(nesting(ops, 0, start) >= 0);
    lemma_scan_finds(ops, start + 1, 0, ops.len() as int);
}

/// A loop, from its `StartLoop` to the `EndLoop` that the matcher finds for
/// it, is a balanced range, and so is its body.
pub proof fn lemma_loop_is_balanced(ops: Seq<BaseOp>, start: int)
    requires
        0 <= start < ops.len(),
        ops[start] == BaseOp::StartLoop,
        matching_end(ops, start) is Some,
    ensures
        balanced_range(ops, start + 1, matching_end(ops, start)->0),
        balanced_range(ops, start, matching_end(ops, start)->0 + 1),
{
    let close = matching_end(ops, start)->0;
    let inside = start + 1;
    lemma_scan_bounds(ops, inside, 0);
    lemma_scan_found(ops, inside, 0);
    lemma_nesting_first(ops, start, close + 1);
    assert forall|k: int| start <= k <= close + 1 implies nesting(ops, start, k) >= 0 by {
        if k > start {
            lemma_nesting_first(ops, start, k);
        }
    }
}

/// A range parses exactly when its brackets are balanced.
pub proof fn lemma_parse_range_ok_iff_balanced(ops: Seq<BaseOp>, start: int, end: int)
    requires
        0 <= start <= end <= ops.len(),
    ensures
        parse_range(ops, start, end) is Ok <==> balanced_range(ops, start, end),
    decreases end - start,
{
    if start < end {
        assert(nesting(ops, start, start) == 0);
        match ops[start] {
            BaseOp::EndLoop => {
                assert(!(nesting(ops, start, start + 1) >= 0));
            },
            BaseOp::StartLoop => {
                lemma_scan_bounds(ops, start + 1, 0);
                lemma_nesting_first(ops, start, end);
                if parse_range(ops, start, end) is Ok {
                    let close = matching_end(ops, start)->0;
                    lemma_parse_range_ok_iff_balanced(ops, start + 1, close);
                    lemma_parse_range_ok_iff_balanced(ops, close + 1, end);
                    lemma_nesting_first(ops, start, close + 1);
                    assert forall|k: int| start <= k <= end implies nesting(ops, start, k)
                        >= 0 by {
                        if k > close {
                            lemma_nesting_split(ops, start, close + 1, k);
                        } else if k > start {
                            lemma_nesting_first(ops, start, k);
                        }
                    }
                    lemma_nesting_split(ops, start, close + 1, end);
                }
                if balanced_range(ops, start, end) {
                    lemma_scan_finds(ops, start + 1, 0, end);
                    let close = matching_end(ops, start)->0;
                    lemma_parse_range_ok_iff_balanced(ops, start + 1, close);
                    lemma_nesting_first(ops, start, close + 1);
                    let after = close + 1;
                    assert forall|k: int| after <= k <= end implies nesting(ops, after, k)
                        >= 0 by {
                        lemma_nesting_split(ops, start, after, k);
                    }
                    lemma_nesting_split(ops, start, close + 1, end);
                    lemma_parse_range_ok_iff_balanced(ops, close + 1, end);
                }
            },
            _ => {
                lemma_parse_range_ok_iff_balanced(ops, start + 1, end);
                lemma_nesting_first(ops, start, end);
                if balanced_range(ops, start + 1, end) {
                    assert forall|k: int| start <= k <= end implies nesting(ops, start, k)
                        >= 0 by {
                        if k > start {
                            lemma_nesting_first(ops, start, k);
                        }
                    }
                }
                if balanced_range(ops, start, end) {
                    let after = start + 1;
                    assert forall|k: int| after <= k <= end implies nesting(ops, after, k)
                        >= 0 by {
                        lemma_nesting_first(ops, start, k);
                    }
                }
            },
        }
    }
}

/// An opcode sequence parses exactly when its brackets are balanced.
pub proof fn lemma_parse_ok_iff_balanced(ops: Seq<BaseOp>)
    ensures
        parse(ops) is Ok <==> balanced(ops),
{
    lemma_parse_range_ok_iff_balanced(ops, 0, ops.len() as int);
}

/// Where a range does not parse, the error names the first bracket from the
/// left that has no partner in the range: the brackets before it are
/// balanced, and it is an `EndLoop`, or a `StartLoop` for which the matcher
/// finds no `EndLoop` before the end of the range.
pub proof fn lemma_parse_range_error(ops: Seq<BaseOp>, start: int, end: int)
    requires
        0 <= start <= end <= ops.len() <= usize::MAX,
        parse_range(ops, start, end) is Err,
    ensures
        match parse_range(ops, start, end)->Err_0 {
            Diagnostic::UnexpectedClose(at) => {
                &&& start <= at < end
                &&& ops[at as int] == BaseOp::EndLoop
                &&& balanced_range(ops, start, at as int)
            },
            Diagnostic::UnterminatedOpen(at) => {
                &&& start <= at < end
                &&& ops[at as int] == BaseOp::StartLoop
                &&& balanced_range(ops, start, at as int)
                &&& !(matching_end(ops, at as int) matches Some(close) && close < end)
            },
            _ => false,
        },
    decreases end - start,
{
    match ops[start] {
        BaseOp::EndLoop => {},
        BaseOp::StartLoop => {
            lemma_scan_bounds(ops, start + 1, 0);
            if matching_end(ops, start) is Some && matching_end(ops, start)->0 < end {
                let close = matching_end(ops, start)->0;
                lemma_loop_is_balanced(ops, start);
                lemma_parse_range_ok_iff_balanced(ops, start + 1, close);
                lemma_parse_range_error(ops, close + 1, end);
                match parse_range(ops, close + 1, end)->Err_0 {
                    Diagnostic::UnexpectedClose(at) => {
                        lemma_balanced_join(ops, start, close + 1, at as int);
                    },
                    Diagnostic::UnterminatedOpen(at) => {
                        lemma_balanced_join(ops, start, close + 1, at as int);
                    },
                    _ => {},
                }
            }
        },
        _ => {
            lemma_parse_range_error(ops, start + 1, end);
            lemma_nesting_first(ops, start, start + 1);
            match parse_range(ops, start + 1, end)->Err_0 {
                Diagnostic::UnexpectedClose(at) => {
                    lemma_balanced_join(ops, start, start + 1, at as int);
                },
                Diagnostic::UnterminatedOpen(at) => {
                    lemma_balanced_join(ops, start, start + 1, at as int);
                },
                _ => {},
            }
        },
    }
}

/// Where an opcode sequence does not parse, the error names the first
/// bracket from the left that has no partner.
pub proof fn lemma_parse_error(ops: Seq<BaseOp>)
    requires
        ops.len() <= usize::MAX,
        parse(ops) is Err,
    ensures
        names_first_stray(ops, parse(ops)->Err_0),
{
    lemma_parse_range_error(ops, 0, ops.len() as int);
    match parse(ops)->Err_0 {
        Diagnostic::UnterminatedOpen(at) => {
            lemma_scan_bounds(ops, at + 1, 0);
            lemma_nothing_closes(ops, at as int);
        },
        _ => {},
    }
}

} // verus!
