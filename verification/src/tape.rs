//! The tape: a sequence of byte cells, and the arithmetic on one cell.

use vstd::prelude::*;

verus! {

/// The value of a cell after `delta` has been added to it, modulo 256.
pub open spec fn wrapped(cell: u8, delta: int) -> u8 {
    ((cell as int + delta) % 256) as u8
}

/// A blank tape of `len` cells.
pub open spec fn zeros(len: nat) -> Seq<u8> {
    Seq::new(len, |i: int| 0u8)
}

/// The largest number of cells a growable tape can hold.
pub open spec fn tape_limit() -> int {
    isize::MAX as int
}

/// The tape after it has grown to hold at least `len` cells; new cells are
/// blank, and a tape that is long enough is left as it is.
pub open spec fn grown(tape: Seq<u8>, len: int) -> Seq<u8> {
    if len <= tape.len() {
        tape
    } else {
        tape + zeros((len - tape.len()) as nat)
    }
}

/// The tape after the `count` cells from `at` on have taken what the input
/// stream supplied: the supplied bytes in order, then zeros.
pub open spec fn received(tape: Seq<u8>, at: int, count: int, supplied: Seq<u8>) -> Seq<u8> {
    Seq::new(
        tape.len(),
        |a: int|
            if at <= a < at + count {
                if a - at < supplied.len() {
                    supplied[a - at]
                } else {
                    0u8
                }
            } else {
                tape[a]
            },
    )
}

/// Adds a signed delta to a cell, modulo 256.
pub fn wrapping_change(cell: u8, delta: i8) -> (changed: u8)
    ensures
        changed == wrapped(cell, delta as int),
{
    let sum: i16 = cell as i16 + delta as i16 + 256;
    (sum % 256) as u8
}

/// Makes a blank tape of `len` cells.
pub(crate) fn blank(len: usize) -> (tape: Vec<u8>)
    requires
        len <= tape_limit(),
    ensures
        tape@ == zeros(len as nat),
{
    let mut tape: Vec<u8> = Vec::new();
    tape.resize(len, 0u8);
    tape
}

/// Grows the tape to hold at least `len` cells.
pub(crate) fn grow(tape: &mut Vec<u8>, len: usize)
    requires
        len <= tape_limit(),
    ensures
        final(tape)@ == grown(old(tape)@, len as int),
{
    if len > tape.len() {
        tape.resize(len, 0u8);
    }
}

/// Stores what the input stream supplied in the `count` cells from `at` on, and
/// zeros in those of them that the supplied bytes do not reach.
pub(crate) fn store_block(tape: &mut Vec<u8>, at: usize, count: usize, supplied: &[u8])
    requires
        at + count <= old(tape).len(),
    ensures
        final(tape)@ == received(old(tape)@, at as int, count as int, supplied@),
{
    let mut i: usize = 0;
    while i < count
        invariant
            i <= count,
            at + count <= tape.len(),
            tape@ == received(old(tape)@, at as int, i as int, supplied@),
        decreases count - i,
    {
        let byte = if i < supplied.len() {
            supplied[i]
        } else {
            0u8
        };
        tape.set(at + i, byte);
        i += 1;
    }
}

/// Appends the `count` cells from `at` on to the output.
pub(crate) fn emit_block(tape: &Vec<u8>, at: usize, count: usize, output: &mut Vec<u8>)
    requires
        at + count <= tape.len(),
    ensures
        final(output)@ == old(output)@ + tape@.subrange(at as int, at + count),
{
    let mut i: usize = 0;
    while i < count
        invariant
            i <= count,
            at + count <= tape.len(),
            output@ == old(output)@ + tape@.subrange(at as int, at + i),
        decreases count - i,
    {
        output.push(tape[at + i]);
        i += 1;
    }
}

} // verus!
