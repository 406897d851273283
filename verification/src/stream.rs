//! An input stream held in memory: the bytes, and how many of them have been
//! consumed.

use vstd::prelude::*;
use vstd::slice::slice_subrange;

verus! {

/// What a stream over `input`, of which `consumed` bytes are gone, yields when
/// `want` bytes are asked of it: the next `want` bytes, or what is left where
/// that is less.
pub open spec fn yielded(input: Seq<u8>, consumed: nat, want: nat) -> Seq<u8> {
    if consumed >= input.len() {
        Seq::empty()
    } else if consumed + want <= input.len() {
        input.subrange(consumed as int, (consumed + want) as int)
    } else {
        input.subrange(consumed as int, input.len() as int)
    }
}

/// The bytes that the stream yields to a demand of `want` bytes.
pub(crate) fn yield_bytes<'a>(input: &'a [u8], consumed: usize, want: usize) -> (supplied: &'a [u8])
    ensures
        supplied@ == yielded(input@, consumed as nat, want as nat),
        supplied@.len() <= want,
        consumed + supplied@.len() <= input@.len() || supplied@.len() == 0,
{
    if consumed >= input.len() {
        slice_subrange(input, 0, 0)
    } else if want <= input.len() - consumed {
        slice_subrange(input, consumed, consumed + want)
    } else {
        slice_subrange(input, consumed, input.len())
    }
}

} // verus!
