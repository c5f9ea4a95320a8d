//! Captured cursor positions and the byte ranges between them.

use vstd::prelude::*;
use vstd::slice::slice_subrange;

verus! {

/// A place in a buffer that a cursor has been at.
///
/// Its model is the pair of [`Position::buffer`], the bytes of the slice it
/// was captured in, and [`Position::offset`], the number of bytes before the
/// place, which never exceeds the length of the buffer.
#[derive(Copy, Clone, PartialEq, Eq)]
pub struct Position<'a> {
    /// The slice that the position lies in.
    bytes: &'a [u8],
    /// The number of bytes of `bytes` before the position.
    index: usize,
}

impl<'a> Position<'a> {
    /// The position lies within its buffer. Every position that executable
    /// code holds is well formed.
    #[verifier::type_invariant]
    pub closed spec fn well_formed(&self) -> bool {
        self.index <= self.bytes@.len()
    }

    /// The bytes of the slice that the position lies in.
    pub closed spec fn buffer(&self) -> Seq<u8> {
        self.bytes@
    }

    /// The number of bytes before the position.
    pub closed spec fn offset(&self) -> nat {
        self.index as nat
    }

    /// The bytes from this position up to `next`.
    pub open spec fn span_to(&self, next: Position<'a>) -> Seq<u8> {
        self.buffer().subrange(self.offset() as int, next.offset() as int)
    }

    /// The range between a position and one that lies `count` bytes behind
    /// it in the same buffer consists of exactly those `count` bytes of the
    /// buffer.
    pub proof fn lemma_span_is_what_lies_between(self, next: Position<'a>, count: nat)
        requires
            next.well_formed(),
            self.buffer() == next.buffer(),
            next.offset() == self.offset() + count,
        ensures
            self.span_to(next).len() == count,
            forall|i: int|
                0 <= i < count ==> #[trigger] self.span_to(next)[i] == self.buffer()[self.offset()
                    + i],
    {
    }

    /// Creates the position `index` bytes into `bytes`.
    pub(crate) fn new(bytes: &'a [u8], index: usize) -> (position: Self)
        requires
            index <= bytes@.len(),
        ensures
            position.buffer() == bytes@,
            position.offset() == index,
    {
        Position { bytes, index }
    }

    /// Returns the slice bounded by `self` and `next`, a position captured
    /// later in the same buffer.
    pub fn slice_to(self, next: Position<'a>) -> (slice: &'a [u8])
        requires
            self.buffer() == next.buffer(),
            self.offset() <= next.offset(),
        ensures
            slice@ == self.span_to(next),
    {
        proof {
            use_type_invariant(&self);
            use_type_invariant(&next);
        }
        slice_subrange(self.bytes, self.index, next.index)
    }
}

} // verus!
