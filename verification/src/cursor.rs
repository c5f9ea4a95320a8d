//! A forward-only cursor over a borrowed byte slice.

use crate::encoding::{
    char_step, char_width, is_ascii_whitespace, is_continuation, is_continuation_byte,
    is_whitespace, lemma_char_step_bounds, lemma_step_over_character, normalized_byte,
    normalized_len, scan_continuations, utf8_char_width, CR, LF,
};
use crate::error::Error;
use crate::position::Position;
use vstd::prelude::*;
use vstd::utf8::valid_utf8;

verus! {

/// A read position in a byte slice that only ever moves forward.
///
/// The cursor borrows the slice and never changes it. Its model is the pair
/// of [`Cursor::buffer`], the bytes of the whole slice, and
/// [`Cursor::offset`], the number of bytes already consumed, which never
/// exceeds the length of the buffer.
#[derive(PartialEq, Eq)]
pub struct Cursor<'a> {
    /// The slice that is traversed.
    bytes: &'a [u8],
    /// The place of the next byte in `bytes`.
    index: usize,
}

impl<'a> Clone for Cursor<'a> {
    fn clone(&self) -> (copy: Self)
        ensures
            copy == *self,
    {
        proof {
            use_type_invariant(self);
        }
        Cursor { bytes: self.bytes, index: self.index }
    }
}

impl<'a> Cursor<'a> {
    /// The cursor lies within its buffer. Every cursor that executable code
    /// holds is well formed.
    #[verifier::type_invariant]
    pub closed spec fn well_formed(&self) -> bool {
        self.index <= self.bytes@.len()
    }

    /// The bytes of the slice, consumed or not.
    pub closed spec fn buffer(&self) -> Seq<u8> {
        self.bytes@
    }

    /// The number of bytes consumed so far, which is the place of the next
    /// byte in the buffer.
    pub closed spec fn offset(&self) -> nat {
        self.index as nat
    }

    /// The number of bytes not yet consumed.
    pub open spec fn remaining(&self) -> nat {
        (self.buffer().len() - self.offset()) as nat
    }

    /// The bytes not yet consumed.
    pub open spec fn rest(&self) -> Seq<u8> {
        self.buffer().subrange(self.offset() as int, self.buffer().len() as int)
    }

    /// Whether every byte has been consumed.
    pub open spec fn at_end(&self) -> bool {
        self.offset() >= self.buffer().len()
    }

    /// The next byte, where the cursor is not at the end.
    pub open spec fn current(&self) -> u8 {
        self.buffer()[self.offset() as int]
    }

    /// At every point of a traversal the bytes consumed and the bytes
    /// remaining add up to the length of the buffer.
    pub proof fn lemma_consumed_and_remaining(self)
        requires
            self.well_formed(),
        ensures
            self.offset() + self.remaining() == self.buffer().len(),
    {
    }

    /// Constructs a cursor at the start of `slice`.
    pub fn new(slice: &'a [u8]) -> (cursor: Self)
        ensures
            cursor.buffer() == slice@,
            cursor.offset() == 0,
    {
        Cursor { bytes: slice, index: 0 }
    }

    /// Captures the current position.
    pub fn position(&self) -> (position: Position<'a>)
        ensures
            position.buffer() == self.buffer(),
            position.offset() == self.offset(),
    {
        proof {
            use_type_invariant(self);
        }
        Position::new(self.bytes, self.index)
    }

    /// Returns the number of bytes consumed.
    pub fn bytes_consumed(&self) -> (consumed: usize)
        ensures
            consumed == self.offset(),
            consumed <= self.buffer().len(),
    {
        proof {
            use_type_invariant(self);
        }
        self.index
    }

    /// Returns the number of bytes remaining.
    pub fn bytes_remaining(&self) -> (remaining: usize)
        ensures
            remaining == self.remaining(),
            self.offset() + remaining == self.buffer().len(),
    {
        proof {
            use_type_invariant(self);
        }
        self.bytes.len() - self.index
    }

    /// Checks if the cursor has a next byte.
    pub fn has_next(&self) -> (more: bool)
        ensures
            more == !self.at_end(),
    {
        self.index < self.bytes.len()
    }

    /// Peeks into the next byte. Does not advance.
    pub fn peek(&self) -> (byte: Option<u8>)
        ensures
            byte == if self.at_end() {
                None
            } else {
                Some(self.current())
            },
    {
        if !self.has_next() {
            None
        } else {
            Some(self.peek_unchecked())
        }
    }

    /// Peeks into the byte `n` places ahead, the next byte being `n == 0`.
    /// Does not advance.
    pub fn peek_n(&self, n: usize) -> (byte: Option<u8>)
        ensures
            byte == if self.offset() + n < self.buffer().len() {
                Some(self.buffer()[self.offset() + n])
            } else {
                None
            },
    {
        if n < self.bytes_remaining() {
            proof {
                assert(self.bytes.len() == self.bytes@.len());
            }
            Some(self.bytes[self.index + n])
        } else {
            None
        }
    }

    /// Peeks into the byte `n` places ahead, which the caller knows to exist.
    /// Does not advance.
    pub fn peek_n_unchecked(&self, n: usize) -> (byte: u8)
        requires
            self.offset() + n < self.buffer().len(),
        ensures
            byte == self.buffer()[self.offset() + n],
    {
        proof {
            assert(self.bytes.len() == self.bytes@.len());
        }
        self.bytes[self.index + n]
    }

    /// Peeks into the next byte, which the caller knows to exist. Does not
    /// advance.
    pub fn peek_unchecked(&self) -> (byte: u8)
        requires
            !self.at_end(),
        ensures
            byte == self.current(),
    {
        self.bytes[self.index]
    }

    /// Gets the next byte and advances. Does not normalize line terminators.
    pub fn next(&mut self) -> (byte: Option<u8>)
        ensures
            final(self).buffer() == old(self).buffer(),
            match byte {
                Some(b) => {
                    &&& !old(self).at_end()
                    &&& b == old(self).current()
                    &&& final(self).offset() == old(self).offset() + 1
                },
                None => {
                    &&& old(self).at_end()
                    &&& final(self).offset() == old(self).offset()
                },
            },
    {
        if self.has_next() {
            let byte: u8 = self.peek_unchecked();
            self.advance_unchecked();
            Some(byte)
        } else {
            None
        }
    }

    /// Gets the next byte, which the caller knows to exist, and advances. Does
    /// not normalize line terminators.
    pub fn next_unchecked(&mut self) -> (byte: u8)
        requires
            !old(self).at_end(),
        ensures
            final(self).buffer() == old(self).buffer(),
            final(self).offset() == old(self).offset() + 1,
            byte == old(self).current(),
    {
        let byte: u8 = self.peek_unchecked();
        self.advance_unchecked();
        byte
    }

    /// Gets the next byte and advances, mapping each of CR, LF and CRLF to a
    /// single LF.
    pub fn next_lfn(&mut self) -> (byte: Option<u8>)
        ensures
            final(self).buffer() == old(self).buffer(),
            final(self).offset() == old(self).offset() + normalized_len(
                old(self).buffer(),
                old(self).offset() as int,
            ),
            byte == if old(self).at_end() {
                None
            } else {
                Some(normalized_byte(old(self).buffer(), old(self).offset() as int))
            },
    {
        match self.peek() {
            None => None,
            Some(byte) => {
                self.advance_unchecked();
                if byte == CR {
                    if self.peek() == Some(LF) {
                        self.advance_unchecked();
                    }
                    Some(LF)
                } else {
                    Some(byte)
                }
            },
        }
    }

    /// Advances one byte, or stays at the end.
    pub fn advance(&mut self)
        ensures
            final(self).buffer() == old(self).buffer(),
            final(self).offset() == if old(self).at_end() {
                old(self).offset()
            } else {
                old(self).offset() + 1
            },
    {
        if self.has_next() {
            self.advance_unchecked();
        }
    }

    /// Advances one byte, which the caller knows to exist.
    pub fn advance_unchecked(&mut self)
        requires
            !old(self).at_end(),
        ensures
            final(self).buffer() == old(self).buffer(),
            final(self).offset() == old(self).offset() + 1,
    {
        proof {
            assert(self.bytes.len() == self.bytes@.len());
        }
        self.index = self.index + 1;
    }

    /// Advances `n` bytes, which the caller knows to exist.
    pub fn advance_n_unchecked(&mut self, n: usize)
        requires
            old(self).offset() + n <= old(self).buffer().len(),
        ensures
            final(self).buffer() == old(self).buffer(),
            final(self).offset() == old(self).offset() + n,
    {
        proof {
            assert(self.bytes.len() == self.bytes@.len());
        }
        self.index = self.index + n;
    }

    /// Advances by the length that the next byte announces as a lead byte,
    /// without looking at the bytes that follow it. The caller knows that as
    /// many bytes exist. A byte that can begin no character is not stepped
    /// over.
    pub fn advance_char_unchecked(&mut self)
        requires
            !old(self).at_end(),
            old(self).offset() + char_width(old(self).current()) <= old(self).buffer().len(),
        ensures
            final(self).buffer() == old(self).buffer(),
            final(self).offset() == old(self).offset() + char_width(old(self).current()),
    {
        let width: u8 = utf8_char_width(self.peek_unchecked());
        proof {
            assert(self.bytes.len() == self.bytes@.len());
        }
        self.index = self.index + width as usize;
    }

    /// Advances until the next byte is not ASCII whitespace, or to the end.
    pub fn skip_ascii_whitespace(&mut self)
        ensures
            final(self).buffer() == old(self).buffer(),
            old(self).offset() <= final(self).offset() <= old(self).buffer().len(),
            forall|i: int|
                old(self).offset() <= i < final(self).offset() ==> is_whitespace(
                    #[trigger] old(self).buffer()[i],
                ),
            !final(self).at_end() ==> !is_whitespace(final(self).current()),
    {
        proof {
            use_type_invariant(&*self);
        }
        loop
            invariant
                self.buffer() == old(self).buffer(),
                old(self).offset() <= self.offset() <= self.buffer().len(),
                forall|i: int|
                    old(self).offset() <= i < self.offset() ==> is_whitespace(
                        #[trigger] self.buffer()[i],
                    ),
            ensures
                !self.at_end() ==> !is_whitespace(self.current()),
            decreases self.buffer().len() - self.offset(),
        {
            match self.peek() {
                None => break ,
                Some(byte) => {
                    if !is_ascii_whitespace(byte) {
                        break ;
                    }
                    self.advance_unchecked();
                },
            }
        }
    }

    /// Reads one byte of a longer sequence, normalized, and tells whether it
    /// is a continuation byte: `missing` where the input has ended, `invalid`
    /// where the byte is of another form.
    fn expect_continuation(&mut self, missing: Error, invalid: Error) -> (outcome: Result<
        (),
        Error,
    >)
        ensures
            final(self).buffer() == old(self).buffer(),
            final(self).offset() == old(self).offset() + normalized_len(
                old(self).buffer(),
                old(self).offset() as int,
            ),
            outcome == if old(self).at_end() {
                Err::<(), Error>(missing)
            } else if is_continuation(old(self).current()) {
                Ok::<(), Error>(())
            } else {
                Err::<(), Error>(invalid)
            },
    {
        match self.next_lfn() {
            None => Err(missing),
            Some(byte) => {
                if is_continuation_byte(byte) {
                    Ok(())
                } else {
                    Err(invalid)
                }
            },
        }
    }

    /// Advances over one character encoded as UTF-8, a CRLF pair counting as
    /// one character.
    ///
    /// At the end of the buffer this succeeds without moving. On malformed
    /// input the bytes looked at stay consumed, and the error names the first
    /// byte of the sequence that is missing or is no continuation byte. Where
    /// the bytes not yet consumed are valid UTF-8 this succeeds and leaves
    /// valid UTF-8 behind, so that stepping on to the end never fails.
    pub fn advance_char(&mut self) -> (outcome: Result<(), Error>)
        ensures
            final(self).buffer() == old(self).buffer(),
            final(self).offset() == char_step(old(self).buffer(), old(self).offset() as int).end,
            outcome == char_step(old(self).buffer(), old(self).offset() as int).outcome,
            !old(self).at_end() ==> old(self).offset() < final(self).offset(),
            !old(self).at_end() && is_continuation(old(self).current()) ==> outcome == Err::<
                (),
                Error,
            >(Error::EncounteredContinuationByte),
            valid_utf8(old(self).rest()) ==> outcome == Ok::<(), Error>(()) && valid_utf8(
                final(self).rest(),
            ),
    {
        proof {
            if !self.at_end() {
                lemma_char_step_bounds(self.buffer(), self.offset() as int);
                if valid_utf8(self.rest()) {
                    lemma_step_over_character(self.buffer(), self.offset() as int);
                }
            }
        }
        let first_byte: u8 = match self.next() {
            Some(byte) => byte,
            None => {
                return Ok(());
            },
        };
        let width: u8 = utf8_char_width(first_byte);
        proof {
            reveal_with_fuel(scan_continuations, 4);
        }
        if width == 0 {
            Err(Error::EncounteredContinuationByte)
        } else if width == 1 {
            if first_byte == CR && self.peek() == Some(LF) {
                self.advance_unchecked();
            }
            Ok(())
        } else if width == 2 {
            self.expect_continuation(Error::Missing2ndOf2, Error::Invalid2ndOf2)
        } else if width == 3 {
            match self.expect_continuation(Error::Missing2ndOf3, Error::Invalid2ndOf3) {
                Err(error) => {
                    return Err(error);
                },
                Ok(()) => {},
            }
            self.expect_continuation(Error::Missing3rdOf3, Error::Invalid3rdOf3)
        } else {
            match self.expect_continuation(Error::Missing2ndOf4, Error::Invalid2ndOf4) {
                Err(error) => {
                    return Err(error);
                },
                Ok(()) => {},
            }
            match self.expect_continuation(Error::Missing3rdOf4, Error::Invalid3rdOf4) {
                Err(error) => {
                    return Err(error);
                },
                Ok(()) => {},
            }
            self.expect_continuation(Error::Missing4thOf4, Error::Invalid4thOf4)
        }
    }
}

} // verus!
