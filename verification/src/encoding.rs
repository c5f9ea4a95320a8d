//! Byte classes of UTF-8 and the model of one step over a character.
//!
//! Everything here speaks of a buffer as a `Seq<u8>` and of places in it as
//! integers; the cursor's contracts are stated over these functions.

use crate::error::{invalid_error, missing_error, Error};
use vstd::prelude::*;
use vstd::utf8::{
    encode_utf8, encode_utf8_valid_utf8, length_of_first_scalar, pop_first_scalar,
    valid_first_scalar, valid_utf8,
};

verus! {

/// Line feed.
pub const LF: u8 = 0x0A;

/// Carriage return.
pub const CR: u8 = 0x0D;

/// A byte of the form `10xxxxxx`, which only ever follows a lead byte.
pub open spec fn is_continuation(byte: u8) -> bool {
    0x80 <= byte <= 0xBF
}

/// The length of the sequence that `byte` announces as a lead byte: one for
/// ASCII, two to four for `110xxxxx`, `1110xxxx` and `11110xxx`, and zero for
/// a byte that cannot begin a character.
pub open spec fn char_width(byte: u8) -> int {
    if byte <= 0x7F {
        1
    } else if byte <= 0xBF {
        0
    } else if byte <= 0xDF {
        2
    } else if byte <= 0xEF {
        3
    } else if byte <= 0xF7 {
        4
    } else {
        0
    }
}

/// Space, tab, line feed, vertical tab, form feed or carriage return.
pub open spec fn is_whitespace(byte: u8) -> bool {
    byte == 0x20 || byte == 0x09 || byte == 0x0A || byte == 0x0B || byte == 0x0C || byte == 0x0D
}

/// How many bytes one normalized read takes at `at`: two for a carriage
/// return directly followed by a line feed, one for any other byte, none at
/// the end.
pub open spec fn normalized_len(buffer: Seq<u8>, at: int) -> int {
    if at >= buffer.len() {
        0
    } else if buffer[at] == CR && at + 1 < buffer.len() && buffer[at + 1] == LF {
        2
    } else {
        1
    }
}

/// The byte that a normalized read at `at` hands out: a line feed in place of
/// a carriage return, any other byte as it is.
pub open spec fn normalized_byte(buffer: Seq<u8>, at: int) -> u8 {
    if buffer[at] == CR {
        LF
    } else {
        buffer[at]
    }
}

/// Where a step stops and how it ends.
pub struct Step {
    /// The place of the first byte that the step has not consumed.
    pub end: int,
    /// Success, or the first defect found.
    pub outcome: Result<(), Error>,
}

/// Reads the bytes number `place` to `width` of a sequence of `width` bytes,
/// the first of them expected at `at`.
///
/// Every byte looked at is consumed. The scan stops at the end of the input
/// (the byte is missing, nothing more is consumed) or behind the first byte
/// that is no continuation byte (the byte is invalid; read normalized, a
/// carriage return takes a directly following line feed with it).
pub open spec fn scan_continuations(buffer: Seq<u8>, at: int, place: int, width: int) -> Step
    decreases width - place + 1,
{
    if place > width {
        Step { end: at, outcome: Ok(()) }
    } else if at >= buffer.len() {
        Step { end: at, outcome: Err(missing_error(place, width)) }
    } else if is_continuation(buffer[at]) {
        scan_continuations(buffer, at + 1, place + 1, width)
    } else {
        Step { end: at + normalized_len(buffer, at), outcome: Err(invalid_error(place, width)) }
    }
}

/// One step over the character that begins at `at`.
///
/// At the end of the input the step succeeds without moving. A lead byte that
/// announces no sequence is consumed and reported. An ASCII byte is consumed,
/// together with the line feed that directly follows a carriage return. A
/// longer sequence is consumed as far as it is well formed.
pub open spec fn char_step(buffer: Seq<u8>, at: int) -> Step {
    if at >= buffer.len() {
        Step { end: at, outcome: Ok(()) }
    } else if char_width(buffer[at]) == 0 {
        Step { end: at + 1, outcome: Err(Error::EncounteredContinuationByte) }
    } else if char_width(buffer[at]) == 1 {
        Step { end: at + normalized_len(buffer, at), outcome: Ok(()) }
    } else {
        scan_continuations(buffer, at + 1, 2, char_width(buffer[at]))
    }
}

/// What stepping from `at` to the end of the input comes to: the end of the
/// input and success where every step succeeds, else the first step that
/// fails.
pub open spec fn walk(buffer: Seq<u8>, at: int) -> Step
    decreases buffer.len() - at,
{
    if at >= buffer.len() {
        Step { end: at, outcome: Ok(()) }
    } else {
        let step = char_step(buffer, at);
        if step.outcome is Err {
            step
        } else {
            proof {
                lemma_char_step_bounds(buffer, at);
            }
            walk(buffer, step.end)
        }
    }
}

/// A step from within the buffer consumes at least one byte and never leaves
/// the buffer.
pub proof fn lemma_char_step_bounds(buffer: Seq<u8>, at: int)
    requires
        at < buffer.len(),
    ensures
        at < char_step(buffer, at).end <= buffer.len(),
{
    reveal_with_fuel(scan_continuations, 4);
}

/// Stepping through valid UTF-8 never fails and ends at the end of the
/// buffer: the steps consume every byte, each byte once.
pub proof fn lemma_walk_valid_utf8(buffer: Seq<u8>)
    requires
        valid_utf8(buffer),
    ensures
        walk(buffer, 0) == (Step { end: buffer.len() as int, outcome: Ok(()) }),
{
    assert(buffer.subrange(0, buffer.len() as int) == buffer);
    lemma_walk_valid_suffix(buffer, 0);
}

/// Stepping through the UTF-8 encoding of any text never fails and ends at
/// the end of the encoding.
pub proof fn lemma_walk_encoded_text(text: Seq<char>)
    ensures
        walk(encode_utf8(text), 0) == (Step {
            end: encode_utf8(text).len() as int,
            outcome: Ok(()),
        }),
{
    encode_utf8_valid_utf8(text);
    lemma_walk_valid_utf8(encode_utf8(text));
}

/// A step from a place behind which the buffer is valid UTF-8 succeeds. It
/// takes exactly the character that begins there, or a whole CRLF pair, and
/// what lies behind is valid UTF-8 again.
pub proof fn lemma_step_over_character(buffer: Seq<u8>, at: int)
    requires
        0 <= at < buffer.len(),
        valid_utf8(buffer.subrange(at, buffer.len() as int)),
    ensures
        char_step(buffer, at).outcome == Ok::<(), Error>(()),
        char_step(buffer, at).end == at + if normalized_len(buffer, at) == 2 {
            2
        } else {
            length_of_first_scalar(buffer.subrange(at, buffer.len() as int))
        },
        char_step(buffer, at).end <= buffer.len(),
        valid_utf8(buffer.subrange(char_step(buffer, at).end, buffer.len() as int)),
{
    let end = buffer.len() as int;
    let rest = buffer.subrange(at, end);
    let width = char_width(buffer[at]);
    reveal_with_fuel(scan_continuations, 4);
    assert(valid_first_scalar(rest) && valid_utf8(pop_first_scalar(rest)));
    assert(pop_first_scalar(rest) == buffer.subrange(at + width, end));
    if normalized_len(buffer, at) == 2 {
        let after = buffer.subrange(at + 1, end);
        assert(pop_first_scalar(after) == buffer.subrange(at + 2, end));
    }
}

/// Stepping from a place behind which the buffer is valid UTF-8 never fails
/// and ends at the end of the buffer.
pub proof fn lemma_walk_valid_suffix(buffer: Seq<u8>, at: int)
    requires
        0 <= at <= buffer.len(),
        valid_utf8(buffer.subrange(at, buffer.len() as int)),
    ensures
        walk(buffer, at) == (Step { end: buffer.len() as int, outcome: Ok(()) }),
    decreases buffer.len() - at,
{
    if at < buffer.len() {
        lemma_step_over_character(buffer, at);
        lemma_walk_valid_suffix(buffer, char_step(buffer, at).end);
    }
}

/// A buffer that holds nothing but a lead byte and fewer continuation bytes
/// than the lead byte announces: the step consumes all of it and reports the
/// first byte that is not there as missing.
pub proof fn lemma_truncated_sequence(buffer: Seq<u8>)
    requires
        1 <= buffer.len() < char_width(buffer[0]),
        forall|i: int| 1 <= i < buffer.len() ==> is_continuation(#[trigger] buffer[i]),
    ensures
        char_step(buffer, 0) == (Step {
            end: buffer.len() as int,
            outcome: Err(missing_error(buffer.len() as int + 1, char_width(buffer[0]))),
        }),
{
    reveal_with_fuel(scan_continuations, 4);
}

/// A byte that cannot begin a character, standing where one should begin:
/// the step consumes it and reports it.
pub proof fn lemma_stray_continuation(buffer: Seq<u8>, at: int)
    requires
        0 <= at < buffer.len(),
        is_continuation(buffer[at]),
    ensures
        char_step(buffer, at) == (Step {
            end: at + 1,
            outcome: Err(Error::EncounteredContinuationByte),
        }),
{
}

/// The length that each byte announces as a lead byte, by the byte's value.
pub const UTF8_CHAR_WIDTH: [u8; 256] = [
    // 1  2  3  4  5  6  7  8  9  A  B  C  D  E  F
    1, 1, 1, 1, 1, 1, 1, 1, 1, 1, 1, 1, 1, 1, 1, 1, // 0
    1, 1, 1, 1, 1, 1, 1, 1, 1, 1, 1, 1, 1, 1, 1, 1, // 1
    1, 1, 1, 1, 1, 1, 1, 1, 1, 1, 1, 1, 1, 1, 1, 1, // 2
    1, 1, 1, 1, 1, 1, 1, 1, 1, 1, 1, 1, 1, 1, 1, 1, // 3
    1, 1, 1, 1, 1, 1, 1, 1, 1, 1, 1, 1, 1, 1, 1, 1, // 4
    1, 1, 1, 1, 1, 1, 1, 1, 1, 1, 1, 1, 1, 1, 1, 1, // 5
    1, 1, 1, 1, 1, 1, 1, 1, 1, 1, 1, 1, 1, 1, 1, 1, // 6
    1, 1, 1, 1, 1, 1, 1, 1, 1, 1, 1, 1, 1, 1, 1, 1, // 7
    0, 0, 0, 0, 0, 0, 0, 0, 0, 0, 0, 0, 0, 0, 0, 0, // 8
    0, 0, 0, 0, 0, 0, 0, 0, 0, 0, 0, 0, 0, 0, 0, 0, // 9
    0, 0, 0, 0, 0, 0, 0, 0, 0, 0, 0, 0, 0, 0, 0, 0, // A
    0, 0, 0, 0, 0, 0, 0, 0, 0, 0, 0, 0, 0, 0, 0, 0, // B
    2, 2, 2, 2, 2, 2, 2, 2, 2, 2, 2, 2, 2, 2, 2, 2, // C
    2, 2, 2, 2, 2, 2, 2, 2, 2, 2, 2, 2, 2, 2, 2, 2, // D
    3, 3, 3, 3, 3, 3, 3, 3, 3, 3, 3, 3, 3, 3, 3, 3, // E
    4, 4, 4, 4, 4, 4, 4, 4, 0, 0, 0, 0, 0, 0, 0, 0, // F
];

/// Classifies `byte` as a lead byte.
pub fn utf8_char_width(byte: u8) -> (width: u8)
    ensures
        width == char_width(byte),
{
    UTF8_CHAR_WIDTH[byte as usize]
}

/// Tells whether `byte` has the form `10xxxxxx`.
pub fn is_continuation_byte(byte: u8) -> (yes: bool)
    ensures
        yes == is_continuation(byte),
{
    proof {
        assert((byte & 0xC0 == 0x80) == (0x80 <= byte <= 0xBF)) by (bit_vector);
    }
    byte & 0xC0 == 0x80
}

/// Tells whether `byte` is ASCII whitespace.
pub fn is_ascii_whitespace(byte: u8) -> (yes: bool)
    ensures
        yes == is_whitespace(byte),
{
    byte == 0x20 || byte == 0x09 || byte == 0x0A || byte == 0x0B || byte == 0x0C || byte == 0x0D
}

} // verus!
