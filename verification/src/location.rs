//! Line and column of a byte offset.
//!
//! Lines and columns are counted from zero. `\n`, `\r` and `\r\n` each end
//! one line. A column is one ASCII byte, one lead byte together with the
//! continuation bytes that directly follow it as far as its bit pattern
//! allows, or one stray byte that belongs to no such group. On text that is
//! not UTF-8 the column is at worst the number of bytes since the last line
//! break.

use crate::characters::lemma_column_counts_characters;
use crate::encoding::{is_continuation, is_continuation_byte, CR, LF};
use vstd::prelude::*;
use vstd::slice::slice_subrange;
use vstd::string::StringSliceAdditionalSpecFns;
use vstd::utf8::{decode_utf8, encode_utf8_valid_utf8, is_char_boundary};

verus! {

/// A byte that ends a line, alone or as half of a CRLF pair.
pub open spec fn is_line_break(byte: u8) -> bool {
    byte == LF || byte == CR
}

/// Whether a line break begins at `at`: any carriage return does, and any
/// line feed that does not directly follow a carriage return.
pub open spec fn begins_line_break(buffer: Seq<u8>, at: int) -> bool {
    buffer[at] == CR || (buffer[at] == LF && (at == 0 || buffer[at - 1] != CR))
}

/// The number of line breaks that begin before `end`.
pub open spec fn line_breaks_before(buffer: Seq<u8>, end: int) -> nat
    decreases end,
{
    if end <= 0 {
        0
    } else if begins_line_break(buffer, end - 1) {
        line_breaks_before(buffer, end - 1) + 1
    } else {
        line_breaks_before(buffer, end - 1)
    }
}

/// The place behind the last line break byte before `offset`, or zero where
/// there is none.
pub open spec fn line_start(buffer: Seq<u8>, offset: int) -> int
    decreases offset,
{
    if offset <= 0 {
        0
    } else if is_line_break(buffer[offset - 1]) {
        offset
    } else {
        line_start(buffer, offset - 1)
    }
}

/// The byte `back` places before `last`, if the buffer has one there.
pub open spec fn byte_before(buffer: Seq<u8>, last: int, back: int) -> Option<u8> {
    if 0 <= last - back < buffer.len() {
        Some(buffer[last - back])
    } else {
        None
    }
}

/// The byte is there and its bits from the top down to those of `floor` are
/// all set.
pub open spec fn is_lead_from(byte: Option<u8>, floor: u8) -> bool {
    byte matches Some(b) && b >= floor
}

/// The byte is there and is a continuation byte.
pub open spec fn is_continuation_at(byte: Option<u8>) -> bool {
    byte matches Some(b) && is_continuation(b)
}

/// The length of the group that ends with the byte at `last`, judged by the
/// up to three bytes before it.
///
/// The group has two bytes where the byte before begins `11`, three where a
/// continuation byte stands before and `111` begins the byte before that, and
/// four where two continuation bytes stand before and `1111` begins the byte
/// before them. Otherwise the byte at `last` stands alone.
pub open spec fn trailing_len(buffer: Seq<u8>, last: int) -> int {
    let first = byte_before(buffer, last, 1);
    let second = byte_before(buffer, last, 2);
    let third = byte_before(buffer, last, 3);
    if is_lead_from(first, 0xC0) {
        2
    } else if !is_continuation_at(first) {
        1
    } else if is_lead_from(second, 0xE0) {
        3
    } else if !is_continuation_at(second) {
        1
    } else if is_lead_from(third, 0xF0) {
        4
    } else {
        1
    }
}

/// The number of bytes that make up the column ending with the byte at
/// `last`: one unless that byte is a continuation byte.
pub open spec fn column_len(buffer: Seq<u8>, last: int) -> int {
    if is_continuation(buffer[last]) {
        trailing_len(buffer, last)
    } else {
        1
    }
}

/// The number of columns between `start` and `end`, counted backwards from
/// `end`.
pub open spec fn columns_between(buffer: Seq<u8>, start: int, end: int) -> nat
    decreases end,
{
    if end <= start || end <= 0 {
        0
    } else {
        columns_between(buffer, start, end - column_len(buffer, end - 1)) + 1
    }
}

/// The line of `offset`: the number of line breaks that begin before it.
pub open spec fn line_of(buffer: Seq<u8>, offset: int) -> nat {
    line_breaks_before(buffer, offset)
}

/// The column of `offset`: the number of columns since the start of its line.
pub open spec fn column_of(buffer: Seq<u8>, offset: int) -> nat {
    columns_between(buffer, line_start(buffer, offset), offset)
}

/// The mask that keeps the `bits` highest bits of a byte, for two to four
/// bits.
pub open spec fn top_bits(bits: int) -> u8 {
    if bits == 2 {
        0xC0
    } else if bits == 3 {
        0xE0
    } else {
        0xF0
    }
}

/// The start of a line lies between zero and the offset, no line break byte
/// stands between it and the offset, and one stands directly before it
/// unless it is zero.
pub proof fn lemma_line_start(buffer: Seq<u8>, offset: int)
    requires
        0 <= offset <= buffer.len(),
    ensures
        0 <= line_start(buffer, offset) <= offset,
        forall|i: int|
            line_start(buffer, offset) <= i < offset ==> !is_line_break(#[trigger] buffer[i]),
        line_start(buffer, offset) > 0 ==> is_line_break(buffer[line_start(buffer, offset) - 1]),
    decreases offset,
{
    if offset > 0 && !is_line_break(buffer[offset - 1]) {
        lemma_line_start(buffer, offset - 1);
    }
}

/// A stretch without line break bytes does not move the start of the line.
pub proof fn lemma_line_start_unbroken(buffer: Seq<u8>, from: int, to: int)
    requires
        0 <= from <= to <= buffer.len(),
        forall|i: int| from <= i < to ==> !is_line_break(#[trigger] buffer[i]),
    ensures
        line_start(buffer, to) == line_start(buffer, from),
    decreases to - from,
{
    if from < to {
        lemma_line_start_unbroken(buffer, from, to - 1);
    }
}

/// A stretch without line break bytes adds no line break.
pub proof fn lemma_line_breaks_unbroken(buffer: Seq<u8>, from: int, to: int)
    requires
        0 <= from <= to <= buffer.len(),
        forall|i: int| from <= i < to ==> !is_line_break(#[trigger] buffer[i]),
    ensures
        line_breaks_before(buffer, to) == line_breaks_before(buffer, from),
    decreases to - from,
{
    if from < to {
        lemma_line_breaks_unbroken(buffer, from, to - 1);
    }
}

/// The line breaks before `end` are decided by the bytes before `end`.
pub proof fn lemma_line_breaks_of_prefix(first: Seq<u8>, second: Seq<u8>, end: int)
    requires
        0 <= end <= first.len(),
        end <= second.len(),
        forall|i: int| 0 <= i < end ==> first[i] == second[i],
    ensures
        line_breaks_before(first, end) == line_breaks_before(second, end),
    decreases end,
{
    if end > 0 {
        lemma_line_breaks_of_prefix(first, second, end - 1);
    }
}

/// The start of the line of `offset` is decided by the bytes before `offset`.
pub proof fn lemma_line_start_of_prefix(first: Seq<u8>, second: Seq<u8>, offset: int)
    requires
        0 <= offset <= first.len(),
        offset <= second.len(),
        forall|i: int| 0 <= i < offset ==> first[i] == second[i],
    ensures
        line_start(first, offset) == line_start(second, offset),
    decreases offset,
{
    if offset > 0 {
        lemma_line_start_of_prefix(first, second, offset - 1);
    }
}

/// The columns before `end` are decided by the bytes before `end`.
pub proof fn lemma_columns_of_prefix(first: Seq<u8>, second: Seq<u8>, start: int, end: int)
    requires
        0 <= end <= first.len(),
        end <= second.len(),
        forall|i: int| 0 <= i < end ==> first[i] == second[i],
    ensures
        columns_between(first, start, end) == columns_between(second, start, end),
    decreases end,
{
    if end > start && end > 0 {
        lemma_columns_of_prefix(first, second, start, end - column_len(first, end - 1));
    }
}

/// Line and column of an offset are decided by the bytes before it: two
/// buffers that agree up to `offset` give the same location. So resolving an
/// offset, the end of the buffer included, is the same as resolving the end
/// of the prefix that ends there.
pub proof fn lemma_location_of_prefix(first: Seq<u8>, second: Seq<u8>, offset: int)
    requires
        0 <= offset <= first.len(),
        offset <= second.len(),
        forall|i: int| 0 <= i < offset ==> first[i] == second[i],
    ensures
        line_of(first, offset) == line_of(second, offset),
        column_of(first, offset) == column_of(second, offset),
{
    lemma_line_breaks_of_prefix(first, second, offset);
    lemma_line_start_of_prefix(first, second, offset);
    lemma_columns_of_prefix(first, second, line_start(first, offset), offset);
}

/// The line of an offset is the number of line breaks in the prefix that ends
/// at the start of its line: between that start and the offset no line break
/// begins.
pub proof fn lemma_line_counts_to_line_start(buffer: Seq<u8>, offset: int)
    requires
        0 <= offset <= buffer.len(),
    ensures
        line_of(buffer, offset) == line_breaks_before(buffer, line_start(buffer, offset)),
{
    lemma_line_start(buffer, offset);
    lemma_line_breaks_unbroken(buffer, line_start(buffer, offset), offset);
}

/// Keeps the `N` highest bits of the byte that stands `N - 1` places before
/// `index`, for `N` from two to four. There is no such byte where `index` is
/// smaller than `N - 1` or the place lies behind the end of `bytes`.
pub fn mask_utf8_byte<const N: u8>(bytes: &[u8], index: usize) -> (masked: Option<u8>)
    requires
        2 <= N <= 4,
    ensures
        masked == match byte_before(bytes@, index as int, N - 1) {
            Some(byte) => Some(byte & top_bits(N as int)),
            None => None,
        },
{
    let back: usize = (N - 1) as usize;
    let mask: u8 = if N == 2 {
        0xC0
    } else if N == 3 {
        0xE0
    } else {
        0xF0
    };
    if index < back {
        None
    } else if index - back < bytes.len() {
        Some(bytes[index - back] & mask)
    } else {
        None
    }
}

/// Moves `index`, the place of the last byte of a group, back to the place
/// of the group's first byte.
pub fn compute_utf8_bytes_len(bytes: &[u8], index: &mut usize)
    ensures
        *final(index) == *old(index) - (trailing_len(bytes@, *old(index) as int) - 1),
{
    let ghost first = byte_before(bytes@, *index as int, 1);
    let ghost second = byte_before(bytes@, *index as int, 2);
    let ghost third = byte_before(bytes@, *index as int, 3);
    match mask_utf8_byte::<2>(bytes, *index) {
        Some(masked) => {
            proof {
                let byte = first->0;
                assert((byte & 0xC0 == 0xC0) == (byte >= 0xC0)) by (bit_vector);
                assert((byte & 0xC0 == 0x80) == (0x80 <= byte <= 0xBF)) by (bit_vector);
            }
            if masked == 0xC0 {
                *index = *index - 1;
                return ;
            } else if masked != 0x80 {
                return ;
            }
        },
        None => {
            return ;
        },
    }
    match mask_utf8_byte::<3>(bytes, *index) {
        Some(masked) => {
            proof {
                let byte = second->0;
                assert((byte & 0xE0 == 0xE0) == (byte >= 0xE0)) by (bit_vector);
                assert((byte & 0xE0 == 0x80 || byte & 0xE0 == 0xA0) == (0x80 <= byte <= 0xBF))
                    by (bit_vector);
            }
            if masked == 0xE0 {
                *index = *index - 2;
                return ;
            } else if masked != 0x80 && masked != 0xA0 {
                return ;
            }
        },
        None => {
            return ;
        },
    }
    match mask_utf8_byte::<4>(bytes, *index) {
        Some(masked) => {
            proof {
                let byte = third->0;
                assert((byte & 0xF0 == 0xF0) == (byte >= 0xF0)) by (bit_vector);
            }
            if masked == 0xF0 {
                *index = *index - 3;
            }
        },
        None => {},
    }
}

/// Counts `\n`, `\r` and `\r\n`, each as one line break.
pub fn count_linebreaks(bytes: &[u8]) -> (count: usize)
    ensures
        count == line_breaks_before(bytes@, bytes@.len() as int),
{
    let mut count: usize = 0;
    let mut index: usize = 0;
    while index < bytes.len()
        invariant
            index <= bytes@.len(),
            count <= index,
            count == line_breaks_before(bytes@, index as int),
            0 < index < bytes@.len() && bytes@[index - 1] == CR ==> bytes@[index as int] != LF,
        decreases bytes@.len() - index,
    {
        let byte: u8 = bytes[index];
        if byte == CR {
            count += 1;
            if index + 1 < bytes.len() && bytes[index + 1] == LF {
                assert(line_breaks_before(bytes@, index + 2) == line_breaks_before(
                    bytes@,
                    index + 1,
                ));
                index += 2;
            } else {
                index += 1;
            }
        } else if byte == LF {
            count += 1;
            index += 1;
        } else {
            index += 1;
        }
    }
    count
}

/// Computes the line and the column of the byte offset `offset` in `bytes`.
pub fn compute_location(bytes: &[u8], offset: usize) -> (location: (usize, usize))
    requires
        offset <= bytes@.len(),
    ensures
        location.0 == line_of(bytes@, offset as int),
        location.1 == column_of(bytes@, offset as int),
{
    let ghost start = line_start(bytes@, offset as int);
    let mut index: usize = offset;
    let mut inline_offset: usize = 0;
    proof {
        lemma_line_start(bytes@, offset as int);
    }
    while index > 0
        invariant
            start <= index <= offset <= bytes@.len(),
            start == line_start(bytes@, offset as int),
            start == line_start(bytes@, index as int),
            inline_offset <= offset - index,
            inline_offset + columns_between(bytes@, start, index as int) == columns_between(
                bytes@,
                start,
                offset as int,
            ),
        decreases index,
    {
        let mut last: usize = index - 1;
        let byte: u8 = bytes[last];
        if byte == LF || byte == CR {
            let prefix = slice_subrange(bytes, 0, index);
            let line: usize = count_linebreaks(prefix);
            proof {
                lemma_line_start(bytes@, offset as int);
                lemma_line_breaks_of_prefix(prefix@, bytes@, index as int);
                lemma_line_breaks_unbroken(bytes@, index as int, offset as int);
            }
            return (line, inline_offset);
        }
        if is_continuation_byte(byte) {
            compute_utf8_bytes_len(bytes, &mut last);
        }
        proof {
            lemma_line_start_unbroken(bytes@, last as int, index as int);
            lemma_line_start(bytes@, last as int);
        }
        inline_offset += 1;
        index = last;
    }
    proof {
        lemma_line_breaks_unbroken(bytes@, 0, offset as int);
    }
    (0, inline_offset)
}

/// Calculates the line and the column of the byte offset `byte_offset` in
/// `source`. A CRLF sequence is one line break.
///
/// Lines and columns are counted from zero. Where the offset lies between
/// two characters, the column is the number of characters between the start
/// of the line and the offset.
pub fn get_lines_and_columns(source: &str, byte_offset: usize) -> (location: (usize, usize))
    requires
        byte_offset <= source.spec_bytes().len(),
    ensures
        location.0 == line_of(source.spec_bytes(), byte_offset as int),
        location.1 == column_of(source.spec_bytes(), byte_offset as int),
        is_char_boundary(source.spec_bytes(), byte_offset as int) ==> location.1 == decode_utf8(
            source.spec_bytes().subrange(
                line_start(source.spec_bytes(), byte_offset as int),
                byte_offset as int,
            ),
        ).len(),
{
    proof {
        encode_utf8_valid_utf8(source@);
        if is_char_boundary(source.spec_bytes(), byte_offset as int) {
            lemma_column_counts_characters(source.spec_bytes(), byte_offset as int);
        }
    }
    compute_location(source.as_bytes(), byte_offset)
}

} // verus!
