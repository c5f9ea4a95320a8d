//! On valid UTF-8 a column is a character.
//!
//! The column of an offset is counted backwards, byte group by byte group,
//! from bit patterns alone. This module proves that where the line up to the
//! offset is valid UTF-8 the groups are exactly the encoded characters, so
//! that the column is the number of characters since the start of the line.

use crate::encoding::{char_width, is_continuation};
use crate::location::{
    column_len, column_of, columns_between, is_line_break, lemma_line_start, line_start,
};
use vstd::prelude::*;
use vstd::utf8::{
    decode_utf8, is_char_boundary, is_char_boundary_iff_not_is_continuation_byte,
    length_of_first_scalar, length_of_last_scalar, partial_valid_partial_invalid_utf8,
    partial_valid_utf8_extend, pop_first_scalar, valid_first_scalar, valid_utf8, valid_utf8_split,
};

verus! {

/// The last character of valid UTF-8: its lead byte announces its length, the
/// bytes behind the lead byte are continuation bytes, and what stands before
/// it is valid UTF-8 with one character less.
pub proof fn lemma_last_character(text: Seq<u8>)
    requires
        valid_utf8(text),
        text.len() > 0,
    ensures
        1 <= length_of_last_scalar(text) <= text.len(),
        char_width(text[text.len() - length_of_last_scalar(text)]) == length_of_last_scalar(text),
        forall|i: int|
            text.len() - length_of_last_scalar(text) < i < text.len() ==> is_continuation(
                #[trigger] text[i],
            ),
        valid_utf8(text.subrange(0, text.len() - length_of_last_scalar(text))),
        decode_utf8(text).len() == decode_utf8(
            text.subrange(0, text.len() - length_of_last_scalar(text)),
        ).len() + 1,
    decreases text.len(),
{
    let len = text.len() as int;
    let first = length_of_first_scalar(text);
    let rest = pop_first_scalar(text);
    assert(valid_first_scalar(text) && valid_utf8(rest));
    if rest.len() == 0 {
        assert(first == len);
        assert(text.subrange(0, 0).len() == 0);
        assert(decode_utf8(text.subrange(0, 0)).len() == 0);
        assert(decode_utf8(rest).len() == 0);
    } else {
        lemma_last_character(rest);
        let last = length_of_last_scalar(rest);
        assert forall|i: int| 0 <= i < rest.len() implies rest[i] == text[first + i] by {}
        assert(length_of_last_scalar(text) == last);
        let before = text.subrange(0, len - last);
        assert forall|i: int| 0 <= i < first implies before[i] == text[i] by {}
        assert(valid_first_scalar(before));
        assert(length_of_first_scalar(before) == first);
        assert(pop_first_scalar(before) == rest.subrange(0, rest.len() - last));
        assert(valid_utf8(before));
    }
}

/// Between two places that enclose valid UTF-8, the columns are the
/// characters.
pub proof fn lemma_columns_are_characters(buffer: Seq<u8>, start: int, end: int)
    requires
        0 <= start <= end <= buffer.len(),
        valid_utf8(buffer.subrange(start, end)),
    ensures
        columns_between(buffer, start, end) == decode_utf8(buffer.subrange(start, end)).len(),
    decreases end - start,
{
    let text = buffer.subrange(start, end);
    if start < end {
        lemma_last_character(text);
        let last = length_of_last_scalar(text);
        assert(buffer.subrange(start, end - last) == text.subrange(0, text.len() - last));
        lemma_columns_are_characters(buffer, start, end - last);
    }
}

/// In valid UTF-8 the start of a line is a character boundary, and so the
/// line up to any character boundary is valid UTF-8.
pub proof fn lemma_line_so_far_is_valid(text: Seq<u8>, offset: int)
    requires
        valid_utf8(text),
        0 <= offset <= text.len(),
        is_char_boundary(text, offset),
    ensures
        valid_utf8(text.subrange(line_start(text, offset), offset)),
{
    let start = line_start(text, offset);
    let upto = text.subrange(0, offset);
    lemma_line_start(text, offset);
    valid_utf8_split(text, offset);
    if start > 0 {
        is_char_boundary_iff_not_is_continuation_byte(text, start - 1);
        valid_utf8_split(text, start - 1);
        partial_valid_utf8_extend(text, start - 1);
    }
    assert(upto.subrange(0, start) == text.subrange(0, start));
    assert(upto.subrange(start, upto.len() as int) == text.subrange(start, offset));
    if !valid_utf8(text.subrange(start, offset)) {
        partial_valid_partial_invalid_utf8(upto, start);
    }
}

/// In valid UTF-8 the column of a character boundary is the number of
/// characters between the start of its line and the boundary.
pub proof fn lemma_column_counts_characters(text: Seq<u8>, offset: int)
    requires
        valid_utf8(text),
        0 <= offset <= text.len(),
        is_char_boundary(text, offset),
    ensures
        column_of(text, offset) == decode_utf8(
            text.subrange(line_start(text, offset), offset),
        ).len(),
{
    lemma_line_start(text, offset);
    lemma_line_so_far_is_valid(text, offset);
    lemma_columns_are_characters(text, line_start(text, offset), offset);
}

} // verus!
