//! The ways in which a UTF-8 sequence can be malformed.

use vstd::prelude::*;

verus! {

/// Why a cursor could not step over a character.
///
/// A sequence of two to four bytes names each byte after the lead byte by its
/// place in the sequence. Such a byte is *missing* when the input ends before
/// it, and *invalid* when it is there but is not of the form `10xxxxxx`.
#[derive(Ord, PartialOrd, Eq, PartialEq, Structural, Copy, Clone, Debug)]
pub enum Error {
    /// The byte at which a character should begin cannot begin one.
    EncounteredContinuationByte,
    /// The input ended before the second byte of a two byte sequence.
    Missing2ndOf2,
    /// The second byte of a two byte sequence is not a continuation byte.
    Invalid2ndOf2,
    /// The input ended before the second byte of a three byte sequence.
    Missing2ndOf3,
    /// The second byte of a three byte sequence is not a continuation byte.
    Invalid2ndOf3,
    /// The input ended before the third byte of a three byte sequence.
    Missing3rdOf3,
    /// The third byte of a three byte sequence is not a continuation byte.
    Invalid3rdOf3,
    /// The input ended before the second byte of a four byte sequence.
    Missing2ndOf4,
    /// The second byte of a four byte sequence is not a continuation byte.
    Invalid2ndOf4,
    /// The input ended before the third byte of a four byte sequence.
    Missing3rdOf4,
    /// The third byte of a four byte sequence is not a continuation byte.
    Invalid3rdOf4,
    /// The input ended before the fourth byte of a four byte sequence.
    Missing4thOf4,
    /// The fourth byte of a four byte sequence is not a continuation byte.
    Invalid4thOf4,
}

/// The error for a sequence of `width` bytes whose byte number `place`,
/// counted from one, lies beyond the end of the input.
pub open spec fn missing_error(place: int, width: int) -> Error {
    if width == 2 {
        Error::Missing2ndOf2
    } else if width == 3 {
        if place == 2 {
            Error::Missing2ndOf3
        } else {
            Error::Missing3rdOf3
        }
    } else if place == 2 {
        Error::Missing2ndOf4
    } else if place == 3 {
        Error::Missing3rdOf4
    } else {
        Error::Missing4thOf4
    }
}

/// The error for a sequence of `width` bytes whose byte number `place`,
/// counted from one, is present but is no continuation byte.
pub open spec fn invalid_error(place: int, width: int) -> Error {
    if width == 2 {
        Error::Invalid2ndOf2
    } else if width == 3 {
        if place == 2 {
            Error::Invalid2ndOf3
        } else {
            Error::Invalid3rdOf3
        }
    } else if place == 2 {
        Error::Invalid2ndOf4
    } else if place == 3 {
        Error::Invalid3rdOf4
    } else {
        Error::Invalid4thOf4
    }
}

} // verus!
