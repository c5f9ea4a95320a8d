//! Fixed-width integers read at the cursor, in either byte order.

use crate::cursor::Cursor;
use vstd::prelude::*;

verus! {

/// The order in which the bytes of an integer stand in the buffer.
#[derive(Copy, Clone, PartialEq, Eq, Structural, Debug)]
pub enum ByteOrder {
    /// The least significant byte comes first.
    LittleEndian,
    /// The most significant byte comes first.
    BigEndian,
}

/// 256 to the power of `exponent`.
pub open spec fn pow256(exponent: nat) -> nat
    decreases exponent,
{
    if exponent == 0 {
        1
    } else {
        256 * pow256((exponent - 1) as nat)
    }
}

/// The number that `bytes` spell with the least significant byte first.
pub open spec fn le_value(bytes: Seq<u8>) -> nat
    decreases bytes.len(),
{
    if bytes.len() == 0 {
        0
    } else {
        bytes[0] as nat + 256 * le_value(bytes.subrange(1, bytes.len() as int))
    }
}

/// The number that `bytes` spell with the most significant byte first.
pub open spec fn be_value(bytes: Seq<u8>) -> nat
    decreases bytes.len(),
{
    if bytes.len() == 0 {
        0
    } else {
        256 * be_value(bytes.subrange(0, bytes.len() - 1)) + bytes[bytes.len() - 1] as nat
    }
}

/// The number that `bytes` spell in the given byte order.
pub open spec fn unsigned_value(bytes: Seq<u8>, order: ByteOrder) -> nat {
    match order {
        ByteOrder::LittleEndian => le_value(bytes),
        ByteOrder::BigEndian => be_value(bytes),
    }
}

/// The signed number that the unsigned `value` stands for in two's
/// complement, among the numbers below `modulus`.
pub open spec fn twos_complement(value: nat, modulus: int) -> int {
    if 2 * value < modulus {
        value as int
    } else {
        value - modulus
    }
}

/// A number spelled with `n` bytes lies below 256 to the power of `n`.
pub proof fn lemma_value_bound(bytes: Seq<u8>, order: ByteOrder)
    ensures
        unsigned_value(bytes, order) < pow256(bytes.len()),
    decreases bytes.len(),
{
    if bytes.len() > 0 {
        lemma_value_bound(bytes.subrange(1, bytes.len() as int), order);
        lemma_value_bound(bytes.subrange(0, bytes.len() - 1), order);
    }
}

/// The powers of 256 grow with the exponent.
pub proof fn lemma_pow256_monotonic(low: nat, high: nat)
    requires
        low <= high,
    ensures
        pow256(low) <= pow256(high),
    decreases high,
{
    if low < high {
        lemma_pow256_monotonic(low, (high - 1) as nat);
    }
}

/// The powers of 256 that bound the integer types.
pub proof fn lemma_pow256_values()
    ensures
        pow256(2) == 0x1_0000,
        pow256(4) == 0x1_0000_0000,
        pow256(8) == 0x1_0000_0000_0000_0000,
        pow256(16) == 0x1_0000_0000_0000_0000_0000_0000_0000_0000int,
{
    reveal_with_fuel(pow256, 5);
    assert(pow256(4) == 0x1_0000_0000);
    assert(pow256(8) == 0x1_0000_0000 * pow256(4));
    assert(pow256(12) == 0x1_0000_0000 * pow256(8));
    assert(pow256(16) == 0x1_0000_0000 * pow256(12));
}

impl<'a> Cursor<'a> {
    /// The `count` bytes that come next.
    pub open spec fn upcoming(&self, count: int) -> Seq<u8> {
        self.buffer().subrange(self.offset() as int, self.offset() + count)
    }

    /// Whether `count` more bytes remain.
    pub open spec fn has_upcoming(&self, count: int) -> bool {
        self.offset() + count <= self.buffer().len()
    }

    /// Reads the unsigned integer that the next `width` bytes spell in the
    /// given byte order, if as many bytes remain. Does not advance.
    pub fn read_unsigned(&self, width: usize, order: ByteOrder) -> (value: Option<u128>)
        requires
            width <= 16,
        ensures
            match value {
                Some(v) => {
                    &&& self.has_upcoming(width as int)
                    &&& v == unsigned_value(self.upcoming(width as int), order)
                    &&& v < pow256(width as nat)
                },
                None => !self.has_upcoming(width as int),
            },
    {
        if self.bytes_remaining() < width {
            return None;
        }
        let ghost bytes = self.upcoming(width as int);
        let mut value: u128 = 0;
        let mut count: usize = 0;
        while count < width
            invariant
                count <= width <= 16,
                self.offset() + width <= self.buffer().len(),
                bytes == self.upcoming(width as int),
                order == ByteOrder::BigEndian ==> value == be_value(
                    bytes.subrange(0, count as int),
                ),
                order == ByteOrder::LittleEndian ==> value == le_value(
                    bytes.subrange(width - count, width as int),
                ),
            decreases width - count,
        {
            let place: usize = match order {
                ByteOrder::BigEndian => count,
                ByteOrder::LittleEndian => width - 1 - count,
            };
            let byte: u8 = self.peek_n_unchecked(place);
            proof {
                lemma_value_bound(bytes.subrange(0, count as int), order);
                lemma_value_bound(bytes.subrange(width - count, width as int), order);
                lemma_pow256_monotonic((count + 1) as nat, 16);
                lemma_pow256_values();
                assert(bytes.subrange(0, count + 1).subrange(0, count as int) == bytes.subrange(
                    0,
                    count as int,
                ));
                assert(bytes.subrange(width - count - 1, width as int).subrange(1, count + 1)
                    == bytes.subrange(width - count, width as int));
            }
            value = value * 256 + byte as u128;
            count += 1;
        }
        proof {
            assert(bytes.subrange(0, width as int) == bytes);
            lemma_value_bound(bytes, order);
        }
        Some(value)
    }
}

/// Reads `raw` as a 16-bit number in two's complement.
pub fn to_i16(raw: u16) -> (value: i16)
    ensures
        value == twos_complement(raw as nat, 0x1_0000),
{
    assert(raw as i16 == if raw < 0x8000 {
        raw as int
    } else {
        raw - 0x1_0000
    }) by (bit_vector);
    #[verifier::truncate]
    (raw as i16)
}

/// Reads `raw` as a 32-bit number in two's complement.
pub fn to_i32(raw: u32) -> (value: i32)
    ensures
        value == twos_complement(raw as nat, 0x1_0000_0000),
{
    assert(raw as i32 == if raw < 0x8000_0000 {
        raw as int
    } else {
        raw - 0x1_0000_0000
    }) by (bit_vector);
    #[verifier::truncate]
    (raw as i32)
}

/// Reads `raw` as a 64-bit number in two's complement.
pub fn to_i64(raw: u64) -> (value: i64)
    ensures
        value == twos_complement(raw as nat, 0x1_0000_0000_0000_0000),
{
    assert(raw as i64 == if raw < 0x8000_0000_0000_0000 {
        raw as int
    } else {
        raw - 0x1_0000_0000_0000_0000
    }) by (bit_vector);
    #[verifier::truncate]
    (raw as i64)
}

/// Reads `raw` as a 128-bit number in two's complement.
pub fn to_i128(raw: u128) -> (value: i128)
    ensures
        value == twos_complement(raw as nat, 0x1_0000_0000_0000_0000_0000_0000_0000_0000int),
{
    assert(raw as i128 == if raw < 0x8000_0000_0000_0000_0000_0000_0000_0000 {
        raw as int
    } else {
        raw - 0x1_0000_0000_0000_0000_0000_0000_0000_0000int
    }) by (bit_vector);
    #[verifier::truncate]
    (raw as i128)
}

} // verus!
