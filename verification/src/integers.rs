//! The integer types read at the cursor: sixteen to 128 bits, signed and
//! unsigned, little-endian and big-endian.
//!
//! A `read_` method leaves the cursor where it is. A `next_` method for a
//! little-endian integer advances past the integer that it returns; one for a
//! big-endian integer returns the integer and leaves the cursor where it is.

use crate::cursor::Cursor;
use crate::numeric::{
    be_value, le_value, lemma_pow256_values, to_i128, to_i16, to_i32, to_i64, twos_complement,
    ByteOrder,
};
use vstd::prelude::*;

verus! {

impl<'a> Cursor<'a> {
    /// Reads a little-endian `u16`, if two bytes remain. Does not advance.
    pub fn read_u16_le(&self) -> (value: Option<u16>)
        ensures
            match value {
                Some(v) => {
                    &&& self.has_upcoming(2)
                    &&& v == le_value(self.upcoming(2))
                },
                None => !self.has_upcoming(2),
            },
    {
        match self.read_unsigned(2, ByteOrder::LittleEndian) {
            Some(raw) => {
                proof {
                    lemma_pow256_values();
                }
                Some(raw as u16)
            },
            None => None,
        }
    }

    /// Reads a big-endian `u16`, if two bytes remain. Does not advance.
    pub fn read_u16_be(&self) -> (value: Option<u16>)
        ensures
            match value {
                Some(v) => {
                    &&& self.has_upcoming(2)
                    &&& v == be_value(self.upcoming(2))
                },
                None => !self.has_upcoming(2),
            },
    {
        match self.read_unsigned(2, ByteOrder::BigEndian) {
            Some(raw) => {
                proof {
                    lemma_pow256_values();
                }
                Some(raw as u16)
            },
            None => None,
        }
    }

    /// Reads a little-endian `u16` and advances past it, if two bytes
    /// remain.
    pub fn next_u16_le(&mut self) -> (value: Option<u16>)
        ensures
            final(self).buffer() == old(self).buffer(),
            match value {
                Some(v) => {
                    &&& old(self).has_upcoming(2)
                    &&& v == le_value(old(self).upcoming(2))
                    &&& final(self).offset() == old(self).offset() + 2
                },
                None => {
                    &&& !old(self).has_upcoming(2)
                    &&& final(self).offset() == old(self).offset()
                },
            },
    {
        let value: Option<u16> = self.read_u16_le();
        if value.is_some() {
            self.advance_n_unchecked(2);
        }
        value
    }

    /// Reads a big-endian `u16`, if two bytes remain. Does not advance.
    pub fn next_u16_be(&self) -> (value: Option<u16>)
        ensures
            match value {
                Some(v) => {
                    &&& self.has_upcoming(2)
                    &&& v == be_value(self.upcoming(2))
                },
                None => !self.has_upcoming(2),
            },
    {
        self.read_u16_be()
    }

    /// Reads a little-endian `i16`, if two bytes remain. Does not advance.
    pub fn read_i16_le(&self) -> (value: Option<i16>)
        ensures
            match value {
                Some(v) => {
                    &&& self.has_upcoming(2)
                    &&& v == twos_complement(le_value(self.upcoming(2)), 0x1_0000)
                },
                None => !self.has_upcoming(2),
            },
    {
        match self.read_unsigned(2, ByteOrder::LittleEndian) {
            Some(raw) => {
                proof {
                    lemma_pow256_values();
                }
                Some(to_i16(raw as u16))
            },
            None => None,
        }
    }

    /// Reads a big-endian `i16`, if two bytes remain. Does not advance.
    pub fn read_i16_be(&self) -> (value: Option<i16>)
        ensures
            match value {
                Some(v) => {
                    &&& self.has_upcoming(2)
                    &&& v == twos_complement(be_value(self.upcoming(2)), 0x1_0000)
                },
                None => !self.has_upcoming(2),
            },
    {
        match self.read_unsigned(2, ByteOrder::BigEndian) {
            Some(raw) => {
                proof {
                    lemma_pow256_values();
                }
                Some(to_i16(raw as u16))
            },
            None => None,
        }
    }

    /// Reads a little-endian `i16` and advances past it, if two bytes
    /// remain.
    pub fn next_i16_le(&mut self) -> (value: Option<i16>)
        ensures
            final(self).buffer() == old(self).buffer(),
            match value {
                Some(v) => {
                    &&& old(self).has_upcoming(2)
                    &&& v == twos_complement(le_value(old(self).upcoming(2)), 0x1_0000)
                    &&& final(self).offset() == old(self).offset() + 2
                },
                None => {
                    &&& !old(self).has_upcoming(2)
                    &&& final(self).offset() == old(self).offset()
                },
            },
    {
        let value: Option<i16> = self.read_i16_le();
        if value.is_some() {
            self.advance_n_unchecked(2);
        }
        value
    }

    /// Reads a big-endian `i16`, if two bytes remain. Does not advance.
    pub fn next_i16_be(&self) -> (value: Option<i16>)
        ensures
            match value {
                Some(v) => {
                    &&& self.has_upcoming(2)
                    &&& v == twos_complement(be_value(self.upcoming(2)), 0x1_0000)
                },
                None => !self.has_upcoming(2),
            },
    {
        self.read_i16_be()
    }

    /// Reads a little-endian `u32`, if four bytes remain. Does not advance.
    pub fn read_u32_le(&self) -> (value: Option<u32>)
        ensures
            match value {
                Some(v) => {
                    &&& self.has_upcoming(4)
                    &&& v == le_value(self.upcoming(4))
                },
                None => !self.has_upcoming(4),
            },
    {
        match self.read_unsigned(4, ByteOrder::LittleEndian) {
            Some(raw) => {
                proof {
                    lemma_pow256_values();
                }
                Some(raw as u32)
            },
            None => None,
        }
    }

    /// Reads a big-endian `u32`, if four bytes remain. Does not advance.
    pub fn read_u32_be(&self) -> (value: Option<u32>)
        ensures
            match value {
                Some(v) => {
                    &&& self.has_upcoming(4)
                    &&& v == be_value(self.upcoming(4))
                },
                None => !self.has_upcoming(4),
            },
    {
        match self.read_unsigned(4, ByteOrder::BigEndian) {
            Some(raw) => {
                proof {
                    lemma_pow256_values();
                }
                Some(raw as u32)
            },
            None => None,
        }
    }

    /// Reads a little-endian `u32` and advances past it, if four bytes
    /// remain.
    pub fn next_u32_le(&mut self) -> (value: Option<u32>)
        ensures
            final(self).buffer() == old(self).buffer(),
            match value {
                Some(v) => {
                    &&& old(self).has_upcoming(4)
                    &&& v == le_value(old(self).upcoming(4))
                    &&& final(self).offset() == old(self).offset() + 4
                },
                None => {
                    &&& !old(self).has_upcoming(4)
                    &&& final(self).offset() == old(self).offset()
                },
            },
    {
        let value: Option<u32> = self.read_u32_le();
        if value.is_some() {
            self.advance_n_unchecked(4);
        }
        value
    }

    /// Reads a big-endian `u32`, if four bytes remain. Does not advance.
    pub fn next_u32_be(&self) -> (value: Option<u32>)
        ensures
            match value {
                Some(v) => {
                    &&& self.has_upcoming(4)
                    &&& v == be_value(self.upcoming(4))
                },
                None => !self.has_upcoming(4),
            },
    {
        self.read_u32_be()
    }

    /// Reads a little-endian `i32`, if four bytes remain. Does not advance.
    pub fn read_i32_le(&self) -> (value: Option<i32>)
        ensures
            match value {
                Some(v) => {
                    &&& self.has_upcoming(4)
                    &&& v == twos_complement(le_value(self.upcoming(4)), 0x1_0000_0000)
                },
                None => !self.has_upcoming(4),
            },
    {
        match self.read_unsigned(4, ByteOrder::LittleEndian) {
            Some(raw) => {
                proof {
                    lemma_pow256_values();
                }
                Some(to_i32(raw as u32))
            },
            None => None,
        }
    }

    /// Reads a big-endian `i32`, if four bytes remain. Does not advance.
    pub fn read_i32_be(&self) -> (value: Option<i32>)
        ensures
            match value {
                Some(v) => {
                    &&& self.has_upcoming(4)
                    &&& v == twos_complement(be_value(self.upcoming(4)), 0x1_0000_0000)
                },
                None => !self.has_upcoming(4),
            },
    {
        match self.read_unsigned(4, ByteOrder::BigEndian) {
            Some(raw) => {
                proof {
                    lemma_pow256_values();
                }
                Some(to_i32(raw as u32))
            },
            None => None,
        }
    }

    /// Reads a little-endian `i32` and advances past it, if four bytes
    /// remain.
    pub fn next_i32_le(&mut self) -> (value: Option<i32>)
        ensures
            final(self).buffer() == old(self).buffer(),
            match value {
                Some(v) => {
                    &&& old(self).has_upcoming(4)
                    &&& v == twos_complement(le_value(old(self).upcoming(4)), 0x1_0000_0000)
                    &&& final(self).offset() == old(self).offset() + 4
                },
                None => {
                    &&& !old(self).has_upcoming(4)
                    &&& final(self).offset() == old(self).offset()
                },
            },
    {
        let value: Option<i32> = self.read_i32_le();
        if value.is_some() {
            self.advance_n_unchecked(4);
        }
        value
    }

    /// Reads a big-endian `i32`, if four bytes remain. Does not advance.
    pub fn next_i32_be(&self) -> (value: Option<i32>)
        ensures
            match value {
                Some(v) => {
                    &&& self.has_upcoming(4)
                    &&& v == twos_complement(be_value(self.upcoming(4)), 0x1_0000_0000)
                },
                None => !self.has_upcoming(4),
            },
    {
        self.read_i32_be()
    }

    /// Reads a little-endian `u64`, if eight bytes remain. Does not advance.
    pub fn read_u64_le(&self) -> (value: Option<u64>)
        ensures
            match value {
                Some(v) => {
                    &&& self.has_upcoming(8)
                    &&& v == le_value(self.upcoming(8))
                },
                None => !self.has_upcoming(8),
            },
    {
        match self.read_unsigned(8, ByteOrder::LittleEndian) {
            Some(raw) => {
                proof {
                    lemma_pow256_values();
                }
                Some(raw as u64)
            },
            None => None,
        }
    }

    /// Reads a big-endian `u64`, if eight bytes remain. Does not advance.
    pub fn read_u64_be(&self) -> (value: Option<u64>)
        ensures
            match value {
                Some(v) => {
                    &&& self.has_upcoming(8)
                    &&& v == be_value(self.upcoming(8))
                },
                None => !self.has_upcoming(8),
            },
    {
        match self.read_unsigned(8, ByteOrder::BigEndian) {
            Some(raw) => {
                proof {
                    lemma_pow256_values();
                }
                Some(raw as u64)
            },
            None => None,
        }
    }

    /// Reads a little-endian `u64` and advances past it, if eight bytes
    /// remain.
    pub fn next_u64_le(&mut self) -> (value: Option<u64>)
        ensures
            final(self).buffer() == old(self).buffer(),
            match value {
                Some(v) => {
                    &&& old(self).has_upcoming(8)
                    &&& v == le_value(old(self).upcoming(8))
                    &&& final(self).offset() == old(self).offset() + 8
                },
                None => {
                    &&& !old(self).has_upcoming(8)
                    &&& final(self).offset() == old(self).offset()
                },
            },
    {
        let value: Option<u64> = self.read_u64_le();
        if value.is_some() {
            self.advance_n_unchecked(8);
        }
        value
    }

    /// Reads a big-endian `u64`, if eight bytes remain. Does not advance.
    pub fn next_u64_be(&self) -> (value: Option<u64>)
        ensures
            match value {
                Some(v) => {
                    &&& self.has_upcoming(8)
                    &&& v == be_value(self.upcoming(8))
                },
                None => !self.has_upcoming(8),
            },
    {
        self.read_u64_be()
    }

    /// Reads a little-endian `i64`, if eight bytes remain. Does not advance.
    pub fn read_i64_le(&self) -> (value: Option<i64>)
        ensures
            match value {
                Some(v) => {
                    &&& self.has_upcoming(8)
                    &&& v == twos_complement(le_value(self.upcoming(8)), 0x1_0000_0000_0000_0000)
                },
                None => !self.has_upcoming(8),
            },
    {
        match self.read_unsigned(8, ByteOrder::LittleEndian) {
            Some(raw) => {
                proof {
                    lemma_pow256_values();
                }
                Some(to_i64(raw as u64))
            },
            None => None,
        }
    }

    /// Reads a big-endian `i64`, if eight bytes remain. Does not advance.
    pub fn read_i64_be(&self) -> (value: Option<i64>)
        ensures
            match value {
                Some(v) => {
                    &&& self.has_upcoming(8)
                    &&& v == twos_complement(be_value(self.upcoming(8)), 0x1_0000_0000_0000_0000)
                },
                None => !self.has_upcoming(8),
            },
    {
        match self.read_unsigned(8, ByteOrder::BigEndian) {
            Some(raw) => {
                proof {
                    lemma_pow256_values();
                }
                Some(to_i64(raw as u64))
            },
            None => None,
        }
    }

    /// Reads a little-endian `i64` and advances past it, if eight bytes
    /// remain.
    pub fn next_i64_le(&mut self) -> (value: Option<i64>)
        ensures
            final(self).buffer() == old(self).buffer(),
            match value {
                Some(v) => {
                    &&& old(self).has_upcoming(8)
                    &&& v == twos_complement(
                        le_value(old(self).upcoming(8)),
                        0x1_0000_0000_0000_0000,
                    )
                    &&& final(self).offset() == old(self).offset() + 8
                },
                None => {
                    &&& !old(self).has_upcoming(8)
                    &&& final(self).offset() == old(self).offset()
                },
            },
    {
        let value: Option<i64> = self.read_i64_le();
        if value.is_some() {
            self.advance_n_unchecked(8);
        }
        value
    }

    /// Reads a big-endian `i64`, if eight bytes remain. Does not advance.
    pub fn next_i64_be(&self) -> (value: Option<i64>)
        ensures
            match value {
                Some(v) => {
                    &&& self.has_upcoming(8)
                    &&& v == twos_complement(be_value(self.upcoming(8)), 0x1_0000_0000_0000_0000)
                },
                None => !self.has_upcoming(8),
            },
    {
        self.read_i64_be()
    }

    /// Reads a little-endian `u128`, if sixteen bytes remain. Does not advance.
    pub fn read_u128_le(&self) -> (value: Option<u128>)
        ensures
            match value {
                Some(v) => {
                    &&& self.has_upcoming(16)
                    &&& v == le_value(self.upcoming(16))
                },
                None => !self.has_upcoming(16),
            },
    {
        match self.read_unsigned(16, ByteOrder::LittleEndian) {
            Some(raw) => {
                proof {
                    lemma_pow256_values();
                }
                Some(raw)
            },
            None => None,
        }
    }

    /// Reads a big-endian `u128`, if sixteen bytes remain. Does not advance.
    pub fn read_u128_be(&self) -> (value: Option<u128>)
        ensures
            match value {
                Some(v) => {
                    &&& self.has_upcoming(16)
                    &&& v == be_value(self.upcoming(16))
                },
                None => !self.has_upcoming(16),
            },
    {
        match self.read_unsigned(16, ByteOrder::BigEndian) {
            Some(raw) => {
                proof {
                    lemma_pow256_values();
                }
                Some(raw)
            },
            None => None,
        }
    }

    /// Reads a little-endian `u128` and advances past it, if sixteen bytes
    /// remain.
    pub fn next_u128_le(&mut self) -> (value: Option<u128>)
        ensures
            final(self).buffer() == old(self).buffer(),
            match value {
                Some(v) => {
                    &&& old(self).has_upcoming(16)
                    &&& v == le_value(old(self).upcoming(16))
                    &&& final(self).offset() == old(self).offset() + 16
                },
                None => {
                    &&& !old(self).has_upcoming(16)
                    &&& final(self).offset() == old(self).offset()
                },
            },
    {
        let value: Option<u128> = self.read_u128_le();
        if value.is_some() {
            self.advance_n_unchecked(16);
        }
        value
    }

    /// Reads a big-endian `u128`, if sixteen bytes remain. Does not advance.
    pub fn next_u128_be(&self) -> (value: Option<u128>)
        ensures
            match value {
                Some(v) => {
                    &&& self.has_upcoming(16)
                    &&& v == be_value(self.upcoming(16))
                },
                None => !self.has_upcoming(16),
            },
    {
        self.read_u128_be()
    }

    /// Reads a little-endian `i128`, if sixteen bytes remain. Does not advance.
    pub fn read_i128_le(&self) -> (value: Option<i128>)
        ensures
            match value {
                Some(v) => {
                    &&& self.has_upcoming(16)
                    &&& v == twos_complement(
                        le_value(self.upcoming(16)),
                        0x1_0000_0000_0000_0000_0000_0000_0000_0000int,
                    )
                },
                None => !self.has_upcoming(16),
            },
    {
        match self.read_unsigned(16, ByteOrder::LittleEndian) {
            Some(raw) => {
                proof {
                    lemma_pow256_values();
                }
                Some(to_i128(raw))
            },
            None => None,
        }
    }

    /// Reads a big-endian `i128`, if sixteen bytes remain. Does not advance.
    pub fn read_i128_be(&self) -> (value: Option<i128>)
        ensures
            match value {
                Some(v) => {
                    &&& self.has_upcoming(16)
                    &&& v == twos_complement(
                        be_value(self.upcoming(16)),
                        0x1_0000_0000_0000_0000_0000_0000_0000_0000int,
                    )
                },
                None => !self.has_upcoming(16),
            },
    {
        match self.read_unsigned(16, ByteOrder::BigEndian) {
            Some(raw) => {
                proof {
                    lemma_pow256_values();
                }
                Some(to_i128(raw))
            },
            None => None,
        }
    }

    /// Reads a little-endian `i128` and advances past it, if sixteen bytes
    /// remain.
    pub fn next_i128_le(&mut self) -> (value: Option<i128>)
        ensures
            final(self).buffer() == old(self).buffer(),
            match value {
                Some(v) => {
                    &&& old(self).has_upcoming(16)
                    &&& v == twos_complement(
                        le_value(old(self).upcoming(16)),
                        0x1_0000_0000_0000_0000_0000_0000_0000_0000int,
                    )
                    &&& final(self).offset() == old(self).offset() + 16
                },
                None => {
                    &&& !old(self).has_upcoming(16)
                    &&& final(self).offset() == old(self).offset()
                },
            },
    {
        let value: Option<i128> = self.read_i128_le();
        if value.is_some() {
            self.advance_n_unchecked(16);
        }
        value
    }

    /// Reads a big-endian `i128`, if sixteen bytes remain. Does not advance.
    pub fn next_i128_be(&self) -> (value: Option<i128>)
        ensures
            match value {
                Some(v) => {
                    &&& self.has_upcoming(16)
                    &&& v == twos_complement(
                        be_value(self.upcoming(16)),
                        0x1_0000_0000_0000_0000_0000_0000_0000_0000int,
                    )
                },
                None => !self.has_upcoming(16),
            },
    {
        self.read_i128_be()
    }
}

} // verus!
