//! A sample bitfield built directly on the word operations: the accessor
//! methods that a field list describes, written out as the code they stand
//! for.
//!
//! The layout is a 16-bit status word: bit 0 a read-only flag, bit 1 a
//! write-only flag, bit 2 a flag both readable and writable, bits 3 to 5 a
//! three-bit mask, bit 7 and bits 8 to 15 the high and low parts of a compare
//! value, and the whole word reachable raw.  Bit 6 is unused.

use crate::model::{fits, nth_bit, word_read_bit};
use crate::traits::Bitfield;
use crate::word;
use vstd::prelude::*;

verus! {

/// A sample bitfield over one 16-bit storage word.
pub struct Example(pub u16);

impl Bitfield for Example {
    type Storage = u16;
}

/// A 16-bit pattern widened to the common word carrier stays inside 16 bits.
proof fn lemma_u16_fits(x: u16)
    by (bit_vector)
    ensures
        fits(x as u128, 16),
{
}

/// A carrier word inside 16 bits survives the round trip through `u16`.
proof fn lemma_u16_round_trip(w: u128)
    by (bit_vector)
    requires
        w >> 16 == 0,
    ensures
        ((w as u16) as u128) == w,
{
}

/// A carrier word inside 8 bits survives the round trip through `u8`.
proof fn lemma_u8_round_trip(w: u128)
    by (bit_vector)
    requires
        w >> 8 == 0,
    ensures
        ((w as u8) as u128) == w,
{
}

impl Example {
    /// The whole storage word.
    pub fn raw(&self) -> (r: u16)
        ensures
            r == self.0,
    {
        self.0
    }

    /// Returns the bitfield with the whole storage word replaced.
    pub fn with_raw(self, value: u16) -> (r: Example)
        ensures
            r.0 == value,
    {
        Example(value)
    }

    /// Bit 0, readable only.
    pub fn vblank(&self) -> (b: bool)
        ensures
            b == nth_bit(self.0 as u128, 0),
    {
        word::bit(self.0 as u128, 16, 0)
    }

    /// Bit 1, writable only.
    pub fn with_hblank(self, value: bool) -> (r: Example)
        ensures
            forall|i: u128|
                i < 128 ==> #[trigger] nth_bit(r.0 as u128, i) == if i == 1 {
                    value
                } else {
                    nth_bit(self.0 as u128, i)
                },
    {
        proof {
            lemma_u16_fits(self.0);
        }
        let w = word::with_bit(self.0 as u128, 16, 1, value);
        proof {
            lemma_u16_round_trip(w);
        }
        Example(w as u16)
    }

    /// Bit 2.
    pub fn vcount_match(&self) -> (b: bool)
        ensures
            b == nth_bit(self.0 as u128, 2),
    {
        word::bit(self.0 as u128, 16, 2)
    }

    /// Returns the bitfield with bit 2 set to `value`.
    pub fn with_vcount_match(self, value: bool) -> (r: Example)
        ensures
            forall|i: u128|
                i < 128 ==> #[trigger] nth_bit(r.0 as u128, i) == if i == 2 {
                    value
                } else {
                    nth_bit(self.0 as u128, i)
                },
    {
        proof {
            lemma_u16_fits(self.0);
        }
        let w = word::with_bit(self.0 as u128, 16, 2, value);
        proof {
            lemma_u16_round_trip(w);
        }
        Example(w as u16)
    }

    /// Sets bit 2 in place.
    pub fn set_vcount_match(&mut self, value: bool)
        ensures
            forall|i: u128|
                i < 128 ==> #[trigger] nth_bit(final(self).0 as u128, i) == if i == 2 {
                    value
                } else {
                    nth_bit(old(self).0 as u128, i)
                },
    {
        proof {
            lemma_u16_fits(self.0);
        }
        let w = word::with_bit(self.0 as u128, 16, 2, value);
        proof {
            lemma_u16_round_trip(w);
        }
        self.0 = w as u16;
    }

    /// Bits 3 to 5, as a zero-extended byte.
    pub fn irq_mask(&self) -> (r: u8)
        ensures
            forall|i: u128|
                i < 128 ==> #[trigger] nth_bit(r as u128, i) == word_read_bit(
                    self.0 as u128,
                    3,
                    6,
                    8,
                    false,
                    i,
                ),
    {
        let v = word::bit_range(self.0 as u128, 16, 3, 6, 8, false);
        proof {
            lemma_u8_round_trip(v);
        }
        v as u8
    }

    /// Returns the bitfield with bits 3 to 5 replaced by the low bits of
    /// `value`.
    pub fn with_irq_mask(self, value: u8) -> (r: Example)
        ensures
            forall|i: u128|
                i < 128 ==> #[trigger] nth_bit(r.0 as u128, i) == if 3 <= i < 6 {
                    nth_bit(value as u128, (i - 3) as u128)
                } else {
                    nth_bit(self.0 as u128, i)
                },
    {
        proof {
            lemma_u16_fits(self.0);
        }
        let w = word::with_bit_range(self.0 as u128, 16, 3, 6, value as u128);
        proof {
            lemma_u16_round_trip(w);
        }
        Example(w as u16)
    }

    /// Bit 7, the high part of the compare value, as a byte.
    pub fn vcount_compare_high(&self) -> (r: u8)
        ensures
            forall|i: u128|
                i < 128 ==> #[trigger] nth_bit(r as u128, i) == word_read_bit(
                    self.0 as u128,
                    7,
                    8,
                    8,
                    false,
                    i,
                ),
    {
        let v = word::bit_range(self.0 as u128, 16, 7, 8, 8, false);
        proof {
            lemma_u8_round_trip(v);
        }
        v as u8
    }

    /// Bits 8 to 15, the low part of the compare value.
    pub fn vcount_compare_low(&self) -> (r: u8)
        ensures
            forall|i: u128|
                i < 128 ==> #[trigger] nth_bit(r as u128, i) == word_read_bit(
                    self.0 as u128,
                    8,
                    16,
                    8,
                    false,
                    i,
                ),
    {
        let v = word::bit_range(self.0 as u128, 16, 8, 16, 8, false);
        proof {
            lemma_u8_round_trip(v);
        }
        v as u8
    }

    /// Returns the bitfield with bits 8 to 15 replaced by `value`.
    pub fn with_vcount_compare_low(self, value: u8) -> (r: Example)
        ensures
            forall|i: u128|
                i < 128 ==> #[trigger] nth_bit(r.0 as u128, i) == if 8 <= i < 16 {
                    nth_bit(value as u128, (i - 8) as u128)
                } else {
                    nth_bit(self.0 as u128, i)
                },
    {
        proof {
            lemma_u16_fits(self.0);
        }
        let w = word::with_bit_range(self.0 as u128, 16, 8, 16, value as u128);
        proof {
            lemma_u16_round_trip(w);
        }
        Example(w as u16)
    }
}

} // verus!
