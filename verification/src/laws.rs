//! The properties that relate the engine's operations to one another.
//!
//! Each law is stated over the bit-level model of [`crate::model`]: its
//! hypotheses are exactly what the contracts of [`crate::storage::Storage`]'s
//! read and write operations ensure, so a caller obtains them directly from
//! those contracts.

use crate::lemmas::{lemma_bit_ext, lemma_fits_bit, lemma_word_to_bit};
use crate::model::{all_fit, fits, nth_bit, reads_to, seq_bit, valid_range, writes_to};
use vstd::prelude::*;

verus! {

/// Round trip: reading a range back right after writing it returns the
/// written value, truncated to the selected bits and then sign- or
/// zero-extended to the value width; and the write leaves every bit outside
/// the range unchanged.
pub proof fn lemma_round_trip(
    s: Seq<u128>,
    w: nat,
    start: nat,
    end: nat,
    value_bits: nat,
    signed: bool,
    v: u128,
    s2: Seq<u128>,
    r: u128,
)
    requires
        1 <= w <= 128,
        1 <= value_bits <= 128,
        valid_range(start, end, s.len() * w, value_bits),
        writes_to(s, w, start, end, v, s2),
        reads_to(s2, w, start, end, value_bits, signed, r),
    ensures
        forall|i: u128|
            i < 128 ==> #[trigger] nth_bit(r, i) == if (i as nat) < end - start {
                nth_bit(v, i)
            } else if (i as nat) < value_bits {
                signed && nth_bit(v, (end - start - 1) as u128)
            } else {
                false
            },
        forall|p: nat|
            p < s.len() * w && !(start <= p < end) ==> #[trigger] seq_bit(s2, w, p) == seq_bit(
                s,
                w,
                p,
            ),
{
    assert forall|i: u128| i < 128 implies #[trigger] nth_bit(r, i) == if (i as nat) < end
        - start {
        nth_bit(v, i)
    } else if (i as nat) < value_bits {
        signed && nth_bit(v, (end - start - 1) as u128)
    } else {
        false
    } by {
        if (i as nat) < end - start {
            assert(seq_bit(s2, w, (start + i as nat) as nat) == nth_bit(v, i));
        }
        assert(seq_bit(s2, w, (end - 1) as nat) == nth_bit(v, (end - start - 1) as u128));
    }
}

/// Idempotence of masking: writing the same value to the same range twice
/// yields the same storage as writing it once.
pub proof fn lemma_write_idempotent(
    s: Seq<u128>,
    w: nat,
    start: nat,
    end: nat,
    v: u128,
    s1: Seq<u128>,
    s2: Seq<u128>,
)
    requires
        1 <= w <= 128,
        all_fit(s1, w),
        all_fit(s2, w),
        writes_to(s, w, start, end, v, s1),
        writes_to(s1, w, start, end, v, s2),
    ensures
        s2 == s1,
{
    assert forall|j: int| 0 <= j < s1.len() implies s2[j] == s1[j] by {
        assert forall|i: u128| i < 128 implies nth_bit(s2[j], i) == nth_bit(s1[j], i) by {
            if (i as nat) < w {
                lemma_word_to_bit(s1, w, j as nat, i as nat);
                lemma_word_to_bit(s2, w, j as nat, i as nat);
            } else {
                lemma_fits_bit(s1[j], w as u128, i);
                lemma_fits_bit(s2[j], w as u128, i);
            }
        }
        lemma_bit_ext(s2[j], s1[j]);
    }
    assert(s2 =~= s1);
}

/// Full-width replacement: a write whose range covers one word exactly
/// replaces that word's whole contents with the written value.  That such a
/// range is accepted at all is the mask-overflow edge case: the full-width
/// mask must be built without shifting by the word's entire width.
pub proof fn lemma_full_width_write(s: Seq<u128>, w: nat, j: nat, v: u128, s2: Seq<u128>)
    requires
        1 <= w <= 128,
        j < s.len(),
        fits(v, w),
        all_fit(s2, w),
        writes_to(s, w, j * w, j * w + w, v, s2),
    ensures
        s2[j as int] == v,
{
    assert forall|i: u128| i < 128 implies nth_bit(s2[j as int], i) == nth_bit(v, i) by {
        if (i as nat) < w {
            lemma_word_to_bit(s2, w, j, i as nat);
        } else {
            lemma_fits_bit(s2[j as int], w as u128, i);
            lemma_fits_bit(v, w as u128, i);
        }
    }
    lemma_bit_ext(s2[j as int], v);
}

} // verus!
