//! Word operations: reading and writing a single bit or a bit range inside
//! one storage word.
//!
//! A word is the low `width` bits of a `u128`, `1 <= width <= 128`.  These are
//! the leaf primitives; the multi-word engine in [`crate::storage`] invokes
//! them once per overlapping word.

use crate::lemmas::{
    lemma_extend_signed, lemma_extend_unsigned, lemma_shr_bit, lemma_single_bit, lemma_splice_bit,
    lemma_zero_bit,
};
use crate::model::{fits, low_mask, nth_bit, word_read_bit};
use vstd::prelude::*;

verus! {

/// The mask with exactly the `n` low bits set.
///
/// Building it from `1 << n` would overflow at `n == 128`, so the full-width
/// mask is the one special case.
pub fn mask(n: usize) -> (m: u128)
    requires
        1 <= n <= 128,
    ensures
        m == low_mask(n as u128),
{
    if n == 128 {
        u128::MAX
    } else {
        let sh: u128 = n as u128;
        proof {
            assert(1u128 << sh >= 1) by (bit_vector)
                requires
                    sh < 128,
            ;
        }
        (1u128 << sh) - 1
    }
}

/// Reads bit `at` of the `width`-bit word `w`.
pub fn bit(w: u128, width: usize, at: usize) -> (b: bool)
    requires
        1 <= width <= 128,
        at < width,
    ensures
        b == nth_bit(w, at as u128),
{
    (w >> (at as u128)) & 1 == 1
}

/// Returns `w` with bit `at` set to `value` and every other bit unchanged.
pub fn with_bit(w: u128, width: usize, at: usize, value: bool) -> (r: u128)
    requires
        1 <= width <= 128,
        at < width,
        fits(w, width as nat),
    ensures
        forall|i: u128|
            i < 128 ==> #[trigger] nth_bit(r, i) == if i == at as u128 {
                value
            } else {
                nth_bit(w, i)
            },
        fits(r, width as nat),
{
    let sh: u128 = at as u128;
    let one_if: u128 = if value {
        1
    } else {
        0
    };
    let r = (w & !(1u128 << sh)) | (one_if << sh);
    proof {
        assert forall|i: u128| i < 128 implies #[trigger] nth_bit(r, i) == if i == at as u128 {
            value
        } else {
            nth_bit(w, i)
        } by {
            lemma_single_bit(w, sh, value, width as u128, i);
        }
        lemma_single_bit(w, sh, value, width as u128, 0);
    }
    r
}

/// Sign- or zero-extends the low `sel` bits of `x` to a `value_bits`-wide
/// value: bits `[0, sel)` are kept, bits `[sel, value_bits)` replicate bit
/// `sel - 1` when `signed` and are cleared otherwise, and everything above
/// `value_bits` is cleared, whatever `x` held there.
///
/// The double shift by `128 - sel` is the extension mechanism: a logical
/// right shift zero-fills, an arithmetic one through `i128` replicates the
/// top selected bit.  At `sel == 128` both shifts are by zero, so the
/// full-width case needs no special treatment.
pub fn extend(x: u128, sel: usize, value_bits: usize, signed: bool) -> (r: u128)
    requires
        1 <= sel <= value_bits,
        value_bits <= 128,
    ensures
        forall|i: u128|
            i < 128 ==> #[trigger] nth_bit(r, i) == if i < sel as u128 {
                nth_bit(x, i)
            } else if i < value_bits as u128 {
                signed && nth_bit(x, (sel - 1) as u128)
            } else {
                false
            },
        fits(r, value_bits as nat),
{
    let sel128: u128 = sel as u128;
    let sh: u128 = 128 - sel128;
    let shifted: u128 = x << sh;
    let r: u128 = if signed {
        let m = mask(value_bits);
        (((shifted as i128) >> sh) as u128) & m
    } else {
        shifted >> sh
    };
    proof {
        let vb = value_bits as u128;
        assert forall|i: u128| i < 128 implies #[trigger] nth_bit(r, i) == if i < sel as u128 {
            nth_bit(x, i)
        } else if i < value_bits as u128 {
            signed && nth_bit(x, (sel - 1) as u128)
        } else {
            false
        } by {
            if signed {
                lemma_extend_signed(x, sel128, vb, i);
            } else {
                lemma_extend_unsigned(x, sel128, i);
            }
        }
        if signed {
            lemma_extend_signed(x, sel128, vb, 0);
        } else {
            lemma_extend_unsigned(x, sel128, 0);
            assert(fits(r, value_bits as nat)) by {
                if sel128 < vb && vb < 128 {
                    assert((x << vstd::prelude::sub(128, sel128)) >> vstd::prelude::sub(
                        128,
                        sel128,
                    ) >> sel128 == 0 ==> (x << vstd::prelude::sub(128, sel128))
                        >> vstd::prelude::sub(128, sel128) >> vb == 0) by (bit_vector)
                        requires
                            sel128 < vb < 128,
                    ;
                }
            }
        }
    }
    r
}

/// Reads the bit range `[start, end)` of the `width`-bit word `w` as a
/// `value_bits`-wide value, sign-extended when `signed` and zero-extended
/// otherwise; an empty range reads as zero.
pub fn bit_range(w: u128, width: usize, start: usize, end: usize, value_bits: usize, signed: bool) -> (r: u128)
    requires
        1 <= width <= 128,
        1 <= value_bits <= 128,
        start < end ==> end <= width && end - start <= value_bits,
    ensures
        forall|i: u128|
            i < 128 ==> #[trigger] nth_bit(r, i) == word_read_bit(
                w,
                start as nat,
                end as nat,
                value_bits as nat,
                signed,
                i,
            ),
        fits(r, value_bits as nat),
{
    if start >= end {
        proof {
            assert forall|i: u128| i < 128 implies #[trigger] nth_bit(0u128, i) == word_read_bit(
                w,
                start as nat,
                end as nat,
                value_bits as nat,
                signed,
                i,
            ) by {
                lemma_zero_bit(i);
            }
            assert(fits(0u128, value_bits as nat)) by (bit_vector);
        }
        return 0;
    }
    let sel: usize = end - start;
    let shifted: u128 = w >> (start as u128);
    let r: u128 = extend(shifted, sel, value_bits, signed);
    proof {
        assert forall|i: u128| i < 128 implies #[trigger] nth_bit(r, i) == word_read_bit(
            w,
            start as nat,
            end as nat,
            value_bits as nat,
            signed,
            i,
        ) by {
            if i < sel as u128 {
                lemma_shr_bit(w, start as u128, i);
            }
            lemma_shr_bit(w, start as u128, (sel - 1) as u128);
        }
    }
    r
}

/// Returns `w` with the bit range `[start, end)` replaced by the low
/// `end - start` bits of `value` and every other bit unchanged; an empty
/// range returns `w` as it is.
///
/// The mask of `end - start` ones comes from [`mask`], whose construction
/// stays well-defined for a full-width range.
pub fn with_bit_range(w: u128, width: usize, start: usize, end: usize, value: u128) -> (r: u128)
    requires
        1 <= width <= 128,
        fits(w, width as nat),
        start < end ==> end <= width,
    ensures
        forall|i: u128|
            i < 128 ==> #[trigger] nth_bit(r, i) == if start as u128 <= i < end as u128 && start
                < end {
                nth_bit(value, (i - start as u128) as u128)
            } else {
                nth_bit(w, i)
            },
        fits(r, width as nat),
        start >= end ==> r == w,
{
    if start >= end {
        return w;
    }
    let sel: usize = end - start;
    let sh: u128 = start as u128;
    let m: u128 = mask(sel) << sh;
    let r = (w & !m) | ((value << sh) & m);
    proof {
        assert forall|i: u128| i < 128 implies #[trigger] nth_bit(r, i) == if start as u128 <= i
            < end as u128 && start < end {
            nth_bit(value, (i - start as u128) as u128)
        } else {
            nth_bit(w, i)
        } by {
            lemma_splice_bit(w, value, sh, sel as u128, width as u128, i);
        }
        lemma_splice_bit(w, value, sh, sel as u128, width as u128, 0);
    }
    r
}

} // verus!
