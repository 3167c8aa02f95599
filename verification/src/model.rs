//! The bit-level model.
//!
//! Every contract of the crate is stated over these spec functions.  A storage
//! is a sequence of words of a common width `w` (1 to 128 bits each), carried
//! in the low bits of a `u128`; bit `i` of the storage lives in word `i / w`
//! at intra-word offset `i % w`, word 0 holding the least-significant bits.
//! A scalar value is likewise the low `value_bits` bits of a `u128`; a signed
//! value is its two's-complement pattern within that width.

use vstd::prelude::*;

verus! {

/// Bit `i` of the 128-bit pattern `x`.
pub open spec fn nth_bit(x: u128, i: u128) -> bool
    recommends
        i < 128,
{
    (x >> i) & 1 == 1
}

/// The mask with exactly the `n` low bits set (all of them when `n >= 128`).
pub open spec fn low_mask(n: u128) -> u128 {
    if n >= 128 {
        u128::MAX
    } else {
        ((1u128 << n) - 1) as u128
    }
}

/// `x` has no set bits at or above `width`: it fits in `width` bits.
pub open spec fn fits(x: u128, width: nat) -> bool {
    width < 128 ==> x >> (width as u128) == 0
}

/// Every element of `s` fits in `width` bits.
pub open spec fn all_fit(s: Seq<u128>, width: nat) -> bool {
    forall|k: int| 0 <= k < s.len() ==> fits(#[trigger] s[k], width)
}

/// Bit `i` of the little-endian concatenation of the `w`-bit elements of `s`;
/// positions beyond the last element read as zero.
pub open spec fn seq_bit(s: Seq<u128>, w: nat, i: nat) -> bool
    recommends
        1 <= w <= 128,
{
    i < s.len() * w && nth_bit(s[(i / w) as int], (i % w) as u128)
}

/// How many bits the half-open range `[start, end)` selects; zero when it is
/// empty or reversed.
pub open spec fn selected(start: nat, end: nat) -> nat {
    if start < end {
        (end - start) as nat
    } else {
        0
    }
}

/// Bit `i` of the value that reading `[start, end)` out of storage `s` as a
/// `value_bits`-wide value must produce: first the selected storage bits, then
/// sign or zero extension up to `value_bits`, then zeros.
pub open spec fn read_bit(
    s: Seq<u128>,
    w: nat,
    start: nat,
    end: nat,
    value_bits: nat,
    signed: bool,
    i: u128,
) -> bool {
    if (i as nat) < selected(start, end) {
        seq_bit(s, w, start + i as nat)
    } else if (i as nat) < value_bits && selected(start, end) > 0 {
        signed && seq_bit(s, w, (end - 1) as nat)
    } else {
        false
    }
}

/// `r` is, bit for bit, the value read from `[start, end)` of `s`.
pub open spec fn reads_to(
    s: Seq<u128>,
    w: nat,
    start: nat,
    end: nat,
    value_bits: nat,
    signed: bool,
    r: u128,
) -> bool {
    forall|i: u128| i < 128 ==> #[trigger] nth_bit(r, i) == read_bit(s, w, start, end, value_bits, signed, i)
}

/// `s2` is `s` with the bits of `[start, end)` replaced by the low bits of the
/// scalar value `v` and every other bit unchanged.
pub open spec fn writes_to(
    s: Seq<u128>,
    w: nat,
    start: nat,
    end: nat,
    v: u128,
    s2: Seq<u128>,
) -> bool {
    &&& s2.len() == s.len()
    &&& forall|i: nat|
        i < s.len() * w ==> #[trigger] seq_bit(s2, w, i) == if start <= i < end {
            nth_bit(v, (i - start) as u128)
        } else {
            seq_bit(s, w, i)
        }
}

/// `s2` is `s` with the bits of `[start, end)` replaced by the concatenation
/// of the `value_bits`-wide elements of `v` and every other bit unchanged.
pub open spec fn writes_elems_to(
    s: Seq<u128>,
    w: nat,
    start: nat,
    end: nat,
    v: Seq<u128>,
    value_bits: nat,
    s2: Seq<u128>,
) -> bool {
    &&& s2.len() == s.len()
    &&& forall|i: nat|
        i < s.len() * w ==> #[trigger] seq_bit(s2, w, i) == if start <= i < end {
            seq_bit(v, value_bits, (i - start) as nat)
        } else {
            seq_bit(s, w, i)
        }
}

/// The sub-range of `[start, end)` that element `k` of a `value_bits`-wide
/// element sequence covers: `[start + k*value_bits, min(end, start + (k+1)*value_bits))`.
pub open spec fn elem_lo(start: nat, value_bits: nat, k: nat) -> nat {
    start + k * value_bits
}

/// The (exclusive) upper bit of the sub-range element `k` covers.
pub open spec fn elem_hi(start: nat, end: nat, value_bits: nat, k: nat) -> nat {
    if end < start + k * value_bits + value_bits {
        end
    } else {
        start + k * value_bits + value_bits
    }
}

/// `out` is, element by element and bit for bit, the result of reading
/// `[start, end)` of `s` as `value_bits`-wide elements, each element sign- or
/// zero-extended on its own; elements past the selected bits are zero.
pub open spec fn reads_elems_to(
    s: Seq<u128>,
    w: nat,
    start: nat,
    end: nat,
    value_bits: nat,
    signed: bool,
    out: Seq<u128>,
) -> bool {
    forall|k: nat, i: u128|
        k < out.len() && i < 128 ==> #[trigger] nth_bit(out[k as int], i) == read_bit(
            s,
            w,
            elem_lo(start, value_bits, k),
            elem_hi(start, end, value_bits, k),
            value_bits,
            signed,
            i,
        )
}

/// Bit `i` of the value that reading `[start, end)` out of the single word `w`
/// as a `value_bits`-wide value must produce.
pub open spec fn word_read_bit(
    w: u128,
    start: nat,
    end: nat,
    value_bits: nat,
    signed: bool,
    i: u128,
) -> bool {
    if (i as nat) < selected(start, end) {
        nth_bit(w, (start + i as nat) as u128)
    } else if (i as nat) < value_bits && selected(start, end) > 0 {
        signed && nth_bit(w, (end - 1) as u128)
    } else {
        false
    }
}

/// The three validation rules a range must pass before it is handed to the
/// engine: ordered, in bounds, and no wider than the value type.
pub open spec fn valid_range(start: nat, end: nat, storage_bits: nat, value_bits: nat) -> bool {
    &&& end > start
    &&& start < storage_bits && end <= storage_bits
    &&& end - start <= value_bits
}

} // verus!
