//! Bit-vector facts behind the word primitives.
//!
//! Each lemma characterizes, bit by bit, one of the shift-and-mask expressions
//! the executable code uses, so that the loop invariants and contracts can be
//! stated pointwise over [`crate::model::nth_bit`].

use crate::model::{low_mask, nth_bit, seq_bit};
use vstd::arithmetic::div_mod::{
    lemma_fundamental_div_mod, lemma_fundamental_div_mod_converse, lemma_mod_bound,
};
use vstd::arithmetic::mul::{lemma_mul_inequality, lemma_mul_is_commutative};
use vstd::arithmetic::power2::{
    lemma2_to64, lemma_pow2_adds, lemma_pow2_strictly_increases, lemma_pow2_unfold, pow2,
};
use vstd::prelude::*;

verus! {

/// The zero pattern has no set bits.
pub proof fn lemma_zero_bit(i: u128)
    by (bit_vector)
    requires
        i < 128,
    ensures
        !nth_bit(0u128, i),
{
}

/// A pattern that fits below `width` has no set bit at or above `width`.
pub proof fn lemma_fits_bit(x: u128, width: u128, i: u128)
    by (bit_vector)
    requires
        width <= i < 128,
        x >> width == 0,
    ensures
        !nth_bit(x, i),
{
}

/// Bit `i` of `x >> sh` is bit `sh + i` of `x`.
pub proof fn lemma_shr_bit(x: u128, sh: u128, i: u128)
    by (bit_vector)
    requires
        sh + i < 128,
    ensures
        nth_bit(x >> sh, i) == nth_bit(x, vstd::prelude::add(sh, i)),
{
}

/// Bit `i` of `a | b` is the disjunction of the operands' bits `i`.
pub proof fn lemma_or_bit(a: u128, b: u128, i: u128)
    by (bit_vector)
    requires
        i < 128,
    ensures
        nth_bit(a | b, i) == (nth_bit(a, i) || nth_bit(b, i)),
{
}

/// Bit `i` of `x << sh` is bit `i - sh` of `x`, and zero below `sh`.
pub proof fn lemma_shl_bit(x: u128, sh: u128, i: u128)
    by (bit_vector)
    requires
        i < 128,
        sh < 128,
    ensures
        nth_bit(x << sh, i) == (i >= sh && nth_bit(x, vstd::prelude::sub(i, sh))),
{
}

/// Bit `p` of a `w`-wide word sequence lies in word `p / w` at intra-word
/// offset `p % w == p - (p / w) * w`.
pub proof fn lemma_bit_to_word(s: Seq<u128>, w: nat, p: nat)
    requires
        1 <= w <= 128,
        p < s.len() * w,
    ensures
        ({
            let j = p / w;
            &&& j < s.len()
            &&& j * w <= p < j * w + w
            &&& p % w == p - j * w
            &&& seq_bit(s, w, p) == nth_bit(s[j as int], (p - j * w) as u128)
        }),
{
    let j = p / w;
    lemma_fundamental_div_mod(p as int, w as int);
    lemma_mod_bound(p as int, w as int);
    lemma_mul_is_commutative(j as int, w as int);
    if j >= s.len() {
        lemma_mul_inequality(s.len() as int, j as int, w as int);
    }
}

/// Bit `b` of word `j` of a `w`-wide word sequence is bit `j * w + b` of the
/// sequence.
pub proof fn lemma_word_to_bit(s: Seq<u128>, w: nat, j: nat, b: nat)
    requires
        1 <= w <= 128,
        j < s.len(),
        b < w,
    ensures
        (j * w + b) / w == j,
        (j * w + b) % w == b,
        j * w + b < s.len() * w,
        seq_bit(s, w, j * w + b) == nth_bit(s[j as int], b as u128),
{
    lemma_fundamental_div_mod_converse((j * w + b) as int, w as int, j as int, b as int);
    lemma_mul_inequality(j as int + 1, s.len() as int, w as int);
    assert((j + 1) * w == j * w + w) by (nonlinear_arith);
}

/// Splicing `v` into bits `[start, start + sel)` of a `width`-bit word `w`
/// replaces exactly those bits with the low `sel` bits of `v`, keeps every
/// other bit of `w`, and stays inside `width` bits.
#[verifier::rlimit(60)]
pub proof fn lemma_splice_bit(w: u128, v: u128, start: u128, sel: u128, width: u128, i: u128)
    by (bit_vector)
    requires
        1 <= sel,
        start + sel <= width,
        width <= 128,
        i < 128,
        width < 128 ==> w >> width == 0,
    ensures
        ({
            let m = low_mask(sel) << start;
            let r = (w & !m) | ((v << start) & m);
            &&& nth_bit(r, i) == if start <= i < start + sel {
                nth_bit(v, vstd::prelude::sub(i, start))
            } else {
                nth_bit(w, i)
            }
            &&& width < 128 ==> r >> width == 0
        }),
{
}

/// The double shift `(x << (128 - sel)) >> (128 - sel)` keeps the low `sel`
/// bits of `x` and clears everything above them.
pub proof fn lemma_extend_unsigned(x: u128, sel: u128, i: u128)
    by (bit_vector)
    requires
        1 <= sel <= 128,
        i < 128,
    ensures
        ({
            let r = (x << vstd::prelude::sub(128, sel)) >> vstd::prelude::sub(128, sel);
            &&& nth_bit(r, i) == (i < sel && nth_bit(x, i))
            &&& sel < 128 ==> r >> sel == 0
        }),
{
}

/// The arithmetic double shift through `i128`, masked to `value_bits`, keeps
/// the low `sel` bits of `x`, replicates bit `sel - 1` up to `value_bits`,
/// and clears everything above.
pub proof fn lemma_extend_signed(x: u128, sel: u128, value_bits: u128, i: u128)
    by (bit_vector)
    requires
        1 <= sel <= value_bits,
        value_bits <= 128,
        i < 128,
    ensures
        ({
            let r = ((((x << vstd::prelude::sub(128, sel)) as i128) >> vstd::prelude::sub(128, sel)) as u128) & low_mask(
                value_bits,
            );
            &&& nth_bit(r, i) == if i < sel {
                nth_bit(x, i)
            } else if i < value_bits {
                nth_bit(x, vstd::prelude::sub(sel, 1))
            } else {
                false
            }
            &&& value_bits < 128 ==> r >> value_bits == 0
        }),
{
}

/// Setting or clearing the single bit `at` of a `width`-bit word `w` changes
/// that bit alone and stays inside `width` bits.
pub proof fn lemma_single_bit(w: u128, at: u128, v: bool, width: u128, i: u128)
    by (bit_vector)
    requires
        at < width,
        width <= 128,
        i < 128,
        width < 128 ==> w >> width == 0,
    ensures
        ({
            let r = (w & !(1u128 << at)) | ((if v {
                1u128
            } else {
                0u128
            }) << at);
            &&& nth_bit(r, i) == if i == at {
                v
            } else {
                nth_bit(w, i)
            }
            &&& width < 128 ==> r >> width == 0
        }),
{
}

/// Two patterns that agree on their `n` low bits and on bit `n` agree on
/// their `n + 1` low bits.
proof fn lemma_ext_step(a: u128, b: u128, n: u128)
    by (bit_vector)
    requires
        n < 128,
        a & low_mask(n) == b & low_mask(n),
        nth_bit(a, n) == nth_bit(b, n),
    ensures
        a & low_mask(vstd::prelude::add(n, 1)) == b & low_mask(vstd::prelude::add(n, 1)),
{
}

/// Patterns that agree on their `n` low bits, bitwise.
proof fn lemma_ext_upto(a: u128, b: u128, n: u128)
    requires
        n <= 128,
        forall|i: u128| i < n ==> nth_bit(a, i) == nth_bit(b, i),
    ensures
        a & low_mask(n) == b & low_mask(n),
    decreases n,
{
    if n == 0 {
        assert(a & low_mask(0) == b & low_mask(0)) by (bit_vector);
    } else {
        lemma_ext_upto(a, b, (n - 1) as u128);
        lemma_ext_step(a, b, (n - 1) as u128);
    }
}

/// `1 << n` is two to the `n`.
pub proof fn lemma_shl1_pow2(n: nat)
    requires
        n < 128,
    ensures
        (1u128 << (n as u128)) == pow2(n),
    decreases n,
{
    if n == 0 {
        assert(1u128 << 0u128 == 1) by (bit_vector);
        lemma2_to64();
    } else {
        lemma_shl1_pow2((n - 1) as nat);
        let m = n as u128;
        assert(1u128 << m == vstd::prelude::mul(1u128 << vstd::prelude::sub(m, 1), 2))
            by (bit_vector)
            requires
                1 <= m < 128,
        ;
        lemma_pow2_unfold(n);
        lemma_pow2_strictly_increases(n, 128);
        lemma_pow2_adds(64, 64);
        lemma2_to64();
    }
}

/// Two patterns with the same bits are the same pattern.
pub proof fn lemma_bit_ext(a: u128, b: u128)
    requires
        forall|i: u128| i < 128 ==> nth_bit(a, i) == nth_bit(b, i),
    ensures
        a == b,
{
    lemma_ext_upto(a, b, 128);
    assert(a == b) by (bit_vector)
        requires
            a & low_mask(128) == b & low_mask(128),
    ;
}

} // verus!
