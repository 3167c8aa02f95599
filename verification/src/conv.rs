//! Conversion traits for field values, and the bounds of raw discriminant
//! ranges.
//!
//! A field read or written through the engine often carries a typed value
//! whose conversion from or to its raw bits can fail, or is only defined
//! under a precondition.  [`Try`] abstracts the fallible result shape;
//! [`UnsafeFrom`] and [`UnsafeInto`] are conversions whose defining
//! precondition is stated as a contract instead of being left to the caller's
//! discipline.

use crate::lemmas::lemma_shl1_pow2;
use vstd::arithmetic::power2::{lemma2_to64, lemma2_to64_rest, lemma_pow2_adds, lemma_pow2_pos, pow2};
use vstd::prelude::*;

verus! {

/// A fallible result shape that can be rebuilt around a bare output value.
pub trait Try: Sized {
    /// The value carried in the success case.
    type Output;

    /// What wrapping `output` in the success case yields.
    spec fn output_ens(output: Self::Output, r: Self) -> bool;

    /// Wraps a bare output value in the success case of the shape.
    fn from_output(output: Self::Output) -> (r: Self)
        ensures
            Self::output_ens(output, r),
    ;
}

impl<T> Try for Option<T> {
    type Output = T;

    open spec fn output_ens(output: T, r: Option<T>) -> bool {
        r == Some(output)
    }

    fn from_output(output: T) -> (r: Option<T>) {
        Some(output)
    }
}

impl<T, E> Try for Result<T, E> {
    type Output = T;

    open spec fn output_ens(output: T, r: Result<T, E>) -> bool {
        r == Ok::<T, E>(output)
    }

    fn from_output(output: T) -> (r: Result<T, E>) {
        Ok(output)
    }
}

/// A perfect value-to-value conversion that is only defined under a
/// precondition, stated here as the method's contract; it is the reciprocal
/// of [`UnsafeInto`].
///
/// Prefer implementing `UnsafeFrom`: the blanket implementation then provides
/// [`UnsafeInto`] in the other direction.
pub trait UnsafeFrom<T>: Sized {
    /// The inputs on which the conversion is defined.
    spec fn from_req(t: T) -> bool;

    /// What the conversion returns.
    spec fn from_ens(t: T, r: Self) -> bool;

    /// Converts to this type, consuming the input value.
    fn unsafe_from(t: T) -> (r: Self)
        requires
            Self::from_req(t),
        ensures
            Self::from_ens(t, r),
    ;
}

/// A perfect value-to-value conversion that is only defined under a
/// precondition; the reciprocal of [`UnsafeFrom`], and the preferred bound on
/// generic arguments.
pub trait UnsafeInto<T>: Sized {
    /// The inputs on which the conversion is defined.
    spec fn into_req(self) -> bool;

    /// What the conversion returns.
    spec fn into_ens(self, r: T) -> bool;

    /// Converts this value into the target type, consuming it.
    fn unsafe_into(self) -> (r: T)
        requires
            self.into_req(),
        ensures
            self.into_ens(r),
    ;
}

/// `UnsafeFrom<T> for U` implies `UnsafeInto<U> for T`.
impl<T, U: UnsafeFrom<T>> UnsafeInto<U> for T {
    open spec fn into_req(self) -> bool {
        U::from_req(self)
    }

    open spec fn into_ens(self, r: U) -> bool {
        U::from_ens(self, r)
    }

    fn unsafe_into(self) -> (r: U) {
        U::unsafe_from(self)
    }
}

/// The inclusive bounds of the two's-complement range of a `bits`-wide
/// signed discriminant: `-2^(bits-1)` to `2^(bits-1) - 1`.
pub fn signed_bounds(bits: u8) -> (r: (i128, i128))
    requires
        1 <= bits <= 128,
    ensures
        r.0 == -(pow2((bits - 1) as nat) as int),
        r.1 == pow2((bits - 1) as nat) - 1,
{
    if bits == 128 {
        proof {
            lemma_pow2_adds(64, 63);
            lemma2_to64();
            lemma2_to64_rest();
            assert(pow2(64) * pow2(63) == 0x8000_0000_0000_0000_0000_0000_0000_0000)
                by (nonlinear_arith)
                requires
                    pow2(64) == 0x1_0000_0000_0000_0000 && pow2(63) == 0x8000_0000_0000_0000,
            ;
        }
        (i128::MIN, i128::MAX)
    } else {
        let sh: u128 = (bits - 1) as u128;
        let p: u128 = 1u128 << sh;
        proof {
            lemma_shl1_pow2((bits - 1) as nat);
            assert(p == pow2((bits - 1) as nat));
            assert(1u128 << sh <= 0x4000_0000_0000_0000_0000_0000_0000_0000u128) by (bit_vector)
                requires
                    sh <= 126,
            ;
        }
        (-(p as i128), (p as i128) - 1)
    }
}

/// The largest value of a `bits`-wide unsigned discriminant: `2^bits - 1`.
pub fn unsigned_bound(bits: u8) -> (r: u128)
    requires
        1 <= bits <= 128,
    ensures
        r == pow2(bits as nat) - 1,
{
    if bits == 128 {
        proof {
            lemma_pow2_adds(64, 64);
            lemma2_to64();
            assert(pow2(64) * pow2(64) == 0x1_0000_0000_0000_0000_0000_0000_0000_0000)
                by (nonlinear_arith)
                requires
                    pow2(64) == 0x1_0000_0000_0000_0000,
            ;
        }
        u128::MAX
    } else {
        let sh: u128 = bits as u128;
        let p: u128 = 1u128 << sh;
        proof {
            lemma_shl1_pow2(bits as nat);
            lemma_pow2_pos(bits as nat);
        }
        p - 1
    }
}

} // verus!
