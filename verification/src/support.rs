//! Sample field-value types exercising the conversion traits: a non-zero
//! byte, a wider wrapper narrowed on conversion, a byte annotated with its
//! parity, and a wrapper whose conversions are fallible in shape only.

use crate::conv::UnsafeFrom;
use crate::model::nth_bit;
use vstd::prelude::*;

verus! {

/// A byte known to be non-zero.
#[derive(Clone, Copy, Debug)]
pub struct NonZeroU8 {
    raw: u8,
}

impl NonZeroU8 {
    /// The byte carried.
    pub closed spec fn spec_get(&self) -> u8 {
        self.raw
    }

    /// A value is well formed when its byte is not zero.
    pub open spec fn wf(&self) -> bool {
        self.spec_get() != 0
    }

    /// The byte back.
    pub fn get(&self) -> (v: u8)
        ensures
            v == self.spec_get(),
    {
        self.raw
    }
}

impl TryFrom<u8> for NonZeroU8 {
    type Error = ();

    /// Checked construction: succeeds exactly on non-zero bytes.
    fn try_from(other: u8) -> (r: Result<NonZeroU8, ()>) {
        if other == 0 {
            Err(())
        } else {
            Ok(NonZeroU8 { raw: other })
        }
    }
}

impl vstd::std_specs::convert::TryFromSpecImpl<u8> for NonZeroU8 {
    open spec fn obeys_try_from_spec() -> bool {
        true
    }

    closed spec fn try_from_spec(other: u8) -> Result<NonZeroU8, ()> {
        if other == 0 {
            Err(())
        } else {
            Ok(NonZeroU8 { raw: other })
        }
    }
}

/// The conversion the original leaves unchecked: defined on non-zero bytes
/// only, which stands here as its precondition.
impl UnsafeFrom<u8> for NonZeroU8 {
    open spec fn from_req(v: u8) -> bool {
        v != 0
    }

    open spec fn from_ens(v: u8, r: NonZeroU8) -> bool {
        r.spec_get() == v && r.wf()
    }

    fn unsafe_from(v: u8) -> (r: NonZeroU8) {
        NonZeroU8 { raw: v }
    }
}

impl From<NonZeroU8> for u8 {
    fn from(other: NonZeroU8) -> (r: u8) {
        other.raw
    }
}

impl vstd::std_specs::convert::FromSpecImpl<NonZeroU8> for u8 {
    open spec fn obeys_from_spec() -> bool {
        true
    }

    open spec fn from_spec(other: NonZeroU8) -> u8 {
        other.spec_get()
    }
}

/// A wrapper around `u16` used as a foreign field type with fallible and
/// precondition-carrying conversions into a byte.
#[derive(Clone, Copy, Debug)]
pub struct U16(pub u16);

/// Truncation to the low byte, the lossy conversion the caller opts into.
impl UnsafeFrom<U16> for u8 {
    open spec fn from_req(v: U16) -> bool {
        true
    }

    open spec fn from_ens(v: U16, r: u8) -> bool {
        r == v.0 as u8
    }

    fn unsafe_from(v: U16) -> (r: u8) {
        v.0 as u8
    }
}

impl TryFrom<U16> for u8 {
    type Error = ();

    /// Checked narrowing: succeeds exactly when the value fits a byte.
    fn try_from(other: U16) -> (r: Result<u8, ()>) {
        if other.0 <= 255 {
            Ok(other.0 as u8)
        } else {
            Err(())
        }
    }
}

impl vstd::std_specs::convert::TryFromSpecImpl<U16> for u8 {
    open spec fn obeys_try_from_spec() -> bool {
        true
    }

    open spec fn try_from_spec(other: U16) -> Result<u8, ()> {
        if other.0 <= 255 {
            Ok(other.0 as u8)
        } else {
            Err(())
        }
    }
}

/// How many of the `n` low bits of `x` are set.
pub open spec fn ones_below(x: u8, n: nat) -> nat
    decreases n,
{
    if n == 0 {
        0
    } else {
        ones_below(x, (n - 1) as nat) + if nth_bit(x as u128, (n - 1) as u128) {
            1nat
        } else {
            0nat
        }
    }
}

/// A byte paired with the parity of its set bits, converted infallibly in
/// both directions.
#[derive(Clone, Copy, Debug)]
pub struct U8WithParity {
    /// The byte itself.
    pub raw: u8,
    /// Whether the number of set bits in `raw` is even.
    pub has_even_set_bits: bool,
}

impl From<u8> for U8WithParity {
    fn from(other: u8) -> (r: U8WithParity) {
        let x: u128 = other as u128;
        let mut i: usize = 0;
        let mut even: bool = true;
        while i < 8
            invariant
                i <= 8,
                x == other as u128,
                even == (ones_below(other, i as nat) % 2 == 0),
            decreases 8 - i,
        {
            if (x >> (i as u128)) & 1 == 1 {
                even = !even;
            }
            i += 1;
        }
        U8WithParity { raw: other, has_even_set_bits: even }
    }
}

impl vstd::std_specs::convert::FromSpecImpl<u8> for U8WithParity {
    open spec fn obeys_from_spec() -> bool {
        true
    }

    open spec fn from_spec(other: u8) -> U8WithParity {
        U8WithParity { raw: other, has_even_set_bits: ones_below(other, 8) % 2 == 0 }
    }
}

impl From<U8WithParity> for u8 {
    fn from(other: U8WithParity) -> (r: u8) {
        other.raw
    }
}

impl vstd::std_specs::convert::FromSpecImpl<U8WithParity> for u8 {
    open spec fn obeys_from_spec() -> bool {
        true
    }

    open spec fn from_spec(other: U8WithParity) -> u8 {
        other.raw
    }
}

/// A byte wrapper whose conversions are fallible in shape though they never
/// fail in fact, standing for conversions that could fail on grounds outside
/// the value itself.
#[derive(Clone, Copy, Debug)]
pub struct SpuriouslyFailingU8 {
    raw: u8,
}

impl SpuriouslyFailingU8 {
    /// The byte carried.
    pub closed spec fn spec_get(&self) -> u8 {
        self.raw
    }
}

impl TryFrom<u8> for SpuriouslyFailingU8 {
    type Error = ();

    /// Never fails here; the fallible shape is the point.
    fn try_from(other: u8) -> (r: Result<SpuriouslyFailingU8, ()>) {
        Ok(SpuriouslyFailingU8 { raw: other })
    }
}

impl vstd::std_specs::convert::TryFromSpecImpl<u8> for SpuriouslyFailingU8 {
    open spec fn obeys_try_from_spec() -> bool {
        true
    }

    closed spec fn try_from_spec(other: u8) -> Result<SpuriouslyFailingU8, ()> {
        Ok(SpuriouslyFailingU8 { raw: other })
    }
}

impl TryFrom<SpuriouslyFailingU8> for u8 {
    type Error = ();

    /// Never fails here; the fallible shape is the point.
    fn try_from(other: SpuriouslyFailingU8) -> (r: Result<u8, ()>) {
        Ok(other.raw)
    }
}

impl vstd::std_specs::convert::TryFromSpecImpl<SpuriouslyFailingU8> for u8 {
    open spec fn obeys_try_from_spec() -> bool {
        true
    }

    open spec fn try_from_spec(other: SpuriouslyFailingU8) -> Result<u8, ()> {
        Ok(other.spec_get())
    }
}

impl UnsafeFrom<u8> for SpuriouslyFailingU8 {
    open spec fn from_req(v: u8) -> bool {
        true
    }

    open spec fn from_ens(v: u8, r: SpuriouslyFailingU8) -> bool {
        r.spec_get() == v
    }

    fn unsafe_from(v: u8) -> (r: SpuriouslyFailingU8) {
        SpuriouslyFailingU8 { raw: v }
    }
}

impl UnsafeFrom<SpuriouslyFailingU8> for u8 {
    open spec fn from_req(v: SpuriouslyFailingU8) -> bool {
        true
    }

    open spec fn from_ens(v: SpuriouslyFailingU8, r: u8) -> bool {
        r == v.spec_get()
    }

    fn unsafe_from(v: SpuriouslyFailingU8) -> (r: u8) {
        v.raw
    }
}

} // verus!
