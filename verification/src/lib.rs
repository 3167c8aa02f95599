//! Bit-level field access over fixed-width integer storage.
//!
//! A storage value is a single integer word or an ordered sequence of words
//! treated as one little-endian bit string.  The engine reads or writes an
//! arbitrary contiguous bit range of such a storage as a typed value, with
//! sign or zero extension and exact boundary masking, including ranges that
//! straddle several storage words and values that decompose into several
//! elements.
//!
//! The crate is layered leaves-first:
//! - [`model`] holds the bit-level specification every contract speaks of,
//!   and [`lemmas`] the facts about it that the proofs lean on;
//! - [`word`] holds the per-word primitives: a single bit or a bit range
//!   inside one word;
//! - [`storage`] generalizes them to multi-word storage and multi-element
//!   values, with validation and checked variants;
//! - [`laws`] states and proves the properties that relate the operations;
//! - [`conv`], [`support`] and [`traits`] carry the conversion traits for
//!   typed field values and the bitfield-struct hooks, and [`example`] shows
//!   the accessor methods a field list stands for, built on the engine.

use vstd::prelude::*;

pub mod conv;
pub mod example;
pub mod laws;
pub mod lemmas;
pub mod model;
pub mod storage;
pub mod support;
pub mod traits;
pub mod word;

verus! {

/// The smaller of two lengths.
pub fn min(a: usize, b: usize) -> (r: usize)
    ensures
        r == if a < b {
            a
        } else {
            b
        },
{
    if a < b {
        a
    } else {
        b
    }
}

} // verus!
