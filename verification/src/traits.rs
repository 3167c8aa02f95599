//! The bitfield struct traits: what a bitfield type declares about itself,
//! and the hooks that nested bitfield fields are built from.

use vstd::prelude::*;

verus! {

/// A bitfield struct: a typed wrapper around one storage value.
pub trait Bitfield {
    /// The storage the bitfield wraps.
    type Storage;
}

/// A read-only nested bitfield view, built over a borrowed parent storage.
pub trait NestedBitfield<'a, S>: Sized {
    /// Builds the view over the given storage.
    fn __from_storage(storage: &'a S) -> Self;
}

/// A mutable nested bitfield view, built over a mutably borrowed parent
/// storage.
pub trait NestedMutBitfield<'a, S>: Sized {
    /// Builds the view over the given storage.
    fn __from_storage(storage: &'a mut S) -> Self;
}

/// A write-only nested bitfield view, built over a mutably borrowed parent
/// storage.
pub trait NestedWriteBitfield<'a, S>: Sized {
    /// Builds the view over the given storage.
    fn __from_storage(storage: &'a mut S) -> Self;
}

/// A field type that can be read as a nested bitfield of the bit range
/// `[START, END)` of a storage `S`.
pub trait NestableBitfield<S, const START: usize, const END: usize> {
    /// The view type the accessor hands out.
    type Nested<'a>: NestedBitfield<'a, S> where S: 'a;
}

/// A field type whose nested bitfield over `[START, END)` of `S` can also be
/// written through.
pub trait NestableMutBitfield<S, const START: usize, const END: usize> {
    /// The view type the accessor hands out.
    type NestedMut<'a>: NestedMutBitfield<'a, S> where S: 'a;
}

/// A field type whose nested bitfield over `[START, END)` of `S` is written
/// but not read.
pub trait NestableWriteBitfield<S, const START: usize, const END: usize> {
    /// The view type the accessor hands out.
    type NestedWrite<'a>: NestedWriteBitfield<'a, S> where S: 'a;
}

} // verus!
