//! Index types to operate on primary and secondary entity data structures.

use std::marker::PhantomData;
use vstd::prelude::*;

verus! {

/// The raw index of an entity.
///
/// Every value below `u32::MAX` is a raw index; `u32::MAX` itself is reserved
/// as the invalid sentinel and never stored.
#[derive(Copy, Clone, Debug, PartialEq, Eq, Structural, PartialOrd, Ord, Hash)]
pub struct RawIdx {
    index: u32,
}

impl RawIdx {
    #[verifier::type_invariant]
    spec fn inv(self) -> bool {
        self.index < u32::MAX
    }

    /// The `u32` value this raw index stands for.
    pub closed spec fn value(self) -> u32 {
        self.index
    }

    /// Constructs a raw index from an `u32` value.
    ///
    /// The reserved value `u32::MAX` is excluded.
    pub fn from_u32(index: u32) -> (raw: Self)
        requires
            index != u32::MAX,
        ensures
            raw.value() == index,
    {
        Self { index }
    }

    /// Converts the raw index into its underlying `u32` value.
    pub fn into_u32(self) -> (index: u32)
        ensures
            index == self.value(),
            index < u32::MAX,
    {
        proof {
            use_type_invariant(self);
        }
        self.index
    }

    /// Two raw indices with the same value are the same raw index.
    pub proof fn lemma_value_injective(a: Self, b: Self)
        requires
            a.value() == b.value(),
        ensures
            a == b,
    {
    }
}

/// Types that are thin wrappers around a 32-bit index.
///
/// Secondary maps are keyed by such types and store only the raw `u32`.
pub trait Index32: Copy {
    /// The 32-bit index the value stands for.
    spec fn index(self) -> u32;

    /// Creates the value that stands for the given index.
    fn from_u32(index: u32) -> (key: Self)
        requires
            index != u32::MAX,
        ensures
            key.index() == index,
    ;

    /// Returns the index the value stands for.
    fn into_u32(self) -> (index: u32)
        ensures
            index == self.index(),
            index < u32::MAX,
    ;

    /// A value is determined by its index.
    proof fn lemma_index_injective(a: Self, b: Self)
        requires
            a.index() == b.index(),
        ensures
            a == b,
    ;
}

/// The index of an entity allocated in an entity arena that holds `T`s.
#[derive(Debug, Hash)]
pub struct Idx<T> {
    raw: RawIdx,
    marker: PhantomData<T>,
}

impl<T> Idx<T> {
    /// The raw index behind this index.
    pub closed spec fn raw(self) -> RawIdx {
        self.raw
    }

    /// Creates a new index from a [`RawIdx`].
    pub fn from_raw(raw: RawIdx) -> (idx: Self)
        ensures
            idx.raw() == raw,
    {
        Idx { raw, marker: PhantomData }
    }

    /// Converts this index into the underlying [`RawIdx`].
    pub fn into_raw(self) -> (raw: RawIdx)
        ensures
            raw == self.raw(),
    {
        self.raw
    }

    /// The index with the given 32-bit index.
    pub closed spec fn at(index: u32) -> Self {
        Idx { raw: RawIdx { index }, marker: PhantomData }
    }

    /// The index at a 32-bit index has that index.
    pub proof fn lemma_at(index: u32)
        ensures
            Self::at(index).raw().value() == index,
    {
    }

    /// An index is determined by its 32-bit index.
    pub proof fn lemma_same_index(a: Self, b: Self)
        requires
            a.raw().value() == b.raw().value(),
        ensures
            a == b,
    {
        RawIdx::lemma_value_injective(a.raw(), b.raw());
    }

    /// Two indices with the same raw index are the same index.
    pub proof fn lemma_raw_injective(a: Self, b: Self)
        requires
            a.raw() == b.raw(),
        ensures
            a == b,
    {
    }
}

impl<T> Clone for Idx<T> {
    fn clone(&self) -> (idx: Self)
        ensures
            idx == *self,
    {
        *self
    }
}

impl<T> Copy for Idx<T> {

}

impl<T> PartialEq for Idx<T> {
    fn eq(&self, other: &Idx<T>) -> (equal: bool) {
        self.raw == other.raw
    }
}

impl<T> Eq for Idx<T> {

}

impl<T> vstd::std_specs::cmp::PartialEqSpecImpl for Idx<T> {
    open spec fn obeys_eq_spec() -> bool {
        true
    }

    open spec fn eq_spec(&self, other: &Idx<T>) -> bool {
        *self == *other
    }
}

impl<T> Index32 for Idx<T> {
    open spec fn index(self) -> u32 {
        self.raw().value()
    }

    fn from_u32(index: u32) -> (key: Self) {
        Idx::from_raw(RawIdx::from_u32(index))
    }

    fn into_u32(self) -> (index: u32) {
        self.raw.into_u32()
    }

    proof fn lemma_index_injective(a: Self, b: Self) {
        RawIdx::lemma_value_injective(a.raw(), b.raw());
        Self::lemma_raw_injective(a, b);
    }
}

} // verus!
