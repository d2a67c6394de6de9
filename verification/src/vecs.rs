//! The vector capability: what the iteration engine needs from a scalar type
//! and from a fixed-width vector of such scalars.

use vstd::prelude::*;

verus! {

/// A scalar which can occupy the lanes of a vector.
pub trait Packable: Sized + Copy {
    /// Size of one scalar, in bytes.
    spec fn spec_size() -> nat;

    /// The scalar which a default vector holds in every lane.
    spec fn spec_zero() -> Self;

    /// A scalar occupies at least one byte.
    proof fn lemma_size()
        ensures
            0 < Self::spec_size() <= usize::MAX,
    ;

    /// Return the size of one scalar, in bytes.
    fn size() -> (n: usize)
        ensures
            n == Self::spec_size(),
    ;

    /// Return the scalar which a default vector holds in every lane.
    fn zero() -> (z: Self)
        ensures
            z == Self::spec_zero(),
    ;
}

/// A fixed-width vector of scalars. Its mathematical model is the sequence
/// of its lanes, lane 0 first.
pub trait Packed: Sized + Copy {
    type Scalar: Packable;

    /// Number of lanes of this vector type.
    spec fn spec_width() -> nat;

    /// The lanes of this vector, lane 0 first.
    spec fn lanes(&self) -> Seq<Self::Scalar>;

    /// A vector type has at least one lane.
    proof fn lemma_width()
        ensures
            0 < Self::spec_width() <= usize::MAX,
    ;

    /// Every vector has exactly `spec_width()` lanes.
    proof fn lemma_lanes(&self)
        ensures
            self.lanes().len() == Self::spec_width(),
    ;

    /// Return the number of lanes.
    fn width() -> (w: usize)
        ensures
            w == Self::spec_width(),
    ;

    /// Return a vector with `Scalar::spec_zero()` in every lane.
    fn default() -> (v: Self)
        ensures
            v.lanes() == Seq::new(Self::spec_width(), |i: int| Self::Scalar::spec_zero()),
    ;

    /// Return a vector with `s` in every lane.
    fn splat(s: Self::Scalar) -> (v: Self)
        ensures
            v.lanes() == Seq::new(Self::spec_width(), |i: int| s),
    ;

    /// Load the `spec_width()` scalars of `data` which start at `offset`.
    fn load(data: &[Self::Scalar], offset: usize) -> (v: Self)
        requires
            offset + Self::spec_width() <= data@.len(),
        ensures
            v.lanes() == data@.subrange(offset as int, offset + Self::spec_width()),
    ;

    /// Load the `spec_width()` scalars of `data` which start at `offset`;
    /// the fast path, whose bounds the caller has established.
    fn load_unchecked(data: &[Self::Scalar], offset: usize) -> (v: Self)
        requires
            offset + Self::spec_width() <= data@.len(),
        ensures
            v.lanes() == data@.subrange(offset as int, offset + Self::spec_width()),
    ;

    /// Write the lanes over the `spec_width()` scalars of `data` which start
    /// at `offset`, and leave every other scalar as it was.
    fn store(self, data: &mut [Self::Scalar], offset: usize)
        requires
            offset + Self::spec_width() <= old(data)@.len(),
        ensures
            final(data)@ == splice(old(data)@, offset as int, self.lanes()),
    ;

    /// Write the lanes over the `spec_width()` scalars of `data` which start
    /// at `offset`; the fast path, whose bounds the caller has established.
    fn store_unchecked(self, data: &mut [Self::Scalar], offset: usize)
        requires
            offset + Self::spec_width() <= old(data)@.len(),
        ensures
            final(data)@ == splice(old(data)@, offset as int, self.lanes()),
    ;

    /// Return the scalar in lane `idx`.
    fn extract_unchecked(&self, idx: usize) -> (s: Self::Scalar)
        requires
            idx < Self::spec_width(),
        ensures
            s == self.lanes()[idx as int],
    ;

    /// Return this vector with lane `idx` replaced by `val`.
    fn replace_unchecked(self, idx: usize, val: Self::Scalar) -> (v: Self)
        requires
            idx < Self::spec_width(),
        ensures
            v.lanes() == self.lanes().update(idx as int, val),
    ;

    /// Return a vector whose first `offset` lanes are those of `self` and
    /// whose other lanes are those of `other`.
    fn merge_partitioned(self, other: Self, offset: usize) -> (v: Self)
        requires
            offset <= Self::spec_width(),
        ensures
            v.lanes() == self.lanes().subrange(0, offset as int) + other.lanes().subrange(
                offset as int,
                Self::spec_width() as int,
            ),
    ;
}

/// A scalar together with the vector type that buffers of it are read as.
pub trait Native: Packable {
    type Vector: Packed<Scalar = Self>;
}

/// `s` with the scalars from index `at` on overwritten by `part`.
pub open spec fn splice<S>(s: Seq<S>, at: int, part: Seq<S>) -> Seq<S>
    recommends
        0 <= at,
        at + part.len() <= s.len(),
{
    s.subrange(0, at) + part + s.subrange(at + part.len(), s.len() as int)
}

} // verus!
