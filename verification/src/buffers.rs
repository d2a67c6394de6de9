//! Contiguous buffers as random-access blobs: growable vectors, slices and
//! mutable slices of scalars.

use crate::iters::{SIMDArray, SIMDArrayMut, SIMDObject, SIMDSized};
use crate::vecs::{Native, Packed};
use vstd::prelude::*;

verus! {

impl<'a, S: Native> SIMDObject for &'a [S] {
    type Scalar = S;

    type Vector = S::Vector;

    open spec fn wf(&self) -> bool {
        true
    }
}

impl<'a, S: Native> SIMDSized for &'a [S] {
    open spec fn spec_scalar_len(&self) -> nat {
        self@.len()
    }

    fn scalar_len(&self) -> (n: usize) {
        self.len()
    }
}

impl<'a, S: Native> SIMDArray for &'a [S] {
    open spec fn scalars(&self) -> Seq<S> {
        self@
    }

    proof fn lemma_scalars(&self) {
    }

    fn load(&self, offset: usize) -> (v: S::Vector) {
        <S::Vector as Packed>::load(self, offset)
    }

    fn load_unchecked(&self, offset: usize) -> (v: S::Vector) {
        <S::Vector as Packed>::load_unchecked(self, offset)
    }

    fn load_scalar(&self, offset: usize) -> (s: S) {
        self[offset]
    }

    fn load_scalar_unchecked(&self, offset: usize) -> (s: S) {
        self[offset]
    }
}

impl<S: Native> SIMDObject for Vec<S> {
    type Scalar = S;

    type Vector = S::Vector;

    open spec fn wf(&self) -> bool {
        true
    }
}

impl<S: Native> SIMDSized for Vec<S> {
    open spec fn spec_scalar_len(&self) -> nat {
        self@.len()
    }

    fn scalar_len(&self) -> (n: usize) {
        self.len()
    }
}

impl<S: Native> SIMDArray for Vec<S> {
    open spec fn scalars(&self) -> Seq<S> {
        self@
    }

    proof fn lemma_scalars(&self) {
    }

    fn load(&self, offset: usize) -> (v: S::Vector) {
        <S::Vector as Packed>::load(self.as_slice(), offset)
    }

    fn load_unchecked(&self, offset: usize) -> (v: S::Vector) {
        <S::Vector as Packed>::load_unchecked(self.as_slice(), offset)
    }

    fn load_scalar(&self, offset: usize) -> (s: S) {
        self[offset]
    }

    fn load_scalar_unchecked(&self, offset: usize) -> (s: S) {
        self[offset]
    }
}

impl<'a, S: Native> SIMDObject for &'a mut [S] {
    type Scalar = S;

    type Vector = S::Vector;

    open spec fn wf(&self) -> bool {
        true
    }
}

impl<'a, S: Native> SIMDSized for &'a mut [S] {
    open spec fn spec_scalar_len(&self) -> nat {
        self@.len()
    }

    fn scalar_len(&self) -> (n: usize) {
        self.len()
    }
}

impl<'a, S: Native> SIMDArray for &'a mut [S] {
    open spec fn scalars(&self) -> Seq<S> {
        self@
    }

    proof fn lemma_scalars(&self) {
    }

    fn load(&self, offset: usize) -> (v: S::Vector) {
        <S::Vector as Packed>::load(self, offset)
    }

    fn load_unchecked(&self, offset: usize) -> (v: S::Vector) {
        <S::Vector as Packed>::load_unchecked(self, offset)
    }

    fn load_scalar(&self, offset: usize) -> (s: S) {
        self[offset]
    }

    fn load_scalar_unchecked(&self, offset: usize) -> (s: S) {
        self[offset]
    }
}

impl<'a, S: Native> SIMDArrayMut for &'a mut [S] {
    fn store(&mut self, value: S::Vector, offset: usize) {
        proof {
            value.lemma_lanes();
        }
        value.store(self, offset)
    }

    fn store_unchecked(&mut self, value: S::Vector, offset: usize) {
        proof {
            value.lemma_lanes();
        }
        value.store_unchecked(self, offset)
    }

    fn store_scalar(&mut self, value: S, offset: usize) {
        self[offset] = value;
    }

    fn store_scalar_unchecked(&mut self, value: S, offset: usize) {
        self[offset] = value;
    }
}

} // verus!
