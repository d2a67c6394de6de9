//! The scalar round-trip: a stream of vectors written back as contiguous
//! scalars, either exactly or with the padding of the partial vector.

use crate::iters::SIMDIterator;
use crate::model::{collected, collected_all, lemma_collected_len, tail_lanes};
use crate::vecs::{splice, Packable, Packed};
use vstd::prelude::*;

verus! {

/// Store every whole vector of `it` in order from the start of `fill`, then
/// the partial vector so that only its scalars which are not padding stay.
/// Return the number of scalars exported.
fn export_exact<I: SIMDIterator>(it: &mut I, fill: &mut [I::Scalar]) -> (count: usize)
    requires
        old(it).wf(),
        collected(old(it).pending(), old(it).tail()).len() <= old(fill)@.len(),
    ensures
        final(it).wf(),
        final(it).pending().len() == 0,
        final(it).tail() is None,
        final(it).spec_scalar_pos() == final(it).spec_scalar_len(),
        final(it).spec_scalar_len() == old(it).spec_scalar_len(),
        count == collected(old(it).pending(), old(it).tail()).len(),
        final(fill)@ == splice(old(fill)@, 0, collected(old(it).pending(), old(it).tail())),
        forall|k: int|
            0 <= k < old(it).pending().len() + tail_lanes(old(it).tail()).len() ==> old(
                it,
            ).attested(k),
{
    let width = it.width();
    let capacity = fill.len();
    let mut offset: usize = 0;
    let mut lastvec = <I::Vector as Packed>::default();
    let ghost w = <I::Vector as Packed>::spec_width();
    let ghost whole = old(it).pending();
    let ghost tail = old(it).tail();
    let ghost before = old(fill)@;
    let ghost done: Seq<Seq<I::Scalar>> = Seq::empty();
    proof {
        <I::Vector as Packed>::lemma_width();
        it.lemma_shape();
        lemma_collected_len(whole, tail, w);
        assert(done + it.pending() =~= whole);
        assert(done.flatten() =~= Seq::<I::Scalar>::empty());
        assert(fill@ =~= done.flatten() + before.skip(0));
        assert(0 * w == 0) by (nonlinear_arith);
    }
    loop
        invariant
            it.wf(),
            width == w == <I::Vector as Packed>::spec_width(),
            0 < w,
            it.tail() == tail,
            it.spec_scalar_len() == old(it).spec_scalar_len(),
            done + it.pending() == whole,
            offset == done.len() * w,
            forall|k: int| 0 <= k < whole.len() ==> (#[trigger] whole[k]).len() == w,
            fill@.len() == before.len() == capacity,
            whole.len() * w <= collected(whole, tail).len() <= before.len(),
            fill@ == done.flatten() + before.skip(offset as int),
            done.flatten().len() == offset,
            forall|k: int| 0 <= k < done.len() ==> old(it).attested(k),
            forall|k: int| 0 <= k ==> #[trigger] it.attested(k) == old(it).attested(k + done.len()),
            done.len() > 0 ==> lastvec.lanes() == done.last(),
        ensures
            it.wf(),
            width == w == <I::Vector as Packed>::spec_width(),
            0 < w,
            it.tail() == tail,
            it.spec_scalar_len() == old(it).spec_scalar_len(),
            it.pending().len() == 0,
            done == whole,
            offset == done.len() * w,
            fill@.len() == before.len() == capacity,
            fill@ == done.flatten() + before.skip(offset as int),
            done.flatten().len() == offset,
            forall|k: int| 0 <= k < done.len() ==> old(it).attested(k),
            forall|k: int| 0 <= k ==> #[trigger] it.attested(k) == old(it).attested(k + done.len()),
            done.len() > 0 ==> lastvec.lanes() == done.last(),
        decreases it.pending().len(),
    {
        let ghost ahead = it.pending();
        match it.next() {
            Some(vec) => {
                proof {
                    assert(done.len() + ahead.len() == whole.len());
                    assert(done.len() * w + w <= whole.len() * w) by (nonlinear_arith)
                        requires
                            done.len() + 1 <= whole.len(),
                    ;
                    vec.lemma_lanes();
                }
                vec.store_unchecked(fill, offset);
                proof {
                    let grown = done.push(vec.lanes());
                    done.lemma_flatten_push(vec.lanes());
                    assert(grown + it.pending() =~= done + ahead);
                    assert(fill@ =~= grown.flatten() + before.skip(offset + w));
                    assert((done.len() + 1) * w == done.len() * w + w) by (nonlinear_arith);
                    done = grown;
                }
                offset += width;
                lastvec = vec;
            },
            None => {
                proof {
                    assert(done + it.pending() =~= done);
                }
                break ;
            },
        }
    }
    match it.end() {
        Some((p, n)) => {
            proof {
                p.lemma_lanes();
                lastvec.lemma_lanes();
            }
            if offset > 0 {
                // We stored a vector in this buffer; overwrite the unused elements
                p.store_unchecked(fill, offset - n);
                lastvec.store_unchecked(fill, offset - width);
                proof {
                    let init = done.drop_last();
                    init.lemma_flatten_push(done.last());
                    assert(init.push(done.last()) =~= done);
                    assert(fill@ =~= splice(before, 0, collected(whole, tail)));
                }
            } else {
                // The buffer holds no vector yet; store elementwise
                let mut i: usize = 0;
                while i < width - n
                    invariant
                        i <= width - n,
                        offset == 0,
                        n < width == w == <I::Vector as Packed>::spec_width(),
                        p.lanes().len() == w,
                        fill@.len() == before.len() == capacity,
                        w - n <= before.len(),
                        forall|j: int| 0 <= j < i ==> fill@[j] == p.lanes()[j + n],
                        forall|j: int| i <= j < fill@.len() ==> fill@[j] == before[j],
                    decreases width - n - i,
                {
                    fill[offset + i] = p.extract_unchecked(i + n);
                    i += 1;
                }
                proof {
                    assert(fill@ =~= splice(before, 0, collected(whole, tail)));
                }
            }
            offset + (width - n)
        },
        None => {
            proof {
                assert(fill@ =~= splice(before, 0, collected(whole, tail)));
            }
            offset
        },
    }
}

/// Store every whole vector of `it` in order from the start of `fill`, then
/// the partial vector as it is, padding included. Return the number of
/// scalars exported.
fn export_all<I: SIMDIterator>(it: &mut I, fill: &mut [I::Scalar]) -> (count: usize)
    requires
        old(it).wf(),
        collected_all(old(it).pending(), old(it).tail()).len() <= old(fill)@.len(),
    ensures
        final(it).wf(),
        final(it).pending().len() == 0,
        final(it).tail() is None,
        final(it).spec_scalar_pos() == final(it).spec_scalar_len(),
        final(it).spec_scalar_len() == old(it).spec_scalar_len(),
        count == collected_all(old(it).pending(), old(it).tail()).len(),
        final(fill)@ == splice(old(fill)@, 0, collected_all(old(it).pending(), old(it).tail())),
        forall|k: int|
            0 <= k < old(it).pending().len() + tail_lanes(old(it).tail()).len() ==> old(
                it,
            ).attested(k),
{
    let width = it.width();
    let capacity = fill.len();
    let mut offset: usize = 0;
    let ghost w = <I::Vector as Packed>::spec_width();
    let ghost whole = old(it).pending();
    let ghost tail = old(it).tail();
    let ghost before = old(fill)@;
    let ghost done: Seq<Seq<I::Scalar>> = Seq::empty();
    proof {
        <I::Vector as Packed>::lemma_width();
        it.lemma_shape();
        lemma_collected_len(whole, tail, w);
        assert(done + it.pending() =~= whole);
        assert(done.flatten() =~= Seq::<I::Scalar>::empty());
        assert(fill@ =~= done.flatten() + before.skip(0));
        assert(0 * w == 0) by (nonlinear_arith);
    }
    loop
        invariant
            it.wf(),
            width == w == <I::Vector as Packed>::spec_width(),
            0 < w,
            it.tail() == tail,
            it.spec_scalar_len() == old(it).spec_scalar_len(),
            done + it.pending() == whole,
            offset == done.len() * w,
            forall|k: int| 0 <= k < whole.len() ==> (#[trigger] whole[k]).len() == w,
            fill@.len() == before.len() == capacity,
            whole.len() * w <= collected_all(whole, tail).len() <= before.len(),
            fill@ == done.flatten() + before.skip(offset as int),
            done.flatten().len() == offset,
            forall|k: int| 0 <= k < done.len() ==> old(it).attested(k),
            forall|k: int| 0 <= k ==> #[trigger] it.attested(k) == old(it).attested(k + done.len()),
        ensures
            it.wf(),
            width == w == <I::Vector as Packed>::spec_width(),
            0 < w,
            it.tail() == tail,
            it.spec_scalar_len() == old(it).spec_scalar_len(),
            it.pending().len() == 0,
            done == whole,
            offset == done.len() * w,
            fill@.len() == before.len() == capacity,
            fill@ == done.flatten() + before.skip(offset as int),
            done.flatten().len() == offset,
            forall|k: int| 0 <= k < done.len() ==> old(it).attested(k),
            forall|k: int| 0 <= k ==> #[trigger] it.attested(k) == old(it).attested(k + done.len()),
        decreases it.pending().len(),
    {
        let ghost ahead = it.pending();
        match it.next() {
            Some(vec) => {
                proof {
                    assert(done.len() + ahead.len() == whole.len());
                    assert(done.len() * w + w <= whole.len() * w) by (nonlinear_arith)
                        requires
                            done.len() + 1 <= whole.len(),
                    ;
                    vec.lemma_lanes();
                }
                vec.store_unchecked(fill, offset);
                proof {
                    let grown = done.push(vec.lanes());
                    done.lemma_flatten_push(vec.lanes());
                    assert(grown + it.pending() =~= done + ahead);
                    assert(fill@ =~= grown.flatten() + before.skip(offset + w));
                    assert((done.len() + 1) * w == done.len() * w + w) by (nonlinear_arith);
                    done = grown;
                }
                offset += width;
            },
            None => {
                proof {
                    assert(done + it.pending() =~= done);
                }
                break ;
            },
        }
    }
    match it.end() {
        Some((vec, _)) => {
            proof {
                vec.lemma_lanes();
                seq![vec.lanes()].lemma_flatten_singleton();
            }
            vec.store_unchecked(fill, offset);
            proof {
                assert(fill@ =~= splice(before, 0, collected_all(whole, tail)));
            }
            offset + width
        },
        None => {
            proof {
                assert(Seq::<Seq<I::Scalar>>::empty().flatten() =~= Seq::<I::Scalar>::empty());
                assert(fill@ =~= splice(before, 0, collected_all(whole, tail)));
            }
            offset
        },
    }
}

/// A trait which can transform a stream of vectors into a contiguous
/// collection of scalars.
pub trait IntoScalar<T: Packable>: SIMDIterator<Scalar = T> {
    /// Take an iterator of SIMD vectors, and store them in-order in a Vec.
    /// The result holds the lanes of every whole vector and the scalars of
    /// the partial vector which are not padding, and nothing more.
    fn scalar_collect(&mut self) -> (r: Vec<T>)
        requires
            old(self).wf(),
            (old(self).spec_len() + 1) * <Self::Vector as Packed>::spec_width() <= usize::MAX,
        ensures
            final(self).wf(),
            final(self).pending().len() == 0,
            final(self).tail() is None,
            final(self).spec_scalar_pos() == final(self).spec_scalar_len(),
            final(self).spec_scalar_len() == old(self).spec_scalar_len(),
            r@ == collected(old(self).pending(), old(self).tail()),
            forall|k: int|
                0 <= k < old(self).pending().len() + tail_lanes(old(self).tail()).len() ==> old(
                    self,
                ).attested(k),
    {
        proof {
            self.lemma_shape();
            <Self::Vector as Packed>::lemma_width();
            lemma_collected_len(
                self.pending(),
                self.tail(),
                <Self::Vector as Packed>::spec_width(),
            );
            assert(self.pending().len() * <Self::Vector as Packed>::spec_width()
                + <Self::Vector as Packed>::spec_width() <= (self.spec_len() + 1)
                * <Self::Vector as Packed>::spec_width()) by (nonlinear_arith)
                requires
                    self.pending().len() <= self.spec_len(),
            ;
        }
        let vectors = self.len();
        let width = self.width();
        proof {
            assert(vectors + 1 <= (vectors + 1) * width) by (nonlinear_arith)
                requires
                    0 < width,
            ;
        }
        let mut ret: Vec<T> = vec![T::zero(); (vectors + 1) * width];
        let count = export_exact(self, ret.as_mut_slice());
        ret.truncate(count);
        proof {
            assert(ret@ =~= collected(old(self).pending(), old(self).tail()));
        }
        ret
    }

    /// Take an iterator of SIMD vectors and store them in-order in `fill`:
    /// its first scalars become what `scalar_collect` would return, the
    /// others stay as they were.
    fn scalar_fill<'a>(&mut self, fill: &'a mut [T]) -> (r: &'a mut [T])
        requires
            old(self).wf(),
            collected(old(self).pending(), old(self).tail()).len() <= old(fill)@.len(),
        ensures
            final(self).wf(),
            final(self).pending().len() == 0,
            final(self).tail() is None,
            final(self).spec_scalar_pos() == final(self).spec_scalar_len(),
            final(self).spec_scalar_len() == old(self).spec_scalar_len(),
            r@ == splice(old(fill)@, 0, collected(old(self).pending(), old(self).tail())),
            final(fill)@ == final(r)@,
            forall|k: int|
                0 <= k < old(self).pending().len() + tail_lanes(old(self).tail()).len() ==> old(
                    self,
                ).attested(k),
    {
        export_exact(self, fill);
        fill
    }

    /// Take an iterator of SIMD vectors, and store them in-order in a Vec,
    /// including the padding of the partial vector: the result holds the
    /// lanes of every whole vector and every lane of the partial vector.
    fn scalar_collect_all(&mut self) -> (r: Vec<T>)
        requires
            old(self).wf(),
            (old(self).spec_len() + 1) * <Self::Vector as Packed>::spec_width() <= usize::MAX,
        ensures
            final(self).wf(),
            final(self).pending().len() == 0,
            final(self).tail() is None,
            final(self).spec_scalar_pos() == final(self).spec_scalar_len(),
            final(self).spec_scalar_len() == old(self).spec_scalar_len(),
            r@ == collected_all(old(self).pending(), old(self).tail()),
            forall|k: int|
                0 <= k < old(self).pending().len() + tail_lanes(old(self).tail()).len() ==> old(
                    self,
                ).attested(k),
    {
        proof {
            self.lemma_shape();
            <Self::Vector as Packed>::lemma_width();
            lemma_collected_len(
                self.pending(),
                self.tail(),
                <Self::Vector as Packed>::spec_width(),
            );
            assert(self.pending().len() * <Self::Vector as Packed>::spec_width()
                + <Self::Vector as Packed>::spec_width() <= (self.spec_len() + 1)
                * <Self::Vector as Packed>::spec_width()) by (nonlinear_arith)
                requires
                    self.pending().len() <= self.spec_len(),
            ;
        }
        let vectors = self.len();
        let width = self.width();
        proof {
            assert(vectors + 1 <= (vectors + 1) * width) by (nonlinear_arith)
                requires
                    0 < width,
            ;
        }
        let mut ret: Vec<T> = vec![T::zero(); (vectors + 1) * width];
        let count = export_all(self, ret.as_mut_slice());
        ret.truncate(count);
        proof {
            assert(ret@ =~= collected_all(old(self).pending(), old(self).tail()));
        }
        ret
    }

    /// Take an iterator of SIMD vectors and store them in-order in `fill`,
    /// including the padding of the partial vector: its first scalars
    /// become what `scalar_collect_all` would return, the others stay as
    /// they were.
    fn scalar_fill_all<'a>(&mut self, fill: &'a mut [T]) -> (r: &'a mut [T])
        requires
            old(self).wf(),
            collected_all(old(self).pending(), old(self).tail()).len() <= old(fill)@.len(),
        ensures
            final(self).wf(),
            final(self).pending().len() == 0,
            final(self).tail() is None,
            final(self).spec_scalar_pos() == final(self).spec_scalar_len(),
            final(self).spec_scalar_len() == old(self).spec_scalar_len(),
            r@ == splice(old(fill)@, 0, collected_all(old(self).pending(), old(self).tail())),
            final(fill)@ == final(r)@,
            forall|k: int|
                0 <= k < old(self).pending().len() + tail_lanes(old(self).tail()).len() ==> old(
                    self,
                ).attested(k),
    {
        export_all(self, fill);
        fill
    }
}

impl<T: Packable, I: SIMDIterator<Scalar = T>> IntoScalar<T> for I {

}

} // verus!
