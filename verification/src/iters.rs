//! The capability hierarchy: what it means to be an object that can be read
//! as vectors, and the protocol by which a producer hands out whole vectors
//! and then, once, its partial last vector.

use crate::model::{consumer, folds_to, mutator, reducer, rewritten, tail_lanes, visited};
use crate::simd_map::SIMDMap;
use crate::unroll::{Unpacked, Unrolled};
use crate::vecs::{Packable, Packed};
use vstd::prelude::*;

verus! {

/// An object made of scalars of one type, read as vectors of one type.
pub trait SIMDObject: Sized {
    type Scalar: Packable;

    type Vector: Packed<Scalar = Self::Scalar>;

    /// Whether this object is in a state which its operations accept.
    spec fn wf(&self) -> bool;

    /// Return the vector length of this object.
    fn width(&self) -> (w: usize)
        ensures
            w == <Self::Vector as Packed>::spec_width(),
    {
        <Self::Vector as Packed>::width()
    }

    /// Return the scalar size of this object.
    fn size(&self) -> (n: usize)
        ensures
            n == <Self::Scalar as Packable>::spec_size(),
    {
        <Self::Scalar as Packable>::size()
    }
}

/// A sized blob of primitive data.
pub trait SIMDSized: SIMDObject {
    /// Length of this object, measured in scalars.
    spec fn spec_scalar_len(&self) -> nat;

    /// Return the length of this object, measured in scalars.
    fn scalar_len(&self) -> (n: usize)
        requires
            self.wf(),
        ensures
            n == self.spec_scalar_len(),
    ;

    /// Return the length of this object, measured in whole vectors.
    fn vector_len(&self) -> (n: usize)
        requires
            self.wf(),
        ensures
            n == self.spec_scalar_len() / <Self::Vector as Packed>::spec_width(),
    {
        proof {
            <Self::Vector as Packed>::lemma_width();
        }
        self.scalar_len() / self.width()
    }
}

/// A random-access blob of data which can be loaded as vectors.
pub trait SIMDArray: SIMDObject + SIMDSized {
    /// The scalars of this blob, in order.
    spec fn scalars(&self) -> Seq<Self::Scalar>;

    /// The blob holds as many scalars as its length says.
    proof fn lemma_scalars(&self)
        requires
            self.wf(),
        ensures
            self.scalars().len() == self.spec_scalar_len(),
    ;

    /// Load the vector whose first lane is the scalar at `offset`.
    fn load(&self, offset: usize) -> (v: Self::Vector)
        requires
            self.wf(),
            offset + <Self::Vector as Packed>::spec_width() <= self.spec_scalar_len(),
        ensures
            v.lanes() == self.scalars().subrange(
                offset as int,
                offset + <Self::Vector as Packed>::spec_width(),
            ),
    ;

    /// Load the vector whose first lane is the scalar at `offset`; the fast
    /// path, whose bounds the caller has established.
    fn load_unchecked(&self, offset: usize) -> (v: Self::Vector)
        requires
            self.wf(),
            offset + <Self::Vector as Packed>::spec_width() <= self.spec_scalar_len(),
        ensures
            v.lanes() == self.scalars().subrange(
                offset as int,
                offset + <Self::Vector as Packed>::spec_width(),
            ),
    ;

    /// Load the scalar at `offset`.
    fn load_scalar(&self, offset: usize) -> (s: Self::Scalar)
        requires
            self.wf(),
            offset < self.spec_scalar_len(),
        ensures
            s == self.scalars()[offset as int],
    ;

    /// Load the scalar at `offset`; the fast path, whose bounds the caller
    /// has established.
    fn load_scalar_unchecked(&self, offset: usize) -> (s: Self::Scalar)
        requires
            self.wf(),
            offset < self.spec_scalar_len(),
        ensures
            s == self.scalars()[offset as int],
    ;
}

/// A random-access mutable blob of data which can be loaded and stored to
/// as vectors.
pub trait SIMDArrayMut: SIMDArray {
    /// Write the lanes of `value` over the scalars from `offset` on.
    fn store(&mut self, value: Self::Vector, offset: usize)
        requires
            old(self).wf(),
            offset + <Self::Vector as Packed>::spec_width() <= old(self).spec_scalar_len(),
        ensures
            final(self).wf(),
            final(self).spec_scalar_len() == old(self).spec_scalar_len(),
            final(self).scalars() == crate::vecs::splice(
                old(self).scalars(),
                offset as int,
                value.lanes(),
            ),
    ;

    /// Write the lanes of `value` over the scalars from `offset` on; the
    /// fast path, whose bounds the caller has established.
    fn store_unchecked(&mut self, value: Self::Vector, offset: usize)
        requires
            old(self).wf(),
            offset + <Self::Vector as Packed>::spec_width() <= old(self).spec_scalar_len(),
        ensures
            final(self).wf(),
            final(self).spec_scalar_len() == old(self).spec_scalar_len(),
            final(self).scalars() == crate::vecs::splice(
                old(self).scalars(),
                offset as int,
                value.lanes(),
            ),
    ;

    /// Write `value` over the scalar at `offset`.
    fn store_scalar(&mut self, value: Self::Scalar, offset: usize)
        requires
            old(self).wf(),
            offset < old(self).spec_scalar_len(),
        ensures
            final(self).wf(),
            final(self).spec_scalar_len() == old(self).spec_scalar_len(),
            final(self).scalars() == old(self).scalars().update(offset as int, value),
    ;

    /// Write `value` over the scalar at `offset`; the fast path, whose
    /// bounds the caller has established.
    fn store_scalar_unchecked(&mut self, value: Self::Scalar, offset: usize)
        requires
            old(self).wf(),
            offset < old(self).spec_scalar_len(),
        ensures
            final(self).wf(),
            final(self).spec_scalar_len() == old(self).spec_scalar_len(),
            final(self).scalars() == old(self).scalars().update(offset as int, value),
    ;
}

/// A producer of vectors: it keeps a cursor, hands out the whole vectors
/// ahead of the cursor one by one, and knows the partial vector that
/// follows them.
pub trait SIMDIterable: SIMDObject + SIMDSized {
    /// The position of the cursor, measured in scalars.
    spec fn spec_scalar_pos(&self) -> nat;

    /// The number of vectors which `len` reports.
    spec fn spec_len(&self) -> nat;

    /// The lanes of the default vector, which pads partial vectors.
    spec fn padding(&self) -> Seq<Self::Scalar>;

    /// The lanes of the whole vectors which `next` has yet to hand out, in
    /// the order in which it will.
    spec fn pending(&self) -> Seq<Seq<Self::Scalar>>;

    /// The partial vector which follows the pending ones, if there is one:
    /// its lanes and the number of its empty lanes.
    spec fn tail(&self) -> Option<(Seq<Self::Scalar>, nat)>;

    /// Whether the functions which this producer applies are known to
    /// return on the `k`-th vector to come, where the partial vector counts
    /// as the one after the pending ones. Of a producer over plain data this
    /// holds of every vector. A producer which applies a function describes
    /// its vectors as what the function makes of them; that the function
    /// returns on a given vector is learnt when it is called, so the
    /// operations which hand out vectors state this of each vector which
    /// they have handed out.
    spec fn attested(&self, k: int) -> bool;

    /// Whether the cursor can be moved forward by `amount` scalars: not
    /// past the end, and, where the scalars of this producer are made of
    /// the scalars of another, only by whole scalars of that one.
    spec fn can_advance(&self, amount: usize) -> bool;

    /// The cursor stands within the data; every pending vector and the
    /// partial vector have the width of the vector type; and a partial
    /// vector has a lane which is not empty.
    proof fn lemma_shape(&self)
        requires
            self.wf(),
        ensures
            self.spec_scalar_pos() <= self.spec_scalar_len(),
            self.pending().len() <= self.spec_len(),
            forall|k: int|
                0 <= k < self.pending().len() ==> (#[trigger] self.pending()[k]).len()
                    == <Self::Vector as Packed>::spec_width(),
            self.tail() matches Some((lanes, empty)) ==> lanes.len()
                == <Self::Vector as Packed>::spec_width() && empty
                < <Self::Vector as Packed>::spec_width(),
    ;

    /// Return the current position of this iterator, measured in scalars.
    fn scalar_pos(&self) -> (n: usize)
        requires
            self.wf(),
        ensures
            n == self.spec_scalar_pos(),
    ;

    /// Return the current position of this iterator, measured in vectors.
    fn vector_pos(&self) -> (n: usize)
        requires
            self.wf(),
        ensures
            n == self.spec_scalar_pos() / <Self::Vector as Packed>::spec_width(),
    {
        proof {
            <Self::Vector as Packed>::lemma_width();
        }
        self.scalar_pos() / self.width()
    }

    /// Advance the iterable by `amount` scalars. Only the cursor moves:
    /// which vectors are pending afterwards is for the producer to say.
    fn advance(&mut self, amount: usize)
        requires
            old(self).can_advance(amount),
        ensures
            final(self).spec_scalar_pos() == old(self).spec_scalar_pos() + amount,
            final(self).spec_scalar_len() == old(self).spec_scalar_len(),
            final(self).padding() == old(self).padding(),
    ;

    /// Advance the iterable such that it produces no more items: the
    /// cursor stands at the end.
    fn finalize(&mut self)
        requires
            old(self).wf(),
        ensures
            final(self).wf(),
            final(self).pending().len() == 0,
            final(self).tail() is None,
            final(self).spec_scalar_pos() == final(self).spec_scalar_len(),
            final(self).spec_scalar_len() == old(self).spec_scalar_len(),
            final(self).padding() == old(self).padding(),
    ;

    /// Return the default vector for this iterable.
    fn default(&self) -> (v: Self::Vector)
        requires
            self.wf(),
        ensures
            v.lanes() == self.padding(),
    ;

    /// Create an iterator over the remaining scalar elements in this
    /// iterator.
    fn unpack(self) -> (u: Unpacked<Self>)
        ensures
            u.iter == self,
    {
        Unpacked { iter: self }
    }

    /// Create an iterator which returns up to `amt` vectors at a time.
    fn unroll<'a>(&'a mut self, amt: usize) -> (u: Unrolled<'a, Self>)
        requires
            amt <= 8,
        ensures
            u.amt == amt,
            *u.iter == *old(self),
            *final(u.iter) == *final(self),
    {
        Unrolled { iter: self, amt: amt, scratch: [<Self::Vector as Packed>::default();8] }
    }

    /// Hand out the next whole vector and move the cursor over it, by the
    /// width of the vector, or return `None` and change nothing if no whole
    /// vector is left.
    fn next(&mut self) -> (r: Option<Self::Vector>)
        requires
            old(self).wf(),
        ensures
            final(self).wf(),
            final(self).tail() == old(self).tail(),
            final(self).spec_scalar_len() == old(self).spec_scalar_len(),
            final(self).padding() == old(self).padding(),
            match r {
                Some(v) => {
                    &&& old(self).pending().len() > 0
                    &&& v.lanes() == old(self).pending()[0]
                    &&& final(self).pending() == old(self).pending().drop_first()
                    &&& final(self).spec_scalar_pos() == old(self).spec_scalar_pos()
                        + <Self::Vector as Packed>::spec_width()
                    &&& old(self).attested(0)
                    &&& forall|k: int|
                        0 <= k ==> #[trigger] final(self).attested(k) == old(self).attested(k + 1)
                },
                None => {
                    &&& old(self).pending().len() == 0
                    &&& *final(self) == *old(self)
                },
            },
    ;

    /// Return the number of vectors of this iterator; never fewer than are
    /// pending.
    fn len(&self) -> (n: usize)
        requires
            self.wf(),
        ensures
            n == self.spec_len(),
    ;
}

/// A producer which can also hand out its partial last vector, and the
/// terminal operations built from that.
pub trait SIMDIterator: SIMDIterable {
    /// Pack and return the partial vector which follows the whole ones,
    /// with the number of its lanes which were not filled, or `None` if no
    /// scalars are left. The lanes which are not filled come first and hold
    /// the lanes of the default vector. To be called once `next` has
    /// returned `None`; no vector is left afterwards, and the cursor stands
    /// at the end.
    fn end(&mut self) -> (r: Option<(Self::Vector, usize)>)
        requires
            old(self).wf(),
            old(self).pending().len() == 0,
        ensures
            final(self).wf(),
            final(self).pending().len() == 0,
            final(self).tail() is None,
            final(self).spec_scalar_pos() == final(self).spec_scalar_len(),
            final(self).spec_scalar_len() == old(self).spec_scalar_len(),
            final(self).padding() == old(self).padding(),
            match r {
                Some((v, n)) => old(self).tail() == Some((v.lanes(), n as nat)) && old(
                    self,
                ).attested(0),
                None => old(self).tail() is None,
            },
    ;

    /// Return an iterator which calls `func` on vectors of elements.
    fn simd_map<A, B, F>(self, func: F) -> (m: SIMDMap<Self, F>) where
        F: FnMut(Self::Vector) -> A,
        A: Packed<Scalar = B>,
        B: Packable,

        ensures
            m.iter == self,
            m.func == func,
    {
        SIMDMap { iter: self, func: func }
    }

    /// Pack and run `func` over the iterator: once on every whole vector,
    /// in order, then once on the partial vector if there is one. What
    /// `func` does with a vector is its own business; stated is that it
    /// was handed each of them and returned.
    fn simd_do_each<F>(&mut self, func: F) where F: FnMut(Self::Vector) -> ()
        requires
            old(self).wf(),
            consumer::<Self::Vector, F>(func),
        ensures
            final(self).wf(),
            final(self).pending().len() == 0,
            final(self).tail() is None,
            final(self).spec_scalar_pos() == final(self).spec_scalar_len(),
            final(self).spec_scalar_len() == old(self).spec_scalar_len(),
            visited::<Self::Vector, F>(func, old(self).pending() + tail_lanes(old(self).tail())),
            forall|k: int|
                0 <= k < old(self).pending().len() + tail_lanes(old(self).tail()).len() ==> old(
                    self,
                ).attested(k),
    {
        let mut func = func;
        let ghost f0 = func;
        let ghost done: Seq<Seq<Self::Scalar>> = Seq::empty();
        proof {
            assert(done + self.pending() =~= self.pending());
        }
        loop
            invariant
                self.wf(),
                func == f0,
                consumer::<Self::Vector, F>(f0),
                self.spec_scalar_len() == old(self).spec_scalar_len(),
                self.tail() == old(self).tail(),
                done + self.pending() == old(self).pending(),
                visited::<Self::Vector, F>(f0, done),
                forall|k: int| 0 <= k < done.len() ==> old(self).attested(k),
                forall|k: int|
                    0 <= k ==> #[trigger] self.attested(k) == old(self).attested(k + done.len()),
            ensures
                self.wf(),
                self.pending().len() == 0,
                self.spec_scalar_len() == old(self).spec_scalar_len(),
                self.tail() == old(self).tail(),
                func == f0,
                consumer::<Self::Vector, F>(f0),
                done == old(self).pending(),
                visited::<Self::Vector, F>(f0, done),
                forall|k: int| 0 <= k < done.len() ==> old(self).attested(k),
                forall|k: int|
                    0 <= k ==> #[trigger] self.attested(k) == old(self).attested(k + done.len()),
            decreases self.pending().len(),
        {
            let ghost before = self.pending();
            match self.next() {
                Some(v) => {
                    func(v);
                    proof {
                        let grown = done.push(v.lanes());
                        assert(grown + self.pending() =~= done + before);
                        assert(call_ensures(f0, (v,), ()));
                        assert forall|k: int| 0 <= k < grown.len() implies exists|u: Self::Vector|
                            u.lanes() == #[trigger] grown[k] && #[trigger] call_ensures(
                                f0,
                                (u,),
                                (),
                            ) by {
                            if k < done.len() {
                                assert(grown[k] == done[k]);
                            }
                        }
                        done = grown;
                    }
                },
                None => {
                    proof {
                        assert(done + self.pending() =~= done);
                    }
                    break ;
                },
            }
        }
        let ghost whole = old(self).pending();
        match self.end() {
            Some((v, _)) => {
                func(v);
                proof {
                    let all = whole + tail_lanes(old(self).tail());
                    assert(all =~= whole.push(v.lanes()));
                    assert(call_ensures(f0, (v,), ()));
                    assert forall|k: int| 0 <= k < all.len() implies exists|u: Self::Vector|
                        u.lanes() == #[trigger] all[k] && #[trigger] call_ensures(f0, (u,), ()) by {
                        if k < whole.len() {
                            assert(all[k] == whole[k]);
                        }
                    }
                }
            },
            None => {
                proof {
                    assert(whole + tail_lanes(old(self).tail()) =~= whole);
                }
            },
        }
    }

    /// Return the value generated by reducing `func` over accumulator
    /// `start` and the vectors of this iterator: every whole vector in
    /// order, then the partial vector, whose empty lanes hold the default.
    /// Each call takes in the accumulator which the call before returned.
    fn simd_reduce<A, F>(&mut self, start: A, func: F) -> (r: A) where F: FnMut(A, Self::Vector) -> A
        requires
            old(self).wf(),
            reducer::<Self::Vector, A, F>(func),
        ensures
            final(self).wf(),
            final(self).pending().len() == 0,
            final(self).tail() is None,
            final(self).spec_scalar_pos() == final(self).spec_scalar_len(),
            final(self).spec_scalar_len() == old(self).spec_scalar_len(),
            folds_to::<Self::Vector, A, F>(
                func,
                old(self).pending() + tail_lanes(old(self).tail()),
                start,
                r,
            ),
            forall|k: int|
                0 <= k < old(self).pending().len() + tail_lanes(old(self).tail()).len() ==> old(
                    self,
                ).attested(k),
    {
        let mut func = func;
        let ghost f0 = func;
        let mut acc = start;
        let ghost done: Seq<Seq<Self::Scalar>> = Seq::empty();
        proof {
            assert(done + self.pending() =~= self.pending());
        }
        loop
            invariant
                self.wf(),
                func == f0,
                reducer::<Self::Vector, A, F>(f0),
                self.spec_scalar_len() == old(self).spec_scalar_len(),
                self.tail() == old(self).tail(),
                done + self.pending() == old(self).pending(),
                folds_to::<Self::Vector, A, F>(f0, done, start, acc),
                forall|k: int| 0 <= k < done.len() ==> old(self).attested(k),
                forall|k: int|
                    0 <= k ==> #[trigger] self.attested(k) == old(self).attested(k + done.len()),
            ensures
                self.wf(),
                func == f0,
                reducer::<Self::Vector, A, F>(f0),
                self.spec_scalar_len() == old(self).spec_scalar_len(),
                self.tail() == old(self).tail(),
                self.pending().len() == 0,
                done == old(self).pending(),
                folds_to::<Self::Vector, A, F>(f0, done, start, acc),
                forall|k: int| 0 <= k < done.len() ==> old(self).attested(k),
                forall|k: int|
                    0 <= k ==> #[trigger] self.attested(k) == old(self).attested(k + done.len()),
            decreases self.pending().len(),
        {
            let ghost before = self.pending();
            match self.next() {
                Some(v) => {
                    let ghost prev = acc;
                    acc = func(acc, v);
                    proof {
                        let grown = done.push(v.lanes());
                        assert(grown.drop_last() =~= done);
                        assert(grown + self.pending() =~= done + before);
                        assert(call_ensures(f0, (prev, v), acc));
                        done = grown;
                    }
                },
                None => {
                    proof {
                        assert(done + self.pending() =~= done);
                    }
                    break ;
                },
            }
        }
        let ghost whole = old(self).pending();
        match self.end() {
            Some((v, _)) => {
                let ghost prev = acc;
                acc = func(acc, v);
                proof {
                    let all = whole + tail_lanes(old(self).tail());
                    assert(all =~= whole.push(v.lanes()));
                    assert(all.drop_last() =~= whole);
                    assert(call_ensures(f0, (prev, v), acc));
                }
            },
            None => {
                proof {
                    assert(whole + tail_lanes(old(self).tail()) =~= whole);
                }
            },
        }
        acc
    }
}

/// A producer over a mutable blob of data, whose vectors can be changed in
/// place.
pub trait SIMDIteratorMut: SIMDIterator + SIMDArray {
    /// Pack and run `func` over the iterator, modifying each element
    /// in-place: every whole vector is replaced by what `func` makes of it,
    /// and the scalars of the partial vector by what `func` makes of them;
    /// nothing before the cursor and nothing beyond the data is written.
    /// The result is stated for every function `g` on lanes which `func`
    /// follows.
    fn simd_for_each<F>(&mut self, func: F) where F: FnMut(&mut Self::Vector) -> ()
        requires
            old(self).wf(),
            mutator::<Self::Vector, F>(func),
        ensures
            final(self).wf(),
            final(self).pending().len() == 0,
            final(self).tail() is None,
            final(self).spec_scalar_pos() == final(self).spec_scalar_len(),
            final(self).spec_scalar_len() == old(self).spec_scalar_len(),
            forall|g: spec_fn(Seq<Self::Scalar>) -> Seq<Self::Scalar>|
                (forall|x: &mut Self::Vector| #[trigger]
                    call_ensures(func, (x,), ()) ==> (*final(x)).lanes() == g((*x).lanes()))
                    ==> final(self).scalars() == #[trigger] rewritten(
                    old(self).scalars(),
                    old(self).spec_scalar_pos(),
                    <Self::Vector as Packed>::spec_width(),
                    old(self).padding(),
                    g,
                ),
    ;
}

/// Loads by position which leave the cursor alone; for callers which keep
/// their own cursor.
pub trait UnsafeIterator: SIMDIterable + SIMDArray {
    /// Return the whole vector whose first lane is the scalar at `offset`.
    fn next_unchecked(&mut self, offset: usize) -> (v: Self::Vector)
        requires
            old(self).wf(),
            offset + <Self::Vector as Packed>::spec_width() <= old(self).spec_scalar_len(),
        ensures
            *final(self) == *old(self),
            v.lanes() == old(self).scalars().subrange(
                offset as int,
                offset + <Self::Vector as Packed>::spec_width(),
            ),
    ;

    /// Return the partial vector which holds the scalars from `offset` to
    /// the end, right-aligned, behind `empty_amt` lanes of the default
    /// vector.
    fn end_unchecked(&mut self, offset: usize, empty_amt: usize) -> (v: Self::Vector)
        requires
            old(self).wf(),
            offset < old(self).spec_scalar_len(),
            empty_amt == <Self::Vector as Packed>::spec_width() - (old(self).spec_scalar_len()
                - offset),
        ensures
            *final(self) == *old(self),
            v.lanes() == old(self).padding().subrange(0, empty_amt as int) + old(
                self,
            ).scalars().subrange(offset as int, old(self).spec_scalar_len() as int),
    ;
}

} // verus!
