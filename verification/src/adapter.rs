//! The scalar-sequence producer: the slow path, for scalars which come one
//! at a time and cannot be loaded as vectors.

use crate::iters::{SIMDIterable, SIMDIterator, SIMDObject, SIMDSized};
use crate::model::{
    lemma_full_count, lemma_full_count_positive, lemma_windows_shape, lemma_windows_skip,
    reversed_partial, windows,
};
use crate::vecs::{Packable, Packed};
use vstd::prelude::*;

verus! {

/// A sequence of scalars of known length, handed out one at a time.
pub trait ScalarSequence {
    type Item: Packable;

    /// The scalars which are still to come, in order.
    spec fn remaining(&self) -> Seq<Self::Item>;

    /// Hand out the next scalar, or `None` once none is left.
    fn next(&mut self) -> (r: Option<Self::Item>)
        ensures
            match r {
                Some(s) => {
                    &&& old(self).remaining().len() > 0
                    &&& s == old(self).remaining()[0]
                    &&& final(self).remaining() == old(self).remaining().drop_first()
                },
                None => {
                    &&& old(self).remaining().len() == 0
                    &&& final(self).remaining() == old(self).remaining()
                },
            },
    ;

    /// Return the number of scalars which are still to come.
    fn len(&self) -> (n: usize)
        ensures
            n == self.remaining().len(),
    ;
}

/// The scalars of a growable vector, from its first to its last.
pub struct Scalars<S> {
    items: Vec<S>,
    at: usize,
}

impl<S> Scalars<S> {
    #[verifier::type_invariant]
    spec fn inv(&self) -> bool {
        self.at <= self.items@.len()
    }
}

impl<S: Packable> Scalars<S> {
    /// The scalars which are still to come, in order.
    pub closed spec fn view(&self) -> Seq<S> {
        self.items@.skip(self.at as int)
    }

    /// Make a sequence of the scalars of `items`.
    pub fn new(items: Vec<S>) -> (r: Self)
        ensures
            r@ == items@,
    {
        let r = Scalars { items: items, at: 0 };
        assert(r@ =~= items@);
        r
    }
}

impl<S: Packable> ScalarSequence for Scalars<S> {
    type Item = S;

    open spec fn remaining(&self) -> Seq<S> {
        self@
    }

    fn next(&mut self) -> (r: Option<S>) {
        proof {
            use_type_invariant(&*self);
        }
        if self.at < self.items.len() {
            let s = self.items[self.at];
            self.at += 1;
            proof {
                assert(self@ =~= old(self)@.drop_first());
            }
            Some(s)
        } else {
            None
        }
    }

    fn len(&self) -> (n: usize) {
        proof {
            use_type_invariant(self);
        }
        self.items.len() - self.at
    }
}

/// An iterator which packs an iterator of scalars into an iterator of vectors.
/// Cannot take advantage of vectorized loads, so it's very slow to gather data!
pub struct SIMDAdapter<I, V> where I: ScalarSequence<Item = V::Scalar>, V: Packed {
    pub iter: I,
    pub scratch: V,
    pub default: V,
    pub position: usize,
    pub length: usize,
}

impl<I, V> SIMDAdapter<I, V> where I: ScalarSequence<Item = V::Scalar>, V: Packed {
    /// Wrap a sequence of scalars in a producer whose partial vector is
    /// padded from `default`.
    pub fn new(iter: I, default: V) -> (r: Self)
        ensures
            r.wf(),
            r.iter == iter,
            r.default == default,
            r.position == 0,
            r.length == iter.remaining().len(),
    {
        let length = iter.len();
        SIMDAdapter { iter: iter, scratch: default, default: default, position: 0, length: length }
    }
}

impl<I, V> SIMDObject for SIMDAdapter<I, V> where I: ScalarSequence<Item = V::Scalar>, V: Packed {
    type Scalar = V::Scalar;

    type Vector = V;

    /// The cursor counts the scalars which were taken from the sequence.
    open spec fn wf(&self) -> bool {
        self.position + self.iter.remaining().len() == self.length
    }
}

impl<I, V> SIMDSized for SIMDAdapter<I, V> where I: ScalarSequence<Item = V::Scalar>, V: Packed {
    open spec fn spec_scalar_len(&self) -> nat {
        self.length as nat
    }

    fn scalar_len(&self) -> (n: usize) {
        self.length
    }
}

impl<I, V> SIMDIterable for SIMDAdapter<I, V> where I: ScalarSequence<Item = V::Scalar>, V: Packed {
    open spec fn spec_scalar_pos(&self) -> nat {
        self.position as nat
    }

    open spec fn spec_len(&self) -> nat {
        self.iter.remaining().len() / V::spec_width()
    }

    open spec fn padding(&self) -> Seq<V::Scalar> {
        self.default.lanes()
    }

    open spec fn pending(&self) -> Seq<Seq<V::Scalar>> {
        windows(self.iter.remaining(), 0, V::spec_width())
    }

    open spec fn tail(&self) -> Option<(Seq<V::Scalar>, nat)> {
        reversed_partial(self.iter.remaining(), V::spec_width(), self.default.lanes())
    }

    /// Nothing is applied to the scalars of a sequence: they are what they
    /// are.
    open spec fn attested(&self, k: int) -> bool {
        true
    }

    /// The cursor can be moved up to the length of the sequence.
    open spec fn can_advance(&self, amount: usize) -> bool {
        self.position + amount <= self.length
    }

    proof fn lemma_shape(&self) {
        let w = V::spec_width();
        V::lemma_width();
        self.default.lemma_lanes();
        lemma_windows_shape(self.iter.remaining(), 0, w);
        lemma_full_count(self.iter.remaining().len(), 0, w);
    }

    fn scalar_pos(&self) -> (n: usize) {
        self.position
    }

    fn advance(&mut self, amount: usize)
        ensures
            final(self).position == old(self).position + amount,
            final(self).length == old(self).length,
            final(self).iter == old(self).iter,
            final(self).default == old(self).default,
            final(self).scratch == old(self).scratch,
    {
        self.position += amount
    }

    fn finalize(&mut self)
        ensures
            final(self).position == old(self).length,
            final(self).length == old(self).length,
            final(self).default == old(self).default,
            final(self).iter.remaining().len() == 0,
    {
        loop
            invariant
                self.wf(),
                self.length == old(self).length,
                self.default == old(self).default,
            ensures
                self.wf(),
                self.length == old(self).length,
                self.default == old(self).default,
                self.iter.remaining().len() == 0,
            decreases self.iter.remaining().len(),
        {
            match self.iter.next() {
                Some(_) => {
                    self.advance(1);
                },
                None => {
                    break ;
                },
            }
        }
        proof {
            V::lemma_width();
            lemma_full_count(0, 0, V::spec_width());
            assert(0 * V::spec_width() == 0) by (nonlinear_arith);
        }
    }

    fn default(&self) -> (v: V)
        ensures
            v == self.default,
    {
        self.default
    }

    fn next(&mut self) -> (r: Option<V>)
        ensures
            final(self).length == old(self).length,
            final(self).default == old(self).default,
            r is Some ==> final(self).position == old(self).position + V::spec_width(),
    {
        let width = self.width();
        let ghost rest = self.iter.remaining();
        proof {
            V::lemma_width();
            self.scratch.lemma_lanes();
            lemma_full_count_positive(rest.len(), 0, V::spec_width());
        }
        if width <= self.length - self.position {
            // Our iterator has at least one vector's worth of elements, so load
            // them all into our vector
            let mut offset: usize = 0;
            while offset < width
                invariant
                    offset <= width == V::spec_width(),
                    width <= rest.len(),
                    self.position == old(self).position,
                    self.length == old(self).length,
                    self.default == old(self).default,
                    self.position + rest.len() == self.length,
                    self.iter.remaining() == rest.skip(offset as int),
                    self.scratch.lanes().len() == width,
                    forall|j: int| 0 <= j < offset ==> self.scratch.lanes()[j] == rest[j],
                decreases width - offset,
            {
                let item = self.iter.next().unwrap();
                self.scratch = self.scratch.replace_unchecked(offset, item);
                proof {
                    assert(rest.skip(offset as int).drop_first() =~= rest.skip(offset + 1));
                }
                offset += 1;
            }
            self.advance(width);
            proof {
                lemma_windows_skip(rest, V::spec_width());
                assert(self.scratch.lanes() =~= rest.subrange(0, width as int));
            }
            Some(self.scratch)
        } else {
            None
        }
    }

    fn len(&self) -> (n: usize) {
        proof {
            V::lemma_width();
        }
        self.iter.len() / self.width()
    }
}

impl<I, V> SIMDIterator for SIMDAdapter<I, V> where I: ScalarSequence<Item = V::Scalar>, V: Packed {
    fn end(&mut self) -> (r: Option<(V, usize)>)
        ensures
            final(self).position == old(self).length,
            final(self).length == old(self).length,
            final(self).default == old(self).default,
    {
        let width = self.width();
        let ghost rest = self.iter.remaining();
        proof {
            V::lemma_width();
            self.default.lemma_lanes();
            lemma_full_count(rest.len(), 0, V::spec_width());
            assert(0 * V::spec_width() == 0) by (nonlinear_arith);
            assert(rest.skip(0) =~= rest);
        }
        if self.position < self.length {
            // This is the last vector we can load, so we should load it
            // backwards and use the default vector to overwrite blank spots
            self.scratch = self.default;
            let mut offset = width;
            loop
                invariant
                    width == V::spec_width(),
                    rest.len() < width,
                    self.position == old(self).position,
                    self.length == old(self).length,
                    self.default == old(self).default,
                    self.position + rest.len() == self.length,
                    width - offset <= rest.len(),
                    offset <= width,
                    self.default.lanes().len() == width,
                    self.iter.remaining() == rest.skip(width - offset),
                    self.scratch.lanes().len() == width,
                    forall|j: int| 0 <= j < offset ==> self.scratch.lanes()[j] == self.default.lanes()[j],
                    forall|j: int|
                        offset <= j < width ==> self.scratch.lanes()[j] == rest[width - 1 - j],
                ensures
                    self.iter.remaining().len() == 0,
                    offset == width - rest.len(),
                    self.position == old(self).position,
                    self.length == old(self).length,
                    self.default == old(self).default,
                    self.scratch.lanes().len() == width,
                    forall|j: int| 0 <= j < offset ==> self.scratch.lanes()[j] == self.default.lanes()[j],
                    forall|j: int|
                        offset <= j < width ==> self.scratch.lanes()[j] == rest[width - 1 - j],
                decreases self.iter.remaining().len(),
            {
                match self.iter.next() {
                    Some(item) => {
                        proof {
                            assert(rest.skip(width - offset).drop_first() =~= rest.skip(
                                width - offset + 1,
                            ));
                        }
                        offset -= 1;
                        self.scratch = self.scratch.replace_unchecked(offset, item);
                    },
                    None => {
                        break ;
                    },
                }
            }
            let left = self.length - self.position;
            self.advance(left);
            proof {
                lemma_full_count(0, 0, V::spec_width());
                assert(self.scratch.lanes() =~= self.default.lanes().subrange(0, offset as int)
                    + rest.reverse());
            }
            Some((self.scratch, offset))
        } else {
            None
        }
    }
}

} // verus!
